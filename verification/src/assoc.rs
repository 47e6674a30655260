//! Association lists: a sequence of pairs read as a map, and what edits to the sequence do to it.

use vstd::prelude::*;

verus! {

/// The map that a sequence of pairs stands for: later pairs win.
pub open spec fn to_map<A, B>(s: Seq<(A, B)>) -> Map<A, B>
    decreases s.len(),
{
    if s.len() == 0 {
        Map::empty()
    } else {
        to_map(s.drop_last()).insert(s.last().0, s.last().1)
    }
}

/// No key occurs twice.
pub open spec fn distinct_keys<A, B>(s: Seq<(A, B)>) -> bool {
    forall|i: int, j: int|
        0 <= i < s.len() && 0 <= j < s.len() && i != j ==> #[trigger] s[i].0 != #[trigger] s[j].0
}

/// A key is in the map exactly when some pair carries it.
pub proof fn lemma_to_map_contains<A, B>(s: Seq<(A, B)>, k: A)
    ensures
        to_map(s).contains_key(k) <==> exists|i: int| 0 <= i < s.len() && #[trigger] s[i].0 == k,
    decreases s.len(),
{
    if s.len() > 0 {
        lemma_to_map_contains(s.drop_last(), k);
        if to_map(s.drop_last()).contains_key(k) {
            let i = choose|i: int| 0 <= i < s.drop_last().len() && #[trigger] s.drop_last()[i].0 == k;
            assert(s[i].0 == k);
        }
        if exists|i: int| 0 <= i < s.len() && #[trigger] s[i].0 == k {
            let i = choose|i: int| 0 <= i < s.len() && #[trigger] s[i].0 == k;
            if i < s.len() - 1 {
                assert(s.drop_last()[i].0 == k);
            }
        }
    }
}

/// The map holds a pair's value under its key, when no key occurs twice.
pub proof fn lemma_to_map_index<A, B>(s: Seq<(A, B)>, i: int)
    requires
        distinct_keys(s),
        0 <= i < s.len(),
    ensures
        to_map(s).contains_key(s[i].0),
        to_map(s)[s[i].0] == s[i].1,
    decreases s.len(),
{
    if i < s.len() - 1 {
        assert(s.drop_last()[i] == s[i]);
        assert(distinct_keys(s.drop_last())) by {
            assert forall|a: int, b: int|
                0 <= a < s.drop_last().len() && 0 <= b < s.drop_last().len() && a != b implies #[trigger] s.drop_last()[a].0
                != #[trigger] s.drop_last()[b].0 by {
                assert(s[a].0 != s[b].0);
            }
        }
        lemma_to_map_index(s.drop_last(), i);
        assert(s[i].0 != s.last().0);
    }
}

/// Distinct keys stay distinct when the last pair is dropped.
pub proof fn lemma_distinct_drop_last<A, B>(s: Seq<(A, B)>)
    requires
        distinct_keys(s),
        s.len() > 0,
    ensures
        distinct_keys(s.drop_last()),
{
    assert forall|a: int, b: int|
        0 <= a < s.drop_last().len() && 0 <= b < s.drop_last().len() && a != b implies #[trigger] s.drop_last()[a].0
        != #[trigger] s.drop_last()[b].0 by {
        assert(s[a].0 != s[b].0);
    }
}

/// Appending a pair whose key is new keeps the keys distinct, and inserts it into the map.
pub proof fn lemma_to_map_push<A, B>(s: Seq<(A, B)>, k: A, v: B)
    requires
        distinct_keys(s),
        !to_map(s).contains_key(k),
    ensures
        distinct_keys(s.push((k, v))),
        to_map(s.push((k, v))) == to_map(s).insert(k, v),
{
    assert(s.push((k, v)).drop_last() =~= s);
    assert forall|a: int, b: int|
        0 <= a < s.push((k, v)).len() && 0 <= b < s.push((k, v)).len() && a != b implies #[trigger] s.push(
        (k, v),
    )[a].0 != #[trigger] s.push((k, v))[b].0 by {
        if a == s.len() {
            lemma_to_map_contains(s, k);
            assert(s[b].0 != k);
        } else if b == s.len() {
            lemma_to_map_contains(s, k);
            assert(s[a].0 != k);
        }
    }
}

/// Replacing the value of one pair replaces it in the map.
pub proof fn lemma_to_map_update<A, B>(s: Seq<(A, B)>, i: int, v: B)
    requires
        distinct_keys(s),
        0 <= i < s.len(),
    ensures
        distinct_keys(s.update(i, (s[i].0, v))),
        to_map(s.update(i, (s[i].0, v))) == to_map(s).insert(s[i].0, v),
    decreases s.len(),
{
    let t = s.update(i, (s[i].0, v));
    assert forall|a: int, b: int|
        0 <= a < t.len() && 0 <= b < t.len() && a != b implies #[trigger] t[a].0
        != #[trigger] t[b].0 by {
        assert(s[a].0 != s[b].0);
    }
    if i == s.len() - 1 {
        assert(t.drop_last() =~= s.drop_last());
        assert(to_map(t) =~= to_map(s).insert(s[i].0, v));
    } else {
        lemma_distinct_drop_last(s);
        assert(t.drop_last() =~= s.drop_last().update(i, (s[i].0, v)));
        assert(s.drop_last()[i] == s[i]);
        lemma_to_map_update(s.drop_last(), i, v);
        assert(s.last().0 != s[i].0);
        assert(to_map(t) =~= to_map(s).insert(s[i].0, v));
    }
}

/// Removing one pair removes its key from the map.
pub proof fn lemma_to_map_remove<A, B>(s: Seq<(A, B)>, i: int)
    requires
        distinct_keys(s),
        0 <= i < s.len(),
    ensures
        distinct_keys(s.remove(i)),
        to_map(s.remove(i)) == to_map(s).remove(s[i].0),
    decreases s.len(),
{
    let t = s.remove(i);
    assert forall|a: int, b: int|
        0 <= a < t.len() && 0 <= b < t.len() && a != b implies #[trigger] t[a].0
        != #[trigger] t[b].0 by {
        let a2 = if a < i { a } else { a + 1 };
        let b2 = if b < i { b } else { b + 1 };
        assert(t[a] == s[a2]);
        assert(t[b] == s[b2]);
        assert(s[a2].0 != s[b2].0);
    }
    lemma_distinct_drop_last(s);
    if i == s.len() - 1 {
        assert(t =~= s.drop_last());
        lemma_to_map_contains(s.drop_last(), s[i].0);
        if to_map(s.drop_last()).contains_key(s[i].0) {
            let j = choose|j: int| 0 <= j < s.drop_last().len() && #[trigger] s.drop_last()[j].0 == s[i].0;
            assert(s[j].0 == s[i].0);
        }
        assert(to_map(t) =~= to_map(s).remove(s[i].0));
    } else {
        assert(t.drop_last() =~= s.drop_last().remove(i));
        assert(t.last() == s.last());
        assert(s.drop_last()[i] == s[i]);
        lemma_to_map_remove(s.drop_last(), i);
        assert(s.last().0 != s[i].0);
        assert(to_map(t) =~= to_map(s).remove(s[i].0));
    }
}

} // verus!
