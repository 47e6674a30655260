//! The in-memory store: named buckets, each mapping keys to values.

use vstd::prelude::*;

use crate::assoc::{
    distinct_keys, lemma_to_map_contains, lemma_to_map_index, lemma_to_map_push,
    lemma_to_map_remove, lemma_to_map_update, to_map,
};
use crate::names::{Bucket, Key, Value};

verus! {

/// What a store holds: for each bucket name, the map from keys to values. A bucket that has been
/// emptied is still there, with an empty map.
pub type StoreView = Map<Seq<char>, Map<Seq<char>, Seq<char>>>;

/// The keys and values of one bucket, as views.
pub open spec fn entries_view(e: Seq<(Key, Value)>) -> Seq<(Seq<char>, Seq<char>)> {
    e.map_values(|p: (Key, Value)| (p.0@, p.1@))
}

/// The buckets of a store, as views.
pub open spec fn shelves_view(s: Seq<(Bucket, Vec<(Key, Value)>)>) -> Seq<
    (Seq<char>, Map<Seq<char>, Seq<char>>),
> {
    s.map_values(|p: (Bucket, Vec<(Key, Value)>)| (p.0@, to_map(entries_view(p.1@))))
}

/// The contents of bucket `b`; a bucket that is not there holds nothing.
pub open spec fn bucket_contents(s: StoreView, b: Seq<char>) -> Map<Seq<char>, Seq<char>> {
    if s.contains_key(b) {
        s[b]
    } else {
        Map::empty()
    }
}

/// The value stored under `k` in bucket `b`, if there is one.
pub open spec fn lookup(s: StoreView, b: Seq<char>, k: Seq<char>) -> Option<Seq<char>> {
    if s.contains_key(b) && s[b].contains_key(k) {
        Some(s[b][k])
    } else {
        None
    }
}

/// The store after `v` is written under `k` in bucket `b`, creating the bucket if needed.
pub open spec fn store_insert(s: StoreView, b: Seq<char>, k: Seq<char>, v: Seq<char>) -> StoreView {
    s.insert(b, bucket_contents(s, b).insert(k, v))
}

/// The store after `k` is removed from bucket `b`. The bucket itself stays, even if emptied.
pub open spec fn store_remove(s: StoreView, b: Seq<char>, k: Seq<char>) -> StoreView {
    if s.contains_key(b) {
        s.insert(b, s[b].remove(k))
    } else {
        s
    }
}

/// One change to a store, as its views: what `insert` and `remove` do.
pub enum StoreOp {
    Insert { bucket: Seq<char>, key: Seq<char>, value: Seq<char> },
    Remove { bucket: Seq<char>, key: Seq<char> },
}

/// What a run of changes, applied in order, leaves in a store holding `s`.
pub open spec fn run_ops(ops: Seq<StoreOp>, s: StoreView) -> StoreView
    decreases ops.len(),
{
    if ops.len() == 0 {
        s
    } else {
        let before = run_ops(ops.drop_last(), s);
        match ops.last() {
            StoreOp::Insert { bucket, key, value } => store_insert(before, bucket, key, value),
            StoreOp::Remove { bucket, key } => store_remove(before, bucket, key),
        }
    }
}

/// What the latest change to key `k` of bucket `b` in `ops` left there: the value of the latest
/// insert, unless a remove came after it.
pub open spec fn latest_write(ops: Seq<StoreOp>, b: Seq<char>, k: Seq<char>) -> Option<Seq<char>>
    decreases ops.len(),
{
    if ops.len() == 0 {
        None
    } else {
        match ops.last() {
            StoreOp::Insert { bucket, key, value } => if bucket == b && key == k {
                Some(value)
            } else {
                latest_write(ops.drop_last(), b, k)
            },
            StoreOp::Remove { bucket, key } => if bucket == b && key == k {
                None
            } else {
                latest_write(ops.drop_last(), b, k)
            },
        }
    }
}

/// `op` is an insert into bucket `b`.
pub open spec fn inserts_into(op: StoreOp, b: Seq<char>) -> bool {
    match op {
        StoreOp::Insert { bucket, .. } => bucket == b,
        StoreOp::Remove { .. } => false,
    }
}

/// Some insert in `ops` names bucket `b`.
pub open spec fn bucket_written(ops: Seq<StoreOp>, b: Seq<char>) -> bool {
    exists|i: int| 0 <= i < ops.len() && #[trigger] inserts_into(ops[i], b)
}

/// A store started empty answers a lookup with what the latest insert of that key stored, unless
/// a remove of it came after; a key never written, in a bucket used or not, is not there.
pub proof fn law_get_sees_the_latest_write(ops: Seq<StoreOp>, b: Seq<char>, k: Seq<char>)
    ensures
        lookup(run_ops(ops, StoreView::empty()), b, k) == latest_write(ops, b, k),
    decreases ops.len(),
{
    if ops.len() > 0 {
        law_get_sees_the_latest_write(ops.drop_last(), b, k);
    }
}

/// A store started empty holds exactly the buckets that some insert named, emptied ones
/// included: removes never take a bucket away, and only inserts add one.
pub proof fn law_buckets_are_those_written(ops: Seq<StoreOp>, b: Seq<char>)
    ensures
        run_ops(ops, StoreView::empty()).contains_key(b) <==> bucket_written(ops, b),
    decreases ops.len(),
{
    if ops.len() > 0 {
        let init = ops.drop_last();
        law_buckets_are_those_written(init, b);
        if bucket_written(init, b) {
            let i = choose|i: int| 0 <= i < init.len() && #[trigger] inserts_into(init[i], b);
            assert(ops[i] == init[i]);
        }
        if bucket_written(ops, b) {
            let i = choose|i: int| 0 <= i < ops.len() && #[trigger] inserts_into(ops[i], b);
            if i < init.len() {
                assert(init[i] == ops[i]);
            }
        }
        if inserts_into(ops.last(), b) {
            assert(inserts_into(ops[ops.len() - 1], b));
        }
    }
}

/// An in-memory key-value store, partitioned into named buckets.
pub struct Store {
    buckets: Vec<(Bucket, Vec<(Key, Value)>)>,
}

impl View for Store {
    type V = StoreView;

    closed spec fn view(&self) -> StoreView {
        to_map(shelves_view(self.buckets@))
    }
}

/// Where bucket `b` stands among `shelves`, if it is there.
fn find_bucket(shelves: &Vec<(Bucket, Vec<(Key, Value)>)>, b: &Bucket) -> (r: Option<usize>)
    ensures
        match r {
            Some(i) => i < shelves.len() && shelves@[i as int].0@ == b@,
            None => forall|i: int| 0 <= i < shelves.len() ==> #[trigger] shelves@[i].0@ != b@,
        },
{
    let mut i: usize = 0;
    while i < shelves.len()
        invariant
            i <= shelves.len(),
            forall|j: int| 0 <= j < i ==> #[trigger] shelves@[j].0@ != b@,
        decreases shelves.len() - i,
    {
        if shelves[i].0 == *b {
            return Some(i);
        }
        i += 1;
    }
    None
}

/// Where key `k` stands among `entries`, if it is there.
fn find_key(entries: &Vec<(Key, Value)>, k: &Key) -> (r: Option<usize>)
    ensures
        match r {
            Some(j) => j < entries.len() && entries@[j as int].0@ == k@,
            None => forall|j: int| 0 <= j < entries.len() ==> #[trigger] entries@[j].0@ != k@,
        },
{
    let mut j: usize = 0;
    while j < entries.len()
        invariant
            j <= entries.len(),
            forall|i: int| 0 <= i < j ==> #[trigger] entries@[i].0@ != k@,
        decreases entries.len() - j,
    {
        if entries[j].0 == *k {
            return Some(j);
        }
        j += 1;
    }
    None
}

impl Store {
    #[verifier::type_invariant]
    spec fn wf(self) -> bool {
        &&& distinct_keys(shelves_view(self.buckets@))
        &&& forall|i: int|
            0 <= i < self.buckets@.len() ==> distinct_keys(
                #[trigger] entries_view(self.buckets@[i].1@),
            )
    }

    /// The bucket names in the order `buckets` lists them.
    pub closed spec fn bucket_order(&self) -> Seq<Seq<char>> {
        self.buckets@.map_values(|p: (Bucket, Vec<(Key, Value)>)| p.0@)
    }

    /// Creates an empty store.
    pub fn new() -> (s: Self)
        ensures
            s@ == StoreView::empty(),
            s.bucket_order() == Seq::<Seq<char>>::empty(),
    {
        let s = Store { buckets: Vec::new() };
        assert(s.bucket_order() =~= Seq::<Seq<char>>::empty());
        s
    }

    /// Inserts a value, returning the value it replaced, if any.
    pub fn insert(&mut self, bucket: Bucket, key: Key, value: Value) -> (previous: Option<Value>)
        ensures
            final(self)@ == store_insert(old(self)@, bucket@, key@, value@),
            match previous {
                Some(v) => lookup(old(self)@, bucket@, key@) == Some(v@),
                None => lookup(old(self)@, bucket@, key@) is None,
            },
            final(self).bucket_order() == if old(self)@.contains_key(bucket@) {
                old(self).bucket_order()
            } else {
                old(self).bucket_order().push(bucket@)
            },
    {
        proof {
            use_type_invariant(&*self);
        }
        let ghost s0 = self.buckets@;
        let ghost order0 = self.bucket_order();
        let mut shelves: Vec<(Bucket, Vec<(Key, Value)>)> = Vec::new();
        std::mem::swap(&mut shelves, &mut self.buckets);
        assert(shelves@ == s0);
        let previous;
        match find_bucket(&shelves, &bucket) {
            None => {
                proof {
                    lemma_to_map_contains(shelves_view(s0), bucket@);
                    if to_map(shelves_view(s0)).contains_key(bucket@) {
                        let i = choose|i: int|
                            0 <= i < shelves_view(s0).len() && #[trigger] shelves_view(s0)[i].0
                                == bucket@;
                        assert(s0[i].0@ != bucket@);
                    }
                }
                let ghost kv = key@;
                let ghost vv = value@;
                let ghost bv = bucket@;
                let mut entries: Vec<(Key, Value)> = Vec::new();
                entries.push((key, value));
                proof {
                    let none = Seq::<(Seq<char>, Seq<char>)>::empty();
                    assert(entries_view(entries@) =~= none.push((kv, vv)));
                    assert(to_map(none) =~= Map::<Seq<char>, Seq<char>>::empty());
                    lemma_to_map_push(none, kv, vv);
                }
                shelves.push((bucket, entries));
                proof {
                    assert(shelves_view(shelves@) =~= shelves_view(s0).push(
                        (bv, Map::<Seq<char>, Seq<char>>::empty().insert(kv, vv)),
                    ));
                    lemma_to_map_push(
                        shelves_view(s0),
                        bv,
                        Map::<Seq<char>, Seq<char>>::empty().insert(kv, vv),
                    );
                    assert(bucket_contents(to_map(shelves_view(s0)), bv) =~= Map::<
                        Seq<char>,
                        Seq<char>,
                    >::empty());
                    assert forall|i: int| 0 <= i < shelves@.len() implies distinct_keys(
                        #[trigger] entries_view(shelves@[i].1@),
                    ) by {
                        if i < s0.len() {
                            assert(shelves@[i] == s0[i]);
                        }
                    }
                }
                previous = None;
            },
            Some(i) => {
                proof {
                    lemma_to_map_index(shelves_view(s0), i as int);
                }
                let (name, mut entries) = shelves.remove(i);
                let ghost e0 = entries@;
                let ghost inner0 = to_map(entries_view(e0));
                assert(distinct_keys(entries_view(e0)));
                match find_key(&entries, &key) {
                    None => {
                        proof {
                            lemma_to_map_contains(entries_view(e0), key@);
                            if inner0.contains_key(key@) {
                                let j = choose|j: int|
                                    0 <= j < entries_view(e0).len() && #[trigger] entries_view(
                                        e0,
                                    )[j].0 == key@;
                                assert(e0[j].0@ != key@);
                            }
                        }
                        let ghost kv = key@;
                        let ghost vv = value@;
                        entries.push((key, value));
                        proof {
                            assert(entries_view(entries@) =~= entries_view(e0).push((kv, vv)));
                            lemma_to_map_push(entries_view(e0), kv, vv);
                        }
                        previous = None;
                    },
                    Some(j) => {
                        proof {
                            lemma_to_map_index(entries_view(e0), j as int);
                        }
                        let (k0, old_value) = entries.remove(j);
                        let ghost vv = value@;
                        entries.insert(j, (k0, value));
                        proof {
                            assert(entries_view(entries@) =~= entries_view(e0).update(
                                j as int,
                                (entries_view(e0)[j as int].0, vv),
                            ));
                            lemma_to_map_update(entries_view(e0), j as int, vv);
                        }
                        previous = Some(old_value);
                    },
                }
                let ghost new_inner = to_map(entries_view(entries@));
                let ghost nv = name@;
                shelves.insert(i, (name, entries));
                proof {
                    assert(shelves_view(shelves@) =~= shelves_view(s0).update(
                        i as int,
                        (shelves_view(s0)[i as int].0, new_inner),
                    ));
                    lemma_to_map_update(shelves_view(s0), i as int, new_inner);
                    assert forall|k: int| 0 <= k < shelves@.len() implies distinct_keys(
                        #[trigger] entries_view(shelves@[k].1@),
                    ) by {
                        if k != i {
                            assert(shelves@[k] == s0[k]);
                        }
                    }
                }
            },
        }
        self.buckets = shelves;
        proof {
            if old(self)@.contains_key(bucket@) {
                assert(self.bucket_order() =~= order0);
            } else {
                assert(self.bucket_order() =~= order0.push(bucket@));
            }
        }
        previous
    }

    /// Looks up a value.
    pub fn get(&self, bucket: &Bucket, key: &Key) -> (r: Option<&Value>)
        ensures
            match r {
                Some(v) => lookup(self@, bucket@, key@) == Some(v@),
                None => lookup(self@, bucket@, key@) is None,
            },
    {
        proof {
            use_type_invariant(self);
        }
        let ghost s0 = self.buckets@;
        match find_bucket(&self.buckets, bucket) {
            None => {
                proof {
                    lemma_absent_bucket(s0, bucket@);
                }
                None
            },
            Some(i) => {
                proof {
                    lemma_to_map_index(shelves_view(s0), i as int);
                }
                let entries = &self.buckets[i].1;
                let ghost e0 = entries@;
                assert(distinct_keys(entries_view(e0)));
                match find_key(entries, key) {
                    None => {
                        proof {
                            lemma_absent_key(e0, key@);
                        }
                        None
                    },
                    Some(j) => {
                        proof {
                            lemma_to_map_index(entries_view(e0), j as int);
                        }
                        Some(&entries[j].1)
                    },
                }
            },
        }
    }

    /// Removes a value, returning it if it was there.
    pub fn remove(&mut self, bucket: &Bucket, key: &Key) -> (removed: Option<Value>)
        ensures
            final(self)@ == store_remove(old(self)@, bucket@, key@),
            match removed {
                Some(v) => lookup(old(self)@, bucket@, key@) == Some(v@),
                None => lookup(old(self)@, bucket@, key@) is None,
            },
            final(self).bucket_order() == old(self).bucket_order(),
    {
        proof {
            use_type_invariant(&*self);
        }
        let ghost s0 = self.buckets@;
        let ghost order0 = self.bucket_order();
        let mut shelves: Vec<(Bucket, Vec<(Key, Value)>)> = Vec::new();
        std::mem::swap(&mut shelves, &mut self.buckets);
        assert(shelves@ == s0);
        let removed;
        match find_bucket(&shelves, bucket) {
            None => {
                proof {
                    lemma_absent_bucket(s0, bucket@);
                }
                removed = None;
            },
            Some(i) => {
                proof {
                    lemma_to_map_index(shelves_view(s0), i as int);
                }
                let (name, mut entries) = shelves.remove(i);
                let ghost e0 = entries@;
                let ghost inner0 = to_map(entries_view(e0));
                assert(distinct_keys(entries_view(e0)));
                match find_key(&entries, key) {
                    None => {
                        proof {
                            lemma_absent_key(e0, key@);
                            assert(inner0.remove(key@) =~= inner0);
                        }
                        removed = None;
                    },
                    Some(j) => {
                        proof {
                            lemma_to_map_index(entries_view(e0), j as int);
                        }
                        let (_k, v) = entries.remove(j);
                        proof {
                            assert(entries_view(entries@) =~= entries_view(e0).remove(j as int));
                            lemma_to_map_remove(entries_view(e0), j as int);
                        }
                        removed = Some(v);
                    },
                }
                let ghost new_inner = to_map(entries_view(entries@));
                shelves.insert(i, (name, entries));
                proof {
                    assert(shelves_view(shelves@) =~= shelves_view(s0).update(
                        i as int,
                        (shelves_view(s0)[i as int].0, new_inner),
                    ));
                    lemma_to_map_update(shelves_view(s0), i as int, new_inner);
                    assert forall|k: int| 0 <= k < shelves@.len() implies distinct_keys(
                        #[trigger] entries_view(shelves@[k].1@),
                    ) by {
                        if k != i {
                            assert(shelves@[k] == s0[k]);
                        }
                    }
                }
            },
        }
        self.buckets = shelves;
        assert(self.bucket_order() =~= order0);
        removed
    }

    /// Lists the buckets, including any that have been emptied.
    pub fn buckets(&self) -> (r: Vec<&Bucket>)
        ensures
            r@.map_values(|b: &Bucket| b@) == self.bucket_order(),
            self.bucket_order().no_duplicates(),
            forall|n: Seq<char>| self@.contains_key(n) <==> self.bucket_order().contains(n),
    {
        proof {
            use_type_invariant(self);
        }
        let ghost order = self.bucket_order();
        let mut r: Vec<&Bucket> = Vec::new();
        let mut i: usize = 0;
        while i < self.buckets.len()
            invariant
                i <= self.buckets.len(),
                order == self.bucket_order(),
                r@.map_values(|b: &Bucket| b@) == order.take(i as int),
            decreases self.buckets.len() - i,
        {
            let ghost before = r@;
            let name = &self.buckets[i].0;
            r.push(name);
            assert(r@.map_values(|b: &Bucket| b@) =~= before.map_values(|b: &Bucket| b@).push(
                name@,
            ));
            assert(order.take(i + 1) =~= order.take(i as int).push(order[i as int]));
            i += 1;
        }
        assert(order.take(i as int) =~= order);
        proof {
            let sv = shelves_view(self.buckets@);
            assert forall|a: int, b: int| 0 <= a < order.len() && 0 <= b < order.len() && a != b
                implies order[a] != order[b] by {
                assert(sv[a].0 != sv[b].0);
            }
            assert forall|n: Seq<char>| self@.contains_key(n) <==> order.contains(n) by {
                lemma_to_map_contains(sv, n);
                if self@.contains_key(n) {
                    let i = choose|i: int| 0 <= i < sv.len() && #[trigger] sv[i].0 == n;
                    assert(order[i] == n);
                }
                if order.contains(n) {
                    let i = choose|i: int| 0 <= i < order.len() && order[i] == n;
                    assert(sv[i].0 == n);
                }
            }
        }
        r
    }
}

impl Default for Store {
    fn default() -> (s: Self)
        ensures
            s@ == StoreView::empty(),
    {
        Self::new()
    }
}

/// Looks a value up and takes a copy of it, so that whatever lent the store can have it back.
pub fn get_cloned(store: &Store, bucket: &Bucket, key: &Key) -> (r: Option<Value>)
    ensures
        match r {
            Some(v) => lookup(store@, bucket@, key@) == Some(v@),
            None => lookup(store@, bucket@, key@) is None,
        },
{
    match store.get(bucket, key) {
        Some(v) => Some(v.clone()),
        None => None,
    }
}

/// A bucket that no shelf carries is not in the store.
proof fn lemma_absent_bucket(s: Seq<(Bucket, Vec<(Key, Value)>)>, b: Seq<char>)
    requires
        forall|i: int| 0 <= i < s.len() ==> #[trigger] s[i].0@ != b,
    ensures
        !to_map(shelves_view(s)).contains_key(b),
{
    lemma_to_map_contains(shelves_view(s), b);
    if to_map(shelves_view(s)).contains_key(b) {
        let i = choose|i: int| 0 <= i < shelves_view(s).len() && #[trigger] shelves_view(s)[i].0 == b;
        assert(s[i].0@ != b);
    }
}

/// A key that no entry carries is not in the bucket.
proof fn lemma_absent_key(e: Seq<(Key, Value)>, k: Seq<char>)
    requires
        forall|j: int| 0 <= j < e.len() ==> #[trigger] e[j].0@ != k,
    ensures
        !to_map(entries_view(e)).contains_key(k),
{
    lemma_to_map_contains(entries_view(e), k);
    if to_map(entries_view(e)).contains_key(k) {
        let j = choose|j: int| 0 <= j < entries_view(e).len() && #[trigger] entries_view(e)[j].0 == k;
        assert(e[j].0@ != k);
    }
}

} // verus!
