//! A deliberately slow checksum over the bucket names of a store, for work that keeps a CPU busy.

use vstd::prelude::*;
use vstd::utf8::{encode_scalar, encode_utf8};

use crate::names::{is_valid_name, Bucket};
use crate::store::Store;
use crate::text::{byte_len, lemma_byte_len_is_encoded_len, lemma_encode_utf8_concat};

verus! {

/// How many times the checksum goes over the buckets.
pub const ROUNDS: u32 = 200_000;

/// The sum of some bytes.
pub open spec fn byte_sum(bytes: Seq<u8>) -> int
    decreases bytes.len(),
{
    if bytes.len() == 0 {
        0
    } else {
        byte_sum(bytes.drop_last()) + bytes.last()
    }
}

/// The sum of the bytes of a bucket name's UTF-8 encoding.
pub open spec fn name_weight(name: Seq<char>) -> u64 {
    byte_sum(encode_utf8(name)) as u64
}

/// One pass over `names`: multiply by 31 and add the next name's weight, wrapping around.
pub open spec fn mix(sum: u64, names: Seq<Seq<char>>) -> u64
    decreases names.len(),
{
    if names.len() == 0 {
        sum
    } else {
        mix(sum, names.drop_last()).wrapping_mul(31).wrapping_add(name_weight(names.last()))
    }
}

/// `rounds` passes over `names`, starting from zero.
pub open spec fn checksum_spec(names: Seq<Seq<char>>, rounds: nat) -> u64
    decreases rounds,
{
    if rounds == 0 {
        0
    } else {
        mix(checksum_spec(names, (rounds - 1) as nat), names)
    }
}

proof fn lemma_byte_sum_bound(bytes: Seq<u8>)
    ensures
        0 <= byte_sum(bytes) <= 255 * bytes.len(),
    decreases bytes.len(),
{
    if bytes.len() > 0 {
        lemma_byte_sum_bound(bytes.drop_last());
    }
}

proof fn lemma_byte_sum_concat(x: Seq<u8>, y: Seq<u8>)
    ensures
        byte_sum(x + y) == byte_sum(x) + byte_sum(y),
    decreases y.len(),
{
    if y.len() == 0 {
        assert(x + y =~= x);
    } else {
        assert((x + y).drop_last() =~= x + y.drop_last());
        lemma_byte_sum_concat(x, y.drop_last());
    }
}

/// What a name weighs in the checksum: the plain sum of the bytes of its UTF-8 encoding, never
/// reduced. An empty name weighs nothing; a name weighs what its parts weigh together; an ASCII
/// character weighs its code; any character weighs the sum of the bytes it is encoded as.
pub proof fn law_name_weight(a: Seq<char>, b: Seq<char>, c: char)
    requires
        byte_len(a) + byte_len(b) <= 0x1_0000_0000,
    ensures
        name_weight(Seq::<char>::empty()) == 0,
        name_weight(a + b) == name_weight(a) + name_weight(b),
        (c as u32) <= 0x7F ==> name_weight(seq![c]) == c as u32,
        ({
            let e = encode_scalar(c as u32);
            name_weight(seq![c]) == if e.len() == 1 {
                e[0] as int
            } else if e.len() == 2 {
                e[0] + e[1]
            } else if e.len() == 3 {
                e[0] + e[1] + e[2]
            } else {
                e[0] + e[1] + e[2] + e[3]
            }
        }),
{
    assert(encode_utf8(Seq::<char>::empty()) =~= Seq::<u8>::empty());
    lemma_encode_utf8_concat(a, b);
    lemma_byte_sum_concat(encode_utf8(a), encode_utf8(b));
    lemma_byte_len_is_encoded_len(a);
    lemma_byte_len_is_encoded_len(b);
    lemma_byte_sum_bound(encode_utf8(a));
    lemma_byte_sum_bound(encode_utf8(b));
    let e = encode_scalar(c as u32);
    assert(seq![c].drop_first() =~= Seq::<char>::empty());
    assert(encode_utf8(seq![c]) =~= e);
    lemma_byte_sum_bound(e);
    assert(1 <= e.len() <= 4);
    let e1 = e.take(1);
    let e2 = e.take(2);
    let e3 = e.take(3);
    assert(e1.drop_last() =~= Seq::<u8>::empty());
    assert(byte_sum(Seq::<u8>::empty()) == 0);
    assert(e1.last() == e[0]);
    assert(byte_sum(e1) == e[0]);
    if e.len() >= 2 {
        assert(e2.drop_last() =~= e1);
        assert(byte_sum(e2) == e[0] + e[1]);
    }
    if e.len() >= 3 {
        assert(e3.drop_last() =~= e2);
        assert(byte_sum(e3) == e[0] + e[1] + e[2]);
    }
    if e.len() == 1 {
        assert(e1 =~= e);
    } else if e.len() == 2 {
        assert(e2 =~= e);
    } else if e.len() == 3 {
        assert(e3 =~= e);
    } else {
        assert(e.drop_last() =~= e3);
    }
    let u = c as u32;
    if u <= 0x7F {
        assert(u <= 0x7F ==> ((u & 0x7F) as u8) as u32 == u) by (bit_vector);
    }
}

/// The sum of the bytes of one bucket name.
fn weight(bucket: &Bucket) -> (w: u64)
    ensures
        w == name_weight(bucket@),
{
    let name = bucket.as_str();
    let bytes = name.as_bytes();
    proof {
        lemma_byte_len_is_encoded_len(name@);
        assert(is_valid_name(name@));
        assert(byte_len(name@) <= 64);
    }
    let mut sum: u64 = 0;
    let mut i: usize = 0;
    while i < bytes.len()
        invariant
            i <= bytes.len() <= 64,
            bytes@ == encode_utf8(bucket@),
            sum == byte_sum(bytes@.take(i as int)),
        decreases bytes.len() - i,
    {
        proof {
            assert(bytes@.take(i + 1).drop_last() =~= bytes@.take(i as int));
            lemma_byte_sum_bound(bytes@.take(i as int));
        }
        sum = sum + bytes[i] as u64;
        i += 1;
    }
    assert(bytes@.take(i as int) =~= bytes@);
    sum
}

/// Computes a checksum over the whole store, using nothing but the CPU and taking its time.
pub fn checksum(store: &Store) -> (sum: u64)
    ensures
        sum == checksum_spec(store.bucket_order(), ROUNDS as nat),
{
    let buckets = store.buckets();
    let ghost names = store.bucket_order();
    let mut weights: Vec<u64> = Vec::new();
    let mut i: usize = 0;
    while i < buckets.len()
        invariant
            i <= buckets.len(),
            buckets@.map_values(|b: &Bucket| b@) == names,
            weights.len() == i,
            forall|j: int| 0 <= j < i ==> #[trigger] weights@[j] == name_weight(names[j]),
        decreases buckets.len() - i,
    {
        weights.push(weight(buckets[i]));
        i += 1;
    }
    let mut sum: u64 = 0;
    let mut round: u32 = 0;
    while round < ROUNDS
        invariant
            round <= ROUNDS,
            weights.len() == names.len(),
            forall|j: int| 0 <= j < names.len() ==> #[trigger] weights@[j] == name_weight(names[j]),
            sum == checksum_spec(names, round as nat),
        decreases ROUNDS - round,
    {
        let ghost start = sum;
        let mut j: usize = 0;
        while j < weights.len()
            invariant
                j <= weights.len() == names.len(),
                forall|k: int| 0 <= k < names.len() ==> #[trigger] weights@[k] == name_weight(names[k]),
                sum == mix(start, names.take(j as int)),
            decreases weights.len() - j,
        {
            assert(names.take(j + 1).drop_last() =~= names.take(j as int));
            sum = sum.wrapping_mul(31).wrapping_add(weights[j]);
            j += 1;
        }
        assert(names.take(j as int) =~= names);
        round += 1;
    }
    sum
}

} // verus!
