use vstd::prelude::*;

use std::collections::hash_map::DefaultHasher;
use std::hash::Hasher;
use vstd::bytes::{spec_u64_to_le_bytes, u64_to_le_bytes};
use vstd::std_specs::hash::DefaultHasherAdditionalSpecFns;
use vstd::set::fold::{is_fun_commutative, lemma_fold_empty, lemma_fold_insert};

use crate::error::Error;
use crate::key::{Key, Value};

verus! {

/// Spreads the bits of one element's hash before it is folded into the hash
/// of a whole collection, so that elements whose hashes share bits do not
/// cancel each other out under exclusive-or.
pub open spec fn shuffle_bits(h: u64) -> u64 {
    ((h ^ 89869747u64) ^ ((h << 16u64) as u64)).wrapping_mul(3644798167u64)
}

pub fn hash_shuffle_bits(h: u64) -> (r: u64)
    ensures
        r == shuffle_bits(h),
{
    ((h ^ 89869747u64) ^ (h << 16u64)).wrapping_mul(3644798167u64)
}

/// The last step of a collection's hash: folds in the number of elements,
/// disperses patterns of the folded value and scrambles it by a
/// multiplication.
pub open spec fn finish_collection_hash(folded: u64, size: u64) -> i64 {
    let h1 = folded ^ size.wrapping_add(1u64).wrapping_mul(1927868237u64);
    let h2 = h1 ^ ((h1 >> 11u64) ^ (h1 >> 25u64));
    h2.wrapping_mul(69069u64).wrapping_add(907133923u64) as i64
}

pub fn finish_hash(folded: u64, size: usize) -> (r: i64)
    ensures
        r == finish_collection_hash(folded, size as u64),
{
    let size = size as u64;
    let h1 = folded ^ size.wrapping_add(1u64).wrapping_mul(1927868237u64);
    let h2 = h1 ^ ((h1 >> 11u64) ^ (h1 >> 25u64));
    h2.wrapping_mul(69069u64).wrapping_add(907133923u64) as i64
}

/// The writes that feed a sequence of host hashes to a hasher: each one as
/// the eight bytes that `Hasher::write_isize` writes for it on a
/// little-endian 64-bit target.
pub open spec fn hash_writes(hashes: Seq<i64>) -> Seq<Seq<u8>> {
    hashes.map_values(|h: i64| spec_u64_to_le_bytes(h as u64))
}

/// The order-sensitive hash of a sequence of host hashes: what std's
/// `DefaultHasher` gives after those hashes are written to it in order.
pub open spec fn sequence_hash(hashes: Seq<i64>) -> u64 {
    DefaultHasher::spec_finish(hash_writes(hashes))
}

pub fn hash_sequence(hashes: &Vec<i64>) -> (r: u64)
    ensures
        r == sequence_hash(hashes@),
{
    let mut hasher = DefaultHasher::new();
    let mut i: usize = 0;
    while i < hashes.len()
        invariant
            i <= hashes@.len(),
            hasher@ == hash_writes(hashes@.subrange(0, i as int)),
        decreases hashes@.len() - i,
    {
        let bytes = u64_to_le_bytes(hashes[i] as u64);
        hasher.write(bytes.as_slice());
        proof {
            assert(hash_writes(hashes@.subrange(0, i + 1)) =~= hash_writes(
                hashes@.subrange(0, i as int),
            ).push(spec_u64_to_le_bytes(hashes@[i as int] as u64)));
        }
        i = i + 1;
    }
    proof {
        assert(hashes@.subrange(0, hashes@.len() as int) =~= hashes@);
    }
    hasher.finish()
}

/// One step of an order-independent fold: the exclusive-or of the
/// accumulated value with the contribution of one key.
pub open spec fn xor_step(g: spec_fn(Key) -> u64) -> spec_fn(u64, Key) -> u64 {
    |acc: u64, k: Key| acc ^ g(k)
}

/// The exclusive-or of the contributions of all keys of a finite set.
pub open spec fn xor_of(s: Set<Key>, g: spec_fn(Key) -> u64) -> u64 {
    s.fold(0u64, xor_step(g))
}

proof fn lemma_xor_swap(b: u64, x: u64, y: u64)
    ensures
        (b ^ y) ^ x == (b ^ x) ^ y,
{
    assert((b ^ y) ^ x == (b ^ x) ^ y) by (bit_vector);
}

pub proof fn lemma_xor_of_empty(g: spec_fn(Key) -> u64)
    ensures
        xor_of(Set::empty(), g) == 0,
{
    lemma_fold_empty(0u64, xor_step(g));
}

pub proof fn lemma_xor_of_insert(s: Set<Key>, g: spec_fn(Key) -> u64, k: Key)
    requires
        s.finite(),
        !s.contains(k),
    ensures
        xor_of(s.insert(k), g) == xor_of(s, g) ^ g(k),
{
    let f = xor_step(g);
    assert forall|a1: Key, a2: Key, b: u64| #[trigger] f(f(b, a2), a1) == f(f(b, a1), a2) by {
        lemma_xor_swap(b, g(a1), g(a2));
    }
    assert(is_fun_commutative(f));
    lemma_fold_insert(s, 0u64, f, k);
}

/// Whether every value of the sequence has a hash.
pub open spec fn all_hashable(s: Seq<Value>) -> bool {
    forall|i: int| 0 <= i < s.len() ==> (#[trigger] s[i]).hash.is_some()
}

/// The hashes of a sequence of hashable values, in order.
pub open spec fn hashes_of(s: Seq<Value>) -> Seq<i64> {
    s.map_values(|v: Value| v.hash.unwrap())
}

/// Whether `e` reports the first value of the sequence that has no hash.
pub open spec fn reports_first_unhashable(s: Seq<Value>, e: Error) -> bool {
    exists|i: int|
        0 <= i < s.len() && (#[trigger] s[i]).hash.is_none() && (forall|j: int|
            0 <= j < i ==> (#[trigger] s[j]).hash.is_some()) && e == Error::Unhashable(s[i])
}

/// The order-sensitive hash of a sequence of values. Fails on the first
/// value that has no hash.
pub fn hash_values(values: &Vec<Value>) -> (r: Result<u64, Error>)
    ensures
        all_hashable(values@) ==> (r matches Ok(h) && h == sequence_hash(hashes_of(values@))),
        !all_hashable(values@) ==> (r matches Err(e) && reports_first_unhashable(values@, e)),
{
    let mut hashes: Vec<i64> = Vec::new();
    let mut i: usize = 0;
    while i < values.len()
        invariant
            i <= values@.len(),
            hashes@ == hashes_of(values@.subrange(0, i as int)),
            forall|j: int| 0 <= j < i ==> (#[trigger] values@[j]).hash.is_some(),
        decreases values@.len() - i,
    {
        match values[i].hash {
            Some(h) => {
                hashes.push(h);
                proof {
                    assert(hashes_of(values@.subrange(0, i + 1)) =~= hashes_of(
                        values@.subrange(0, i as int),
                    ).push(h));
                }
            },
            None => {
                assert(reports_first_unhashable(values@, Error::Unhashable(values@[i as int])));
                return Err(Error::Unhashable(values[i]));
            },
        }
        i = i + 1;
    }
    proof {
        assert(values@.subrange(0, values@.len() as int) =~= values@);
    }
    Ok(hash_sequence(&hashes))
}

} // verus!
