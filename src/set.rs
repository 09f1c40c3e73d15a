use vstd::prelude::*;

use vstd::set_lib::{lemma_set_subset_finite, lemma_subset_equality};

use crate::error::Error;
use crate::hashing::{
    finish_collection_hash, finish_hash, hash_shuffle_bits, lemma_xor_of_empty,
    lemma_xor_of_insert, shuffle_bits, xor_of,
};
use crate::key::Key;
use crate::trie_set::{
    trie_elements, trie_set_clone, trie_set_contains, trie_set_first, trie_set_insert,
    trie_set_insert_mut, trie_set_new, trie_set_remove, trie_set_remove_mut, trie_set_size,
    TrieSet,
};

verus! {

/// What one element adds to the hash of a set: its shuffled hash.
pub open spec fn key_contribution() -> spec_fn(Key) -> u64 {
    |k: Key| shuffle_bits(k.hash as u64)
}

/// The hash of a set. It depends on the elements alone, not on the order in
/// which they were inserted.
pub open spec fn set_hash(s: Set<Key>) -> i64 {
    finish_collection_hash(xor_of(s, key_contribution()), s.len() as u64)
}

/// The keys of a sequence, as a set.
pub open spec fn key_set(s: Seq<Key>) -> Set<Key> {
    Set::new(|k: Key| s.contains(k))
}

/// Appending a key to a sequence adds it to the sequence's key set.
pub proof fn lemma_key_set_push(s: Seq<Key>, k: Key)
    ensures
        key_set(s.push(k)) == key_set(s).insert(k),
{
    assert forall|x: Key| #[trigger] s.push(k).contains(x) <==> s.contains(x) || x == k by {
        if s.push(k).contains(x) && x != k {
            let j = choose|j: int| 0 <= j < s.push(k).len() && s.push(k)[j] == x;
            assert(s[j] == x);
        }
        if s.contains(x) {
            let j = choose|j: int| 0 <= j < s.len() && s[j] == x;
            assert(s.push(k)[j] == x);
        }
        if x == k {
            assert(s.push(k)[s.len() as int] == x);
        }
    }
    assert(key_set(s.push(k)) =~= key_set(s).insert(k));
}

/// The elements that belong to exactly one of the two sets.
pub open spec fn symmetric_difference_of(a: Set<Key>, b: Set<Key>) -> Set<Key> {
    a.difference(b).union(b.difference(a))
}

/// A persistent set of keys, backed by a hash-array-mapped trie.
pub struct HashTrieSet {
    inner: TrieSet,
}

impl View for HashTrieSet {
    type V = Set<Key>;

    closed spec fn view(&self) -> Set<Key> {
        trie_elements(self.inner)
    }
}

impl HashTrieSet {
    #[verifier::type_invariant]
    spec fn inv(self) -> bool {
        trie_elements(self.inner).finite()
    }

    /// The empty set.
    pub fn new() -> (r: HashTrieSet)
        ensures
            r@ == Set::<Key>::empty(),
    {
        HashTrieSet { inner: trie_set_new() }
    }

    /// The given set, or the empty set.
    pub fn init(value: Option<HashTrieSet>) -> (r: HashTrieSet)
        ensures
            r@ == match value {
                Some(s) => s@,
                None => Set::<Key>::empty(),
            },
    {
        match value {
            Some(s) => s,
            None => HashTrieSet::new(),
        }
    }

    /// Inserts the keys in order into a set that this handle alone owns.
    fn insert_all(acc: &mut TrieSet, keys: &Vec<Key>)
        ensures
            trie_elements(*final(acc)) == trie_elements(*old(acc)).union(key_set(keys@)),
    {
        let ghost base = trie_elements(*acc);
        let mut i: usize = 0;
        while i < keys.len()
            invariant
                i <= keys@.len(),
                trie_elements(*acc) == base.union(key_set(keys@.subrange(0, i as int))),
            decreases keys@.len() - i,
        {
            trie_set_insert_mut(acc, keys[i]);
            proof {
                assert(keys@.subrange(0, i + 1) =~= keys@.subrange(0, i as int).push(keys@[i as int]));
                lemma_key_set_push(keys@.subrange(0, i as int), keys@[i as int]);
            }
            i = i + 1;
        }
        proof {
            assert(keys@.subrange(0, keys@.len() as int) =~= keys@);
        }
    }

    /// The set of the given keys.
    pub fn from_keys(keys: &Vec<Key>) -> (r: HashTrieSet)
        ensures
            r@ == key_set(keys@),
    {
        let mut acc = trie_set_new();
        Self::insert_all(&mut acc, keys);
        proof {
            assert(trie_elements(acc) =~= key_set(keys@));
            assert(key_set(keys@) =~= keys@.to_set());
            keys@.lemma_cardinality_of_set();
        }
        HashTrieSet { inner: acc }
    }

    /// A new set with the keys of each of `iterables` added in turn.
    pub fn update(&self, iterables: &Vec<Vec<Key>>) -> (r: HashTrieSet)
        ensures
            forall|k: Key|
                r@.contains(k) <==> self@.contains(k) || exists|i: int|
                    0 <= i < iterables@.len() && (#[trigger] iterables@[i])@.contains(k),
    {
        proof {
            use_type_invariant(self);
        }
        let mut acc = trie_set_clone(&self.inner);
        let mut i: usize = 0;
        while i < iterables.len()
            invariant
                i <= iterables@.len(),
                trie_elements(acc).finite(),
                forall|k: Key|
                    trie_elements(acc).contains(k) <==> self@.contains(k) || exists|j: int|
                        0 <= j < i && (#[trigger] iterables@[j])@.contains(k),
            decreases iterables@.len() - i,
        {
            let ghost before = trie_elements(acc);
            Self::insert_all(&mut acc, &iterables[i]);
            proof {
                let s = iterables@[i as int]@;
                assert(key_set(s) =~= s.to_set());
                s.lemma_cardinality_of_set();
                assert forall|k: Key|
                    trie_elements(acc).contains(k) <==> self@.contains(k) || exists|j: int|
                        0 <= j < i + 1 && (#[trigger] iterables@[j])@.contains(k) by {
                    if exists|j: int| 0 <= j < i + 1 && (#[trigger] iterables@[j])@.contains(k) {
                        let j = choose|j: int|
                            0 <= j < i + 1 && (#[trigger] iterables@[j])@.contains(k);
                        if j < i {
                            assert(before.contains(k));
                        }
                    }
                    if s.contains(k) {
                        assert(iterables@[i as int]@.contains(k));
                    }
                }
            }
            i = i + 1;
        }
        HashTrieSet { inner: acc }
    }

    /// Whether the key is an element.
    pub fn contains(&self, key: &Key) -> (r: bool)
        ensures
            r == self@.contains(*key),
    {
        trie_set_contains(&self.inner, key)
    }

    /// The number of elements, kept with the set rather than counted.
    pub fn len(&self) -> (r: usize)
        ensures
            r == self@.len(),
    {
        trie_set_size(&self.inner)
    }

    /// A new set with the key added.
    pub fn insert(&self, key: Key) -> (r: HashTrieSet)
        ensures
            r@ == self@.insert(key),
    {
        proof {
            use_type_invariant(self);
        }
        HashTrieSet { inner: trie_set_insert(&self.inner, key) }
    }

    /// A new set without the key; `KeyNotFound` where it is not an element.
    pub fn remove(&self, key: &Key) -> (r: Result<HashTrieSet, Error>)
        ensures
            self@.contains(*key) ==> (r matches Ok(s) && s@ == self@.remove(*key)),
            !self@.contains(*key) ==> (r matches Err(e) && e == Error::KeyNotFound(*key)),
    {
        proof {
            use_type_invariant(self);
        }
        if trie_set_contains(&self.inner, key) {
            Ok(HashTrieSet { inner: trie_set_remove(&self.inner, key) })
        } else {
            Err(Error::KeyNotFound(*key))
        }
    }

    /// A new set without the key; the same elements where it is absent.
    pub fn discard(&self, key: &Key) -> (r: HashTrieSet)
        ensures
            r@ == self@.remove(*key),
    {
        proof {
            use_type_invariant(self);
        }
        if trie_set_contains(&self.inner, key) {
            HashTrieSet { inner: trie_set_remove(&self.inner, key) }
        } else {
            proof {
                assert(self@.remove(*key) =~= self@);
            }
            HashTrieSet { inner: trie_set_clone(&self.inner) }
        }
    }

    /// Orders the two operands by size: the larger first.
    fn by_size<'a>(a: &'a HashTrieSet, b: &'a HashTrieSet) -> (r: (&'a HashTrieSet, &'a HashTrieSet))
        ensures
            (r.0 == a && r.1 == b) || (r.0 == b && r.1 == a),
    {
        if trie_set_size(&a.inner) > trie_set_size(&b.inner) {
            (a, b)
        } else {
            (b, a)
        }
    }

    /// The elements of either set. Adds the smaller set's elements to the
    /// larger one.
    pub fn union(&self, other: &HashTrieSet) -> (r: HashTrieSet)
        ensures
            r@ == self@.union(other@),
    {
        let (larger, smaller) = Self::by_size(self, other);
        proof {
            use_type_invariant(larger);
            use_type_invariant(smaller);
        }
        let ghost big = larger@;
        let ghost small = smaller@;
        let mut acc = trie_set_clone(&larger.inner);
        let mut rest = trie_set_clone(&smaller.inner);
        let mut next = trie_set_first(&rest);
        proof {
            assert(big.union(small.difference(trie_elements(rest))) =~= big);
        }
        while next.is_some()
            invariant
                trie_elements(rest).subset_of(small),
                small.finite(),
                next.is_none() ==> trie_elements(rest) == Set::<Key>::empty(),
                next matches Some(k) ==> trie_elements(rest).contains(k),
                big.finite(),
                trie_elements(acc) == big.union(small.difference(trie_elements(rest))),
            decreases trie_elements(rest).len(),
        {
            let k = next.unwrap();
            let ghost before = trie_elements(rest);
            proof {
                lemma_set_subset_finite(small, before);
            }
            trie_set_insert_mut(&mut acc, k);
            trie_set_remove_mut(&mut rest, &k);
            proof {
                assert(big.union(small.difference(trie_elements(rest))) =~= big.union(small.difference(before)).insert(k));
            }
            next = trie_set_first(&rest);
        }
        proof {
            assert(trie_elements(acc) =~= self@.union(other@));
        }
        HashTrieSet { inner: acc }
    }

    /// The elements of both sets. Probes the larger set with each element of
    /// the smaller one.
    pub fn intersection(&self, other: &HashTrieSet) -> (r: HashTrieSet)
        ensures
            r@ == self@.intersect(other@),
    {
        let (larger, smaller) = Self::by_size(self, other);
        proof {
            use_type_invariant(larger);
            use_type_invariant(smaller);
        }
        let ghost big = larger@;
        let ghost small = smaller@;
        let mut acc = trie_set_new();
        let mut rest = trie_set_clone(&smaller.inner);
        let mut next = trie_set_first(&rest);
        proof {
            assert(small.difference(trie_elements(rest)).intersect(big) =~= trie_elements(acc));
        }
        while next.is_some()
            invariant
                trie_elements(rest).subset_of(small),
                small.finite(),
                next.is_none() ==> trie_elements(rest) == Set::<Key>::empty(),
                next matches Some(k) ==> trie_elements(rest).contains(k),
                big == larger@,
                trie_elements(acc) == small.difference(trie_elements(rest)).intersect(big),
            decreases trie_elements(rest).len(),
        {
            let k = next.unwrap();
            let ghost before = trie_elements(rest);
            proof {
                lemma_set_subset_finite(small, before);
            }
            if trie_set_contains(&larger.inner, &k) {
                trie_set_insert_mut(&mut acc, k);
            }
            trie_set_remove_mut(&mut rest, &k);
            proof {
                assert(small.difference(trie_elements(rest)).intersect(big) =~= if big.contains(k) {
                    small.difference(before).intersect(big).insert(k)
                } else {
                    small.difference(before).intersect(big)
                });
            }
            next = trie_set_first(&rest);
        }
        proof {
            assert(trie_elements(acc) =~= self@.intersect(other@));
            lemma_set_subset_finite(small, trie_elements(acc));
        }
        HashTrieSet { inner: acc }
    }

    /// The elements of this set that are not in the other.
    pub fn difference(&self, other: &HashTrieSet) -> (r: HashTrieSet)
        ensures
            r@ == self@.difference(other@),
    {
        proof {
            use_type_invariant(self);
            use_type_invariant(other);
        }
        let ghost base = self@;
        let ghost small = other@;
        let mut acc = trie_set_clone(&self.inner);
        let mut rest = trie_set_clone(&other.inner);
        let mut next = trie_set_first(&rest);
        proof {
            assert(base.difference(small.difference(trie_elements(rest))) =~= base);
        }
        while next.is_some()
            invariant
                trie_elements(rest).subset_of(small),
                small.finite(),
                next.is_none() ==> trie_elements(rest) == Set::<Key>::empty(),
                next matches Some(k) ==> trie_elements(rest).contains(k),
                base.finite(),
                trie_elements(acc) == base.difference(small.difference(trie_elements(rest))),
            decreases trie_elements(rest).len(),
        {
            let k = next.unwrap();
            let ghost before = trie_elements(rest);
            proof {
                lemma_set_subset_finite(small, before);
            }
            trie_set_remove_mut(&mut acc, &k);
            trie_set_remove_mut(&mut rest, &k);
            proof {
                assert(base.difference(small.difference(trie_elements(rest))) =~= base.difference(small.difference(before)).remove(k));
            }
            next = trie_set_first(&rest);
        }
        proof {
            assert(trie_elements(acc) =~= self@.difference(other@));
        }
        HashTrieSet { inner: acc }
    }

    /// The elements of exactly one of the two sets. Starts from the larger
    /// set and toggles each element of the smaller one.
    pub fn symmetric_difference(&self, other: &HashTrieSet) -> (r: HashTrieSet)
        ensures
            r@ == symmetric_difference_of(self@, other@),
    {
        let (larger, smaller) = Self::by_size(self, other);
        proof {
            use_type_invariant(larger);
            use_type_invariant(smaller);
        }
        let ghost big = larger@;
        let ghost small = smaller@;
        let mut acc = trie_set_clone(&larger.inner);
        let mut rest = trie_set_clone(&smaller.inner);
        let mut next = trie_set_first(&rest);
        proof {
            assert(symmetric_difference_of(big, small.difference(trie_elements(rest))) =~= big);
        }
        while next.is_some()
            invariant
                trie_elements(rest).subset_of(small),
                small.finite(),
                next.is_none() ==> trie_elements(rest) == Set::<Key>::empty(),
                next matches Some(k) ==> trie_elements(rest).contains(k),
                big.finite(),
                trie_elements(acc) == symmetric_difference_of(big, small.difference(trie_elements(rest))),
            decreases trie_elements(rest).len(),
        {
            let k = next.unwrap();
            let ghost before = trie_elements(rest);
            proof {
                lemma_set_subset_finite(small, before);
            }
            if trie_set_contains(&acc, &k) {
                trie_set_remove_mut(&mut acc, &k);
            } else {
                trie_set_insert_mut(&mut acc, k);
            }
            trie_set_remove_mut(&mut rest, &k);
            proof {
                let seen = small.difference(before);
                assert(small.difference(trie_elements(rest)) =~= seen.insert(k));
                assert(symmetric_difference_of(big, seen.insert(k)) =~= if big.contains(k) {
                    symmetric_difference_of(big, seen).remove(k)
                } else {
                    symmetric_difference_of(big, seen).insert(k)
                });
            }
            next = trie_set_first(&rest);
        }
        proof {
            assert(trie_elements(acc) =~= symmetric_difference_of(self@, other@));
        }
        HashTrieSet { inner: acc }
    }

    /// Whether every element of `a` is an element of `b`.
    fn all_contained(a: &HashTrieSet, b: &HashTrieSet) -> (r: bool)
        ensures
            r == a@.subset_of(b@),
    {
        proof {
            use_type_invariant(a);
        }
        let ghost small = a@;
        let mut rest = trie_set_clone(&a.inner);
        let mut next = trie_set_first(&rest);
        while next.is_some()
            invariant
                trie_elements(rest).subset_of(small),
                small.finite(),
                next.is_none() ==> trie_elements(rest) == Set::<Key>::empty(),
                next matches Some(k) ==> trie_elements(rest).contains(k),
                small == a@,
                small.difference(trie_elements(rest)).subset_of(b@),
            decreases trie_elements(rest).len(),
        {
            let k = next.unwrap();
            let ghost before = trie_elements(rest);
            proof {
                lemma_set_subset_finite(small, before);
            }
            if !trie_set_contains(&b.inner, &k) {
                return false;
            }
            trie_set_remove_mut(&mut rest, &k);
            proof {
                assert(small.difference(trie_elements(rest)) =~= small.difference(before).insert(k));
            }
            next = trie_set_first(&rest);
        }
        proof {
            assert(small.difference(trie_elements(rest)) =~= small);
        }
        true
    }

    /// Whether the two sets have the same elements: the same size, and every
    /// element of the other one is in this one.
    pub fn is_equal(&self, other: &HashTrieSet) -> (r: bool)
        ensures
            r == (self@ == other@),
    {
        proof {
            use_type_invariant(self);
            use_type_invariant(other);
        }
        if trie_set_size(&other.inner) != trie_set_size(&self.inner) {
            return false;
        }
        let r = Self::all_contained(other, self);
        proof {
            if r {
                lemma_subset_equality(other@, self@);
            }
        }
        r
    }

    /// Whether every element of this set is in the other.
    pub fn is_subset(&self, other: &HashTrieSet) -> (r: bool)
        ensures
            r == self@.subset_of(other@),
    {
        proof {
            use_type_invariant(self);
            use_type_invariant(other);
            if self@.subset_of(other@) {
                vstd::set_lib::lemma_len_subset(self@, other@);
            }
        }
        if trie_set_size(&other.inner) < trie_set_size(&self.inner) {
            return false;
        }
        Self::all_contained(self, other)
    }

    /// Whether this set is a subset of the other and smaller than it.
    pub fn is_proper_subset(&self, other: &HashTrieSet) -> (r: bool)
        ensures
            r == (self@.subset_of(other@) && self@ != other@),
    {
        proof {
            use_type_invariant(self);
            use_type_invariant(other);
            if self@.subset_of(other@) {
                vstd::set_lib::lemma_len_subset(self@, other@);
                if self@.len() == other@.len() {
                    lemma_subset_equality(self@, other@);
                }
            }
        }
        if trie_set_size(&other.inner) <= trie_set_size(&self.inner) {
            return false;
        }
        Self::all_contained(self, other)
    }

    /// Whether every element of the other set is in this one.
    pub fn is_superset(&self, other: &HashTrieSet) -> (r: bool)
        ensures
            r == other@.subset_of(self@),
    {
        other.is_subset(self)
    }

    /// Whether this set is a superset of the other and larger than it.
    pub fn is_proper_superset(&self, other: &HashTrieSet) -> (r: bool)
        ensures
            r == (other@.subset_of(self@) && self@ != other@),
    {
        other.is_proper_subset(self)
    }

    /// The hash of the set: an order-independent combination of the hashes
    /// of its elements, folded with its size.
    pub fn hash(&self) -> (r: i64)
        ensures
            r == set_hash(self@),
    {
        proof {
            use_type_invariant(self);
        }
        let ghost small = self@;
        let ghost g = key_contribution();
        let mut rest = trie_set_clone(&self.inner);
        let mut acc: u64 = 0;
        let mut next = trie_set_first(&rest);
        proof {
            lemma_xor_of_empty(g);
            assert(small.difference(trie_elements(rest)) =~= Set::<Key>::empty());
        }
        while next.is_some()
            invariant
                trie_elements(rest).subset_of(small),
                small.finite(),
                next.is_none() ==> trie_elements(rest) == Set::<Key>::empty(),
                next matches Some(k) ==> trie_elements(rest).contains(k),
                small == self@,
                g == key_contribution(),
                acc == xor_of(small.difference(trie_elements(rest)), g),
            decreases trie_elements(rest).len(),
        {
            let k = next.unwrap();
            let ghost before = trie_elements(rest);
            proof {
                lemma_set_subset_finite(small, before);
            }
            acc = acc ^ hash_shuffle_bits(k.hash as u64);
            trie_set_remove_mut(&mut rest, &k);
            proof {
                let done = small.difference(before);
                lemma_set_subset_finite(small, done);
                lemma_xor_of_insert(done, g, k);
                assert(small.difference(trie_elements(rest)) =~= done.insert(k));
            }
            next = trie_set_first(&rest);
        }
        proof {
            assert(small.difference(trie_elements(rest)) =~= small);
        }
        finish_hash(acc, trie_set_size(&self.inner))
    }

    /// The set's elements, each once, in the order in which the trie yields
    /// them.
    pub fn elements(&self) -> (r: Vec<Key>)
        ensures
            r@.len() == self@.len(),
            r@.no_duplicates(),
            r@.to_set() == self@,
    {
        proof {
            use_type_invariant(self);
        }
        let ghost small = self@;
        let mut out: Vec<Key> = Vec::new();
        let mut rest = trie_set_clone(&self.inner);
        let mut next = trie_set_first(&rest);
        proof {
            assert(out@.to_set() =~= small.difference(trie_elements(rest)));
        }
        while next.is_some()
            invariant
                trie_elements(rest).subset_of(small),
                small.finite(),
                next.is_none() ==> trie_elements(rest) == Set::<Key>::empty(),
                next matches Some(k) ==> trie_elements(rest).contains(k),
                small == self@,
                out@.no_duplicates(),
                out@.to_set() == small.difference(trie_elements(rest)),
                out@.len() + trie_elements(rest).len() == small.len(),
            decreases trie_elements(rest).len(),
        {
            let k = next.unwrap();
            let ghost before = trie_elements(rest);
            proof {
                lemma_set_subset_finite(small, before);
            }
            let ghost old_out = out@;
            out.push(k);
            trie_set_remove_mut(&mut rest, &k);
            proof {
                assert(!old_out.contains(k)) by {
                    assert(!old_out.to_set().contains(k));
                }
                assert(out@.to_set() =~= old_out.to_set().insert(k)) by {
                    assert forall|x: Key| out@.contains(x) <==> old_out.contains(x) || x == k by {
                        if out@.contains(x) && x != k {
                            let j = choose|j: int| 0 <= j < out@.len() && out@[j] == x;
                            assert(old_out[j] == x);
                        }
                        if old_out.contains(x) {
                            let j = choose|j: int| 0 <= j < old_out.len() && old_out[j] == x;
                            assert(out@[j] == x);
                        }
                        if x == k {
                            assert(out@[out@.len() - 1] == x);
                        }
                    }
                }
                assert(small.difference(trie_elements(rest)) =~= small.difference(before).insert(k));
            }
            next = trie_set_first(&rest);
        }
        proof {
            assert(small.difference(trie_elements(rest)) =~= small);
        }
        out
    }

    /// An iterator over a snapshot of the set; the set itself is untouched.
    pub fn iter(&self) -> (r: SetIterator)
        ensures
            r@ == self@,
    {
        proof {
            use_type_invariant(self);
        }
        SetIterator { remaining: HashTrieSet { inner: trie_set_clone(&self.inner) } }
    }
}

/// A one-pass iterator over the elements of a set. It holds its own
/// snapshot, from which each step takes one element out.
pub struct SetIterator {
    remaining: HashTrieSet,
}

impl View for SetIterator {
    type V = Set<Key>;

    /// The elements not yet yielded.
    closed spec fn view(&self) -> Set<Key> {
        self.remaining@
    }
}

impl SetIterator {
    /// Takes one of the remaining elements out and yields it; `None` once
    /// none remain.
    pub fn next(&mut self) -> (r: Option<Key>)
        ensures
            r.is_none() ==> old(self)@ == Set::<Key>::empty() && final(self)@ == old(self)@,
            r matches Some(k) ==> old(self)@.contains(k) && final(self)@ == old(self)@.remove(k),
    {
        proof {
            use_type_invariant(&self.remaining);
        }
        match trie_set_first(&self.remaining.inner) {
            None => None,
            Some(k) => {
                self.remaining = HashTrieSet { inner: trie_set_remove(&self.remaining.inner, &k) };
                Some(k)
            },
        }
    }

    /// Runs the iterator to its end and gathers the elements it yields:
    /// each element of the snapshot exactly once, as many as the set's size.
    pub fn drain(&mut self) -> (r: Vec<Key>)
        ensures
            r@.no_duplicates(),
            r@.to_set() == old(self)@,
            r@.len() == old(self)@.len(),
            final(self)@ == Set::<Key>::empty(),
    {
        let ghost start = self@;
        proof {
            use_type_invariant(&self.remaining);
            assert(Seq::<Key>::empty().to_set() =~= start.difference(self@));
        }
        let mut out: Vec<Key> = Vec::new();
        let mut done = false;
        while !done
            invariant
                start.finite(),
                self@.finite(),
                self@.subset_of(start),
                out@.no_duplicates(),
                forall|i: int| 0 <= i < out@.len() ==> !self@.contains(#[trigger] out@[i]),
                out@.to_set() == start.difference(self@),
                out@.len() + self@.len() == start.len(),
                done ==> self@ == Set::<Key>::empty(),
            decreases self@.len() + if done { 0nat } else { 1nat },
        {
            let ghost before = self@;
            let ghost old_out = out@;
            match self.next() {
                None => {
                    done = true;
                },
                Some(k) => {
                    out.push(k);
                    proof {
                        assert(!old_out.contains(k)) by {
                            if old_out.contains(k) {
                                let j = choose|j: int| 0 <= j < old_out.len() && old_out[j] == k;
                                assert(!before.contains(old_out[j]));
                            }
                        }
                        assert(out@.to_set() =~= old_out.to_set().insert(k)) by {
                            assert forall|x: Key| out@.contains(x) <==> old_out.contains(x) || x == k by {
                                if out@.contains(x) && x != k {
                                    let j = choose|j: int| 0 <= j < out@.len() && out@[j] == x;
                                    assert(old_out[j] == x);
                                }
                                if old_out.contains(x) {
                                    let j = choose|j: int| 0 <= j < old_out.len() && old_out[j] == x;
                                    assert(out@[j] == x);
                                }
                                if x == k {
                                    assert(out@[out@.len() - 1] == x);
                                }
                            }
                        }
                        assert(start.difference(self@) =~= start.difference(before).insert(k));
                    }
                },
            }
        }
        proof {
            assert(start.difference(self@) =~= start);
        }
        out
    }
}

} // verus!
