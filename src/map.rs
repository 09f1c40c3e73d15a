use vstd::prelude::*;

use vstd::set_lib::{lemma_set_subset_finite, lemma_subset_equality};

use crate::error::Error;
use crate::hashing::{
    finish_collection_hash, finish_hash, hash_sequence, hash_shuffle_bits, lemma_xor_of_empty,
    lemma_xor_of_insert, sequence_hash, shuffle_bits, xor_of,
};
use crate::key::{Key, Value};
use crate::views::{ItemsView, KeysIterator, KeysView, ValuesView};
use crate::trie_map::{
    trie_entries, trie_map_clone, trie_map_contains_key, trie_map_first, trie_map_get,
    trie_map_insert, trie_map_insert_mut, trie_map_new, trie_map_remove, trie_map_remove_mut,
    trie_map_size, TrieMap,
};

verus! {

/// Looking a key up: its value, or `KeyNotFound` for an absent key.
pub open spec fn lookup(m: Map<Key, Value>, k: Key) -> Result<Value, Error> {
    if m.contains_key(k) {
        Ok(m[k])
    } else {
        Err(Error::KeyNotFound(k))
    }
}

/// The map that inserting the entries of `s` into `base` in order gives: a
/// later entry for a key replaces an earlier one.
pub open spec fn with_entries(base: Map<Key, Value>, s: Seq<(Key, Value)>) -> Map<Key, Value>
    decreases s.len(),
{
    if s.len() == 0 {
        base
    } else {
        with_entries(base, s.drop_last()).insert(s.last().0, s.last().1)
    }
}

/// Laying maps over `base` one after the other: for a key that several of
/// them hold, the last one's value wins.
pub open spec fn overlay(base: Map<Key, Value>, ms: Seq<Map<Key, Value>>) -> Map<Key, Value>
    decreases ms.len(),
{
    if ms.len() == 0 {
        base
    } else {
        overlay(base, ms.drop_last()).union_prefer_right(ms.last())
    }
}

/// Whether every value of the map has a hash.
pub open spec fn all_values_hashable(m: Map<Key, Value>) -> bool {
    forall|k: Key| m.contains_key(k) ==> (#[trigger] m[k]).hash.is_some()
}

/// What one entry adds to the hash of a map: the shuffled hash of its key's
/// hash followed by its value's hash.
pub open spec fn entry_contribution(m: Map<Key, Value>) -> spec_fn(Key) -> u64 {
    |k: Key| shuffle_bits(sequence_hash(seq![k.hash, m[k].hash.unwrap()]))
}

/// The hash of a map whose values are all hashable. It depends on the
/// entries alone, not on the order in which they were inserted.
pub open spec fn map_hash(m: Map<Key, Value>) -> i64 {
    finish_collection_hash(xor_of(m.dom(), entry_contribution(m)), m.len() as u64)
}

/// Whether `e` reports a value of the map that has no hash.
pub open spec fn reports_unhashable_value(m: Map<Key, Value>, e: Error) -> bool {
    exists|k: Key| #[trigger]
        m.contains_key(k) && m[k].hash.is_none() && e == Error::Unhashable(m[k])
}

pub proof fn lemma_with_entries_finite(base: Map<Key, Value>, s: Seq<(Key, Value)>)
    requires
        base.dom().finite(),
    ensures
        with_entries(base, s).dom().finite(),
    decreases s.len(),
{
    if s.len() > 0 {
        lemma_with_entries_finite(base, s.drop_last());
    }
}

/// A persistent map from keys to values, backed by a hash-array-mapped
/// trie. Updates return a new map that shares every untouched subtree with
/// the map it came from.
pub struct HashTrieMap {
    inner: TrieMap,
}

impl View for HashTrieMap {
    type V = Map<Key, Value>;

    closed spec fn view(&self) -> Map<Key, Value> {
        trie_entries(self.inner)
    }
}

impl HashTrieMap {
    #[verifier::type_invariant]
    spec fn inv(self) -> bool {
        trie_entries(self.inner).dom().finite()
    }

    /// The empty map.
    pub fn new() -> (r: HashTrieMap)
        ensures
            r@ == Map::<Key, Value>::empty(),
    {
        HashTrieMap { inner: trie_map_new() }
    }

    /// The map that holds the given entries, inserted in order: where a key
    /// occurs twice the later value wins.
    pub fn from_entries(entries: &Vec<(Key, Value)>) -> (r: HashTrieMap)
        ensures
            r@ == with_entries(Map::empty(), entries@),
    {
        let mut inner = trie_map_new();
        proof {
            assert(trie_entries(inner) =~= Map::empty());
        }
        Self::insert_all(&mut inner, entries);
        proof {
            lemma_with_entries_finite(Map::empty(), entries@);
        }
        HashTrieMap { inner }
    }

    /// Inserts the entries in order into a map that this handle alone owns.
    fn insert_all(inner: &mut TrieMap, entries: &Vec<(Key, Value)>)
        ensures
            trie_entries(*final(inner)) == with_entries(trie_entries(*old(inner)), entries@),
    {
        let ghost base = trie_entries(*inner);
        let mut i: usize = 0;
        while i < entries.len()
            invariant
                i <= entries@.len(),
                trie_entries(*inner) == with_entries(base, entries@.subrange(0, i as int)),
            decreases entries@.len() - i,
        {
            let (k, v) = entries[i];
            trie_map_insert_mut(inner, k, v);
            proof {
                assert(entries@.subrange(0, i + 1).drop_last() =~= entries@.subrange(0, i as int));
            }
            i = i + 1;
        }
        proof {
            assert(entries@.subrange(0, entries@.len() as int) =~= entries@);
        }
    }

    /// Starts from `value`, or from the empty map, and inserts the given
    /// keyword entries in order.
    pub fn init(value: Option<HashTrieMap>, kwds: &Vec<(Key, Value)>) -> (r: HashTrieMap)
        ensures
            r@ == with_entries(
                match value {
                    Some(m) => m@,
                    None => Map::empty(),
                },
                kwds@,
            ),
    {
        let mut inner = match value {
            Some(m) => {
                proof {
                    use_type_invariant(&m);
                }
                m.inner
            },
            None => {
                let empty = trie_map_new();
                proof {
                    assert(trie_entries(empty) =~= Map::empty());
                }
                empty
            },
        };
        let ghost base = trie_entries(inner);
        Self::insert_all(&mut inner, kwds);
        proof {
            lemma_with_entries_finite(base, kwds@);
        }
        HashTrieMap { inner }
    }

    /// The map from each of `keys` to `value`. Fails on the first key that is
    /// not hashable.
    pub fn fromkeys(keys: &Vec<Value>, value: Value) -> (r: Result<HashTrieMap, Error>)
        ensures
            (forall|i: int| 0 <= i < keys@.len() ==> (#[trigger] keys@[i]).hash.is_some()) ==> (
            r matches Ok(m) && (forall|k: Key|
                m@.contains_key(k) <==> exists|i: int|
                    0 <= i < keys@.len() && #[trigger] keys@[i].as_key() == Some(k)) && (forall|
                k: Key,
            | #[trigger] m@.contains_key(k) ==> m@[k] == value)),
            r matches Err(e) ==> exists|i: int|
                0 <= i < keys@.len() && keys@[i].hash.is_none() && e == Error::Unhashable(
                    #[trigger] keys@[i],
                ) && forall|j: int| 0 <= j < i ==> (#[trigger] keys@[j]).hash.is_some(),
    {
        let mut inner = trie_map_new();
        let mut i: usize = 0;
        while i < keys.len()
            invariant
                i <= keys@.len(),
                trie_entries(inner).dom().finite(),
                forall|j: int| 0 <= j < i ==> (#[trigger] keys@[j]).hash.is_some(),
                forall|k: Key|
                    trie_entries(inner).contains_key(k) <==> exists|j: int|
                        0 <= j < i && #[trigger] keys@[j].as_key() == Some(k),
                forall|k: Key| #[trigger]
                    trie_entries(inner).contains_key(k) ==> trie_entries(inner)[k] == value,
            decreases keys@.len() - i,
        {
            let key = match Key::extract(keys[i]) {
                Ok(key) => key,
                Err(e) => {
                    return Err(e);
                },
            };
            let ghost before = trie_entries(inner);
            trie_map_insert_mut(&mut inner, key, value);
            proof {
                assert forall|k: Key|
                    trie_entries(inner).contains_key(k) <==> exists|j: int|
                        0 <= j < i + 1 && #[trigger] keys@[j].as_key() == Some(k) by {
                    if k == key {
                        assert(keys@[i as int].as_key() == Some(k));
                    }
                    if exists|j: int| 0 <= j < i + 1 && #[trigger] keys@[j].as_key() == Some(k) {
                        let j = choose|j: int| 0 <= j < i + 1 && #[trigger] keys@[j].as_key() == Some(k);
                        if j < i {
                            assert(before.contains_key(k));
                        }
                    }
                }
            }
            i = i + 1;
        }
        Ok(HashTrieMap { inner })
    }

    /// Whether the key has an entry.
    pub fn contains_key(&self, key: &Key) -> (r: bool)
        ensures
            r == self@.contains_key(*key),
    {
        trie_map_contains_key(&self.inner, key)
    }

    /// The value stored under the key, or `KeyNotFound`.
    pub fn get_item(&self, key: &Key) -> (r: Result<Value, Error>)
        ensures
            r == lookup(self@, *key),
    {
        match trie_map_get(&self.inner, key) {
            Some(v) => Ok(v),
            None => Err(Error::KeyNotFound(*key)),
        }
    }

    /// The value stored under the key, or `default` when the key is absent.
    pub fn get(&self, key: &Key, default: Option<Value>) -> (r: Option<Value>)
        ensures
            self@.contains_key(*key) ==> r == Some(self@[*key]),
            !self@.contains_key(*key) ==> r == default,
    {
        match trie_map_get(&self.inner, key) {
            Some(v) => Some(v),
            None => default,
        }
    }

    /// The number of entries, kept with the map rather than counted. The
    /// entries are finitely many.
    pub fn len(&self) -> (r: usize)
        ensures
            r == self@.len(),
            self@.dom().finite(),
    {
        proof {
            use_type_invariant(self);
        }
        trie_map_size(&self.inner)
    }

    /// A new map with the key bound to the value; the last write wins.
    pub fn insert(&self, key: Key, value: Value) -> (r: HashTrieMap)
        ensures
            r@ == self@.insert(key, value),
    {
        proof {
            use_type_invariant(self);
        }
        HashTrieMap { inner: trie_map_insert(&self.inner, key, value) }
    }

    /// A new map without the key; `KeyNotFound` where the key is absent.
    pub fn remove(&self, key: &Key) -> (r: Result<HashTrieMap, Error>)
        ensures
            self@.contains_key(*key) ==> (r matches Ok(m) && m@ == self@.remove(*key)),
            !self@.contains_key(*key) ==> (r matches Err(e) && e == Error::KeyNotFound(*key)),
    {
        proof {
            use_type_invariant(self);
        }
        if trie_map_contains_key(&self.inner, key) {
            Ok(HashTrieMap { inner: trie_map_remove(&self.inner, key) })
        } else {
            Err(Error::KeyNotFound(*key))
        }
    }

    /// A new map without the key; the same entries where the key is absent.
    pub fn discard(&self, key: &Key) -> (r: HashTrieMap)
        ensures
            r@ == self@.remove(*key),
    {
        proof {
            use_type_invariant(self);
        }
        if trie_map_contains_key(&self.inner, key) {
            HashTrieMap { inner: trie_map_remove(&self.inner, key) }
        } else {
            proof {
                assert(self@.remove(*key) =~= self@);
            }
            HashTrieMap { inner: trie_map_clone(&self.inner) }
        }
    }

    /// The map's entries, each once, in the order in which the trie yields
    /// them. The map itself is left as it was.
    pub fn entries(&self) -> (r: Vec<(Key, Value)>)
        ensures
            r@.len() == self@.len(),
            forall|i: int| 0 <= i < r@.len() ==> self@.contains_pair(#[trigger] r@[i].0, r@[i].1),
            forall|i: int, j: int| 0 <= i < j < r@.len() ==> #[trigger] r@[i].0 != #[trigger] r@[j].0,
            forall|k: Key| #[trigger]
                self@.contains_key(k) ==> exists|i: int| 0 <= i < r@.len() && r@[i].0 == k,
    {
        proof {
            use_type_invariant(self);
        }
        let ghost m = self@;
        let mut out: Vec<(Key, Value)> = Vec::new();
        let mut rest = trie_map_clone(&self.inner);
        let mut next = trie_map_first(&rest);
        while next.is_some()
            invariant
                m == self@,
                m.dom().finite(),
                trie_entries(rest).submap_of(m),
                next.is_none() ==> trie_entries(rest).dom() == Set::<Key>::empty(),
                next matches Some(e) ==> trie_entries(rest).contains_pair(e.0, e.1),
                out@.len() + trie_entries(rest).len() == m.len(),
                forall|i: int| 0 <= i < out@.len() ==> m.contains_pair(#[trigger] out@[i].0, out@[i].1),
                forall|i: int| 0 <= i < out@.len() ==> !trie_entries(rest).contains_key(#[trigger] out@[i].0),
                forall|i: int, j: int| 0 <= i < j < out@.len() ==> #[trigger] out@[i].0 != #[trigger] out@[j].0,
                forall|k: Key| #[trigger]
                    m.contains_key(k) ==> trie_entries(rest).contains_key(k) || exists|i: int| 0 <= i < out@.len() && out@[i].0 == k,
            decreases trie_entries(rest).len(),
        {
            let (k, v) = next.unwrap();
            let ghost before = trie_entries(rest);
            proof {
                assert(before.dom().subset_of(m.dom()));
                lemma_set_subset_finite(m.dom(), before.dom());
            }
            let ghost old_out = out@;
            out.push((k, v));
            trie_map_remove_mut(&mut rest, &k);
            proof {
                assert forall|kk: Key| #[trigger] m.contains_key(kk) implies trie_entries(rest).contains_key(kk) || exists|i: int| 0 <= i < out@.len() && out@[i].0 == kk by {
                    if kk == k {
                        assert(out@[out@.len() - 1].0 == kk);
                    } else if !before.contains_key(kk) {
                        let i = choose|i: int| 0 <= i < old_out.len() && old_out[i].0 == kk;
                        assert(out@[i].0 == kk);
                    }
                }
            }
            next = trie_map_first(&rest);
        }
        proof {
            assert forall|k: Key| #[trigger] m.contains_key(k) implies exists|i: int| 0 <= i < out@.len() && out@[i].0 == k by {
                assert(!trie_entries(rest).contains_key(k));
            }
            assert(trie_entries(rest).dom() =~= Set::<Key>::empty());
        }
        out
    }

    /// The hash of the map: an order-independent combination of the hashes
    /// of its entries, folded with its size. Fails with `Unhashable` when a
    /// value of the map has no hash.
    pub fn hash(&self) -> (r: Result<i64, Error>)
        ensures
            all_values_hashable(self@) ==> (r matches Ok(h) && h == map_hash(self@)),
            !all_values_hashable(self@) ==> (r matches Err(e) && reports_unhashable_value(self@, e)),
    {
        proof {
            use_type_invariant(self);
        }
        let ghost m = self@;
        let ghost g = entry_contribution(m);
        let mut rest = trie_map_clone(&self.inner);
        let mut acc: u64 = 0;
        let mut next = trie_map_first(&rest);
        proof {
            lemma_xor_of_empty(g);
            assert(m.dom().difference(trie_entries(rest).dom()) =~= Set::<Key>::empty());
        }
        while next.is_some()
            invariant
                m == self@,
                m.dom().finite(),
                g == entry_contribution(m),
                trie_entries(rest).submap_of(m),
                next.is_none() ==> trie_entries(rest).dom() == Set::<Key>::empty(),
                next matches Some(e) ==> trie_entries(rest).contains_pair(e.0, e.1),
                acc == xor_of(m.dom().difference(trie_entries(rest).dom()), g),
                forall|k: Key| #[trigger]
                    m.contains_key(k) && !trie_entries(rest).contains_key(k) ==> m[k].hash.is_some(),
            decreases trie_entries(rest).len(),
        {
            let (k, v) = next.unwrap();
            let ghost before = trie_entries(rest);
            proof {
                assert(before.dom().subset_of(m.dom()));
                lemma_set_subset_finite(m.dom(), before.dom());
            }
            match v.hash {
                None => {
                    assert(m.contains_key(k) && m[k] == v);
                    return Err(Error::Unhashable(v));
                },
                Some(vh) => {
                    let mut hs: Vec<i64> = Vec::new();
                    hs.push(k.hash);
                    hs.push(vh);
                    let eh = hash_sequence(&hs);
                    acc = acc ^ hash_shuffle_bits(eh);
                    trie_map_remove_mut(&mut rest, &k);
                    proof {
                        let done = m.dom().difference(before.dom());
                        lemma_set_subset_finite(m.dom(), done);
                        lemma_xor_of_insert(done, g, k);
                        assert(m.dom().difference(trie_entries(rest).dom()) =~= done.insert(k));
                        assert(hs@ =~= seq![k.hash, vh]);
                    }
                    next = trie_map_first(&rest);
                },
            }
        }
        proof {
            assert(m.dom().difference(trie_entries(rest).dom()) =~= m.dom());
        }
        Ok(finish_hash(acc, trie_map_size(&self.inner)))
    }

    /// Whether the two maps hold the same entries: the same size, and for
    /// each key of one an equal value in the other.
    pub fn is_equal(&self, other: &HashTrieMap) -> (r: bool)
        ensures
            r == (self@ == other@),
    {
        proof {
            use_type_invariant(self);
            use_type_invariant(other);
        }
        let ghost m = self@;
        if trie_map_size(&self.inner) != trie_map_size(&other.inner) {
            return false;
        }
        let mut rest = trie_map_clone(&self.inner);
        let mut next = trie_map_first(&rest);
        while next.is_some()
            invariant
                m == self@,
                m.dom().finite(),
                other@.dom().finite(),
                m.len() == other@.len(),
                trie_entries(rest).submap_of(m),
                next.is_none() ==> trie_entries(rest).dom() == Set::<Key>::empty(),
                next matches Some(e) ==> trie_entries(rest).contains_pair(e.0, e.1),
                forall|k: Key| #[trigger]
                    m.contains_key(k) && !trie_entries(rest).contains_key(k) ==> other@.contains_pair(k, m[k]),
            decreases trie_entries(rest).len(),
        {
            let (k, v) = next.unwrap();
            let ghost before = trie_entries(rest);
            proof {
                assert(before.dom().subset_of(m.dom()));
                lemma_set_subset_finite(m.dom(), before.dom());
            }
            match trie_map_get(&other.inner, &k) {
                Some(w) => {
                    if w != v {
                        return false;
                    }
                },
                None => {
                    return false;
                },
            }
            trie_map_remove_mut(&mut rest, &k);
            next = trie_map_first(&rest);
        }
        proof {
            assert(m.dom().subset_of(other@.dom()));
            lemma_subset_equality(m.dom(), other@.dom());
            assert(m =~= other@);
        }
        true
    }

    /// Lays `src` over the map that this handle alone owns: each entry of
    /// `src` is inserted, replacing the value of an equal key.
    fn overlay_into(acc: &mut TrieMap, src: &HashTrieMap)
        ensures
            trie_entries(*final(acc)) == trie_entries(*old(acc)).union_prefer_right(src@),
    {
        proof {
            use_type_invariant(src);
        }
        let ghost base = trie_entries(*acc);
        let ghost m = src@;
        let mut rest = trie_map_clone(&src.inner);
        let mut next = trie_map_first(&rest);
        proof {
            assert(base.union_prefer_right(m.remove_keys(trie_entries(rest).dom())) =~= base);
        }
        while next.is_some()
            invariant
                m == src@,
                m.dom().finite(),
                trie_entries(rest).submap_of(m),
                next.is_none() ==> trie_entries(rest).dom() == Set::<Key>::empty(),
                next matches Some(e) ==> trie_entries(rest).contains_pair(e.0, e.1),
                trie_entries(*acc) == base.union_prefer_right(m.remove_keys(trie_entries(rest).dom())),
            decreases trie_entries(rest).len(),
        {
            let (k, v) = next.unwrap();
            let ghost before = trie_entries(rest);
            proof {
                assert(before.dom().subset_of(m.dom()));
                lemma_set_subset_finite(m.dom(), before.dom());
            }
            trie_map_insert_mut(acc, k, v);
            trie_map_remove_mut(&mut rest, &k);
            proof {
                assert(base.union_prefer_right(m.remove_keys(trie_entries(rest).dom())) =~= base.union_prefer_right(m.remove_keys(before.dom())).insert(k, v));
            }
            next = trie_map_first(&rest);
        }
        proof {
            assert(m.remove_keys(trie_entries(rest).dom()) =~= m);
        }
    }

    /// Another handle on the same map, sharing all of its nodes.
    pub fn share(&self) -> (r: HashTrieMap)
        ensures
            r@ == self@,
    {
        proof {
            use_type_invariant(self);
        }
        HashTrieMap { inner: trie_map_clone(&self.inner) }
    }

    /// One of the map's entries, or `None` for an empty map. Which entry is
    /// left to the trie.
    pub fn first_entry(&self) -> (r: Option<(Key, Value)>)
        ensures
            r.is_none() ==> self@ == Map::<Key, Value>::empty(),
            r matches Some(e) ==> self@.contains_pair(e.0, e.1),
    {
        let r = trie_map_first(&self.inner);
        proof {
            if r.is_none() {
                assert(self@ =~= Map::<Key, Value>::empty());
            }
        }
        r
    }

    /// A view of the map's keys, bound to the map as it is now.
    pub fn keys(&self) -> (r: KeysView)
        ensures
            r@ == self@.dom(),
    {
        KeysView::of(self.share())
    }

    /// A view of the map's values, bound to the map as it is now.
    pub fn values(&self) -> (r: ValuesView)
        ensures
            r@ == self@,
    {
        ValuesView::of(self.share())
    }

    /// A view of the map's entries, bound to the map as it is now.
    pub fn items(&self) -> (r: ItemsView)
        ensures
            r@ == self@,
    {
        ItemsView::of(self.share())
    }

    /// An iterator over the keys of a snapshot of the map.
    pub fn iter(&self) -> (r: KeysIterator)
        ensures
            r@ == self@,
    {
        KeysIterator::of(self.share())
    }

    /// A new map with the entries of each of `maps` laid over this one in
    /// turn, and then the keyword entries inserted in order: a later writer
    /// wins.
    pub fn update(&self, maps: &Vec<HashTrieMap>, kwds: &Vec<(Key, Value)>) -> (r: HashTrieMap)
        ensures
            r@ == with_entries(overlay(self@, views_of(maps@)), kwds@),
    {
        proof {
            use_type_invariant(self);
        }
        let mut acc = trie_map_clone(&self.inner);
        let mut i: usize = 0;
        while i < maps.len()
            invariant
                i <= maps@.len(),
                trie_entries(acc) == overlay(self@, views_of(maps@).subrange(0, i as int)),
                trie_entries(acc).dom().finite(),
            decreases maps@.len() - i,
        {
            let src = &maps[i];
            proof {
                use_type_invariant(src);
            }
            let ghost before = trie_entries(acc);
            Self::overlay_into(&mut acc, src);
            proof {
                assert(trie_entries(acc).dom() =~= before.dom().union(src@.dom()));
                assert(views_of(maps@).subrange(0, i + 1).drop_last() =~= views_of(maps@).subrange(0, i as int));
            }
            i = i + 1;
        }
        proof {
            assert(views_of(maps@).subrange(0, maps@.len() as int) =~= views_of(maps@));
        }
        let ghost base = trie_entries(acc);
        Self::insert_all(&mut acc, kwds);
        proof {
            lemma_with_entries_finite(base, kwds@);
        }
        HashTrieMap { inner: acc }
    }
}

/// The entries of each map of a sequence.
pub open spec fn views_of(ms: Seq<HashTrieMap>) -> Seq<Map<Key, Value>> {
    ms.map_values(|m: HashTrieMap| m@)
}

} // verus!
