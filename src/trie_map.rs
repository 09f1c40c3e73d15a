use vstd::prelude::*;

use rpds::HashTrieMapSync;

use crate::key::{Key, Value};

verus! {

/// An rpds hash-trie map from keys to values, shared between threads.
/// Verus sees it only through `trie_entries` and the functions below.
#[verifier::external_body]
pub struct TrieMap {
    inner: HashTrieMapSync<Key, Value>,
}

/// The entries that an rpds hash-trie map holds.
pub uninterp spec fn trie_entries(m: TrieMap) -> Map<Key, Value>;

/// Relies on rpds::HashTrieMap::new_sync: a map with no entries.
#[verifier::external_body]
pub(crate) fn trie_map_new() -> (r: TrieMap)
    ensures
        trie_entries(r).dom() == Set::<Key>::empty(),
{
    TrieMap { inner: HashTrieMapSync::new_sync() }
}

/// Relies on rpds::HashTrieMap::clone: another handle on the same entries.
#[verifier::external_body]
pub(crate) fn trie_map_clone(m: &TrieMap) -> (r: TrieMap)
    ensures
        trie_entries(r) == trie_entries(*m),
{
    TrieMap { inner: m.inner.clone() }
}

/// Relies on rpds::HashTrieMap::get: the value stored under the key, if any.
#[verifier::external_body]
pub(crate) fn trie_map_get(m: &TrieMap, k: &Key) -> (r: Option<Value>)
    ensures
        trie_entries(*m).contains_key(*k) ==> r == Some(trie_entries(*m)[*k]),
        !trie_entries(*m).contains_key(*k) ==> r.is_none(),
{
    m.inner.get(k).copied()
}

/// Relies on rpds::HashTrieMap::contains_key: whether the key has an entry.
#[verifier::external_body]
pub(crate) fn trie_map_contains_key(m: &TrieMap, k: &Key) -> (r: bool)
    ensures
        r == trie_entries(*m).contains_key(*k),
{
    m.inner.contains_key(k)
}

/// Relies on rpds::HashTrieMap::insert: a new map with the entry added or
/// its value replaced; the receiver is left as it was.
#[verifier::external_body]
pub(crate) fn trie_map_insert(m: &TrieMap, k: Key, v: Value) -> (r:
    TrieMap)
    ensures
        trie_entries(r) == trie_entries(*m).insert(k, v),
{
    TrieMap { inner: m.inner.insert(k, v) }
}

/// Relies on rpds::HashTrieMap::insert_mut: adds the entry or replaces its
/// value in place, copying only nodes that other handles share.
#[verifier::external_body]
pub(crate) fn trie_map_insert_mut(m: &mut TrieMap, k: Key, v: Value)
    ensures
        trie_entries(*final(m)) == trie_entries(*old(m)).insert(k, v),
{
    m.inner.insert_mut(k, v)
}

/// Relies on rpds::HashTrieMap::remove: a new map without the key; the
/// receiver is left as it was.
#[verifier::external_body]
pub(crate) fn trie_map_remove(m: &TrieMap, k: &Key) -> (r: TrieMap)
    ensures
        trie_entries(r) == trie_entries(*m).remove(*k),
{
    TrieMap { inner: m.inner.remove(k) }
}

/// Relies on rpds::HashTrieMap::remove_mut: removes the key in place and
/// tells whether it was there.
#[verifier::external_body]
pub(crate) fn trie_map_remove_mut(m: &mut TrieMap, k: &Key) -> (r: bool)
    ensures
        r == trie_entries(*old(m)).contains_key(*k),
        trie_entries(*final(m)) == trie_entries(*old(m)).remove(*k),
{
    m.inner.remove_mut(k)
}

/// Relies on rpds::HashTrieMap::size: the number of entries, kept with the
/// map rather than counted.
#[verifier::external_body]
pub(crate) fn trie_map_size(m: &TrieMap) -> (r: usize)
    ensures
        r == trie_entries(*m).len(),
{
    m.inner.size()
}

/// Relies on rpds::HashTrieMap::iter: its first item is one of the map's
/// entries, and there is none only for an empty map.
#[verifier::external_body]
pub(crate) fn trie_map_first(m: &TrieMap) -> (r: Option<(Key, Value)>)
    ensures
        r.is_none() ==> trie_entries(*m).dom() == Set::<Key>::empty(),
        r matches Some(e) ==> trie_entries(*m).contains_pair(e.0, e.1),
{
    m.inner.iter().next().map(|(k, v)| (*k, *v))
}

} // verus!
