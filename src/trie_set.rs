use vstd::prelude::*;

use rpds::HashTrieSetSync;

use crate::key::Key;

verus! {

/// An rpds hash-trie set of keys, shared between threads. Verus sees it
/// only through `trie_elements` and the functions below.
#[verifier::external_body]
pub struct TrieSet {
    inner: HashTrieSetSync<Key>,
}

/// The keys that an rpds hash-trie set holds.
pub uninterp spec fn trie_elements(s: TrieSet) -> Set<Key>;

/// Relies on rpds::HashTrieSet::new_sync: a set with no elements.
#[verifier::external_body]
pub(crate) fn trie_set_new() -> (r: TrieSet)
    ensures
        trie_elements(r) == Set::<Key>::empty(),
{
    TrieSet { inner: HashTrieSetSync::new_sync() }
}

/// Relies on rpds::HashTrieSet::clone: another handle on the same elements.
#[verifier::external_body]
pub(crate) fn trie_set_clone(s: &TrieSet) -> (r: TrieSet)
    ensures
        trie_elements(r) == trie_elements(*s),
{
    TrieSet { inner: s.inner.clone() }
}

/// Relies on rpds::HashTrieSet::contains: whether the key is an element.
#[verifier::external_body]
pub(crate) fn trie_set_contains(s: &TrieSet, k: &Key) -> (r: bool)
    ensures
        r == trie_elements(*s).contains(*k),
{
    s.inner.contains(k)
}

/// Relies on rpds::HashTrieSet::insert: a new set with the key added; the
/// receiver is left as it was.
#[verifier::external_body]
pub(crate) fn trie_set_insert(s: &TrieSet, k: Key) -> (r: TrieSet)
    ensures
        trie_elements(r) == trie_elements(*s).insert(k),
{
    TrieSet { inner: s.inner.insert(k) }
}

/// Relies on rpds::HashTrieSet::insert_mut: adds the key in place.
#[verifier::external_body]
pub(crate) fn trie_set_insert_mut(s: &mut TrieSet, k: Key)
    ensures
        trie_elements(*final(s)) == trie_elements(*old(s)).insert(k),
{
    s.inner.insert_mut(k)
}

/// Relies on rpds::HashTrieSet::remove: a new set without the key; the
/// receiver is left as it was.
#[verifier::external_body]
pub(crate) fn trie_set_remove(s: &TrieSet, k: &Key) -> (r: TrieSet)
    ensures
        trie_elements(r) == trie_elements(*s).remove(*k),
{
    TrieSet { inner: s.inner.remove(k) }
}

/// Relies on rpds::HashTrieSet::remove_mut: removes the key in place and
/// tells whether it was there.
#[verifier::external_body]
pub(crate) fn trie_set_remove_mut(s: &mut TrieSet, k: &Key) -> (r: bool)
    ensures
        r == trie_elements(*old(s)).contains(*k),
        trie_elements(*final(s)) == trie_elements(*old(s)).remove(*k),
{
    s.inner.remove_mut(k)
}

/// Relies on rpds::HashTrieSet::size: the number of elements, kept with
/// the set rather than counted.
#[verifier::external_body]
pub(crate) fn trie_set_size(s: &TrieSet) -> (r: usize)
    ensures
        r == trie_elements(*s).len(),
{
    s.inner.size()
}

/// Relies on rpds::HashTrieSet::iter: its first item is an element of the
/// set, and there is none only for an empty set.
#[verifier::external_body]
pub(crate) fn trie_set_first(s: &TrieSet) -> (r: Option<Key>)
    ensures
        r.is_none() ==> trie_elements(*s) == Set::<Key>::empty(),
        r matches Some(k) ==> trie_elements(*s).contains(k),
{
    s.inner.iter().next().copied()
}

} // verus!
