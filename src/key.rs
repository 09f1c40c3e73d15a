use vstd::prelude::*;

use crate::error::Error;

verus! {

/// A host value as the collections see it. `id` names the host's equality
/// class of the value: two host values that compare equal carry the same
/// `id`, and then the same `hash`. `hash` is the hash that the host computed
/// once for the value, or `None` where the host value is not hashable.
#[derive(Clone, Copy, Debug, PartialEq, Eq, Structural)]
pub struct Value {
    pub id: u64,
    pub hash: Option<i64>,
}

/// A hashable host value, usable as a key of a map or an element of a set.
/// The hash is cached at construction; equality is that of the host's
/// equality class (`id`), and keys that are equal have equal hashes.
#[derive(Clone, Copy, Debug, PartialEq, Eq, Hash, Structural)]
pub struct Key {
    pub id: u64,
    pub hash: i64,
}

impl Value {
    /// The key for this value, when the value is hashable.
    pub open spec fn as_key(self) -> Option<Key> {
        match self.hash {
            Some(h) => Some(Key { id: self.id, hash: h }),
            None => None,
        }
    }
}

impl Key {
    /// Builds the key of a host value, caching its hash; fails on a value
    /// that has no hash.
    pub fn extract(value: Value) -> (r: Result<Key, Error>)
        ensures
            value.hash.is_some() ==> (r matches Ok(k) && k == value.as_key().unwrap()),
            value.hash.is_none() ==> (r matches Err(e) && e == Error::Unhashable(value)),
    {
        match value.hash {
            Some(h) => Ok(Key { id: value.id, hash: h }),
            None => Err(Error::Unhashable(value)),
        }
    }

    /// The host value that this key was built from.
    pub open spec fn spec_to_value(self) -> Value {
        Value { id: self.id, hash: Some(self.hash) }
    }

    /// The host value that this key was built from.
    pub fn to_value(&self) -> (r: Value)
        ensures
            r == self.spec_to_value(),
    {
        Value { id: self.id, hash: Some(self.hash) }
    }
}

} // verus!
