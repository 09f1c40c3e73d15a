use vstd::prelude::*;

use crate::key::{Key, Value};

verus! {

/// What an operation of this library can fail with. No failure leaves a
/// partial update behind: the receiver's handle is unchanged either way.
#[derive(Clone, Copy, Debug, PartialEq, Eq, Structural)]
pub enum Error {
    /// A lookup or a strict removal named a key that is absent.
    KeyNotFound(Key),
    /// A first element was asked of an empty list, stack or queue.
    Empty,
    /// A value without a hash was offered where a hash is needed.
    Unhashable(Value),
}

} // verus!
