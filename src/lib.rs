//! Persistent collections over host values: a hash-trie map and set, a
//! singly linked list, a stack and a queue. Every update returns a new
//! handle and leaves every handle observed before it unchanged.
use vstd::prelude::*;

pub mod error;
pub mod hashing;
pub mod key;
pub mod laws;
pub mod list;
pub mod map;
pub mod queue;
pub mod set;
pub mod stack;
pub mod views;
mod trie_map;
mod trie_set;
mod shared_seq;

pub use error::Error;
pub use key::{Key, Value};
pub use list::{List, ListIterator};
pub use map::HashTrieMap;
pub use queue::{Queue, QueueIterator};
pub use set::{HashTrieSet, SetIterator};
pub use stack::{Stack, StackIterator};
pub use views::{ItemsIterator, ItemsView, KeysIterator, KeysView, ValuesIterator, ValuesView};

