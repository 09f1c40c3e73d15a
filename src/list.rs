use vstd::prelude::*;

use crate::error::Error;
use crate::hashing::{all_hashable, hash_values, hashes_of, reports_first_unhashable, sequence_hash};
use crate::key::Value;
use crate::shared_seq::{
    list_elements, shared_list_clone, shared_list_drop_first, shared_list_first, shared_list_len,
    shared_list_new, shared_list_push_front, shared_list_push_front_mut, shared_list_reverse,
    SharedList,
};

verus! {

/// A persistent singly linked list. Pushing in front shares the whole old
/// list as the new list's tail.
pub struct List {
    inner: SharedList,
}

impl View for List {
    type V = Seq<Value>;

    closed spec fn view(&self) -> Seq<Value> {
        list_elements(self.inner)
    }
}

impl List {
    /// The empty list.
    pub fn new() -> (r: List)
        ensures
            r@ == Seq::<Value>::empty(),
    {
        List { inner: shared_list_new() }
    }

    /// The list of the given values, in their order. The values are pushed
    /// in front one by one, from the last to the first.
    pub fn from_values(values: &Vec<Value>) -> (r: List)
        ensures
            r@ == values@,
    {
        let mut inner = shared_list_new();
        let mut i: usize = values.len();
        proof {
            assert(list_elements(inner) =~= values@.subrange(values@.len() as int, values@.len() as int));
        }
        while i > 0
            invariant
                i <= values@.len(),
                list_elements(inner) == values@.subrange(i as int, values@.len() as int),
            decreases i,
        {
            i = i - 1;
            shared_list_push_front_mut(&mut inner, values[i]);
            proof {
                assert(list_elements(inner) =~= values@.subrange(i as int, values@.len() as int));
            }
        }
        proof {
            assert(list_elements(inner) =~= values@);
        }
        List { inner }
    }

    /// Another handle on the same list, sharing all of its nodes.
    pub fn share(&self) -> (r: List)
        ensures
            r@ == self@,
    {
        List { inner: shared_list_clone(&self.inner) }
    }

    /// The number of values, kept with the list rather than counted.
    pub fn len(&self) -> (r: usize)
        ensures
            r == self@.len(),
    {
        shared_list_len(&self.inner)
    }

    /// The first value; `Empty` for the empty list.
    pub fn first(&self) -> (r: Result<Value, Error>)
        ensures
            self@.len() > 0 ==> (r matches Ok(v) && v == self@[0]),
            self@.len() == 0 ==> (r matches Err(e) && e == Error::Empty),
    {
        match shared_list_first(&self.inner) {
            Some(v) => Ok(v),
            None => Err(Error::Empty),
        }
    }

    /// The list after its first value, sharing all of its nodes; `Empty`
    /// for the empty list.
    pub fn rest(&self) -> (r: Result<List, Error>)
        ensures
            self@.len() > 0 ==> (r matches Ok(l) && l@ == self@.drop_first()),
            self@.len() == 0 ==> (r matches Err(e) && e == Error::Empty),
    {
        match shared_list_drop_first(&self.inner) {
            Some(inner) => Ok(List { inner }),
            None => Err(Error::Empty),
        }
    }

    /// A new list with the value in front of this one, whose nodes it
    /// shares.
    pub fn push_front(&self, value: Value) -> (r: List)
        ensures
            r@ == seq![value] + self@,
    {
        List { inner: shared_list_push_front(&self.inner, value) }
    }

    /// The list after its first value; `Empty` for the empty list.
    pub fn drop_first(&self) -> (r: Result<List, Error>)
        ensures
            self@.len() > 0 ==> (r matches Ok(l) && l@ == self@.drop_first()),
            self@.len() == 0 ==> (r matches Err(e) && e == Error::Empty),
    {
        match shared_list_drop_first(&self.inner) {
            Some(inner) => Ok(List { inner }),
            None => Err(Error::Empty),
        }
    }

    /// A new list of the values in reverse order.
    pub fn reverse(&self) -> (r: List)
        ensures
            r@ == self@.reverse(),
    {
        List { inner: shared_list_reverse(&self.inner) }
    }

    /// The values, first to last.
    pub fn values(&self) -> (r: Vec<Value>)
        ensures
            r@ == self@,
    {
        let mut out: Vec<Value> = Vec::new();
        let mut rest = shared_list_clone(&self.inner);
        let n = shared_list_len(&self.inner);
        let mut i: usize = 0;
        while i < n
            invariant
                n == self@.len(),
                i <= n,
                out@.len() == i,
                out@ + list_elements(rest) == self@,
            decreases n - i,
        {
            let ghost before = list_elements(rest);
            let v = shared_list_first(&rest).unwrap();
            out.push(v);
            rest = shared_list_drop_first(&rest).unwrap();
            proof {
                assert(out@ + list_elements(rest) =~= self@) by {
                    assert(before =~= seq![v] + before.drop_first());
                }
            }
            i = i + 1;
        }
        proof {
            assert(out@ =~= self@);
        }
        out
    }

    /// Whether the two lists hold equal values in the same order.
    pub fn is_equal(&self, other: &List) -> (r: bool)
        ensures
            r == (self@ == other@),
    {
        if shared_list_len(&self.inner) != shared_list_len(&other.inner) {
            return false;
        }
        same_values(&self.values(), &other.values())
    }

    /// The order-sensitive hash of the list: that of its values' hashes,
    /// first to last. Fails on the first value that has no hash.
    pub fn hash(&self) -> (r: Result<u64, Error>)
        ensures
            all_hashable(self@) ==> (r matches Ok(h) && h == sequence_hash(hashes_of(self@))),
            !all_hashable(self@) ==> (r matches Err(e) && reports_first_unhashable(self@, e)),
    {
        hash_values(&self.values())
    }

    /// An iterator over a snapshot of the list; the list itself is
    /// untouched.
    pub fn iter(&self) -> (r: ListIterator)
        ensures
            r@ == self@,
    {
        ListIterator { remaining: self.share() }
    }
}

/// A one-pass iterator over the values of a list, first to last.
pub struct ListIterator {
    remaining: List,
}

impl View for ListIterator {
    type V = Seq<Value>;

    /// The values not yet yielded.
    closed spec fn view(&self) -> Seq<Value> {
        self.remaining@
    }
}

impl ListIterator {
    /// Yields the next value; `None` once none remain.
    pub fn next(&mut self) -> (r: Option<Value>)
        ensures
            old(self)@.len() == 0 ==> r.is_none() && final(self)@ == old(self)@,
            old(self)@.len() > 0 ==> r == Some(old(self)@[0]) && final(self)@ == old(self)@.drop_first(),
    {
        match self.remaining.first() {
            Ok(v) => {
                match self.remaining.rest() {
                    Ok(l) => {
                        self.remaining = l;
                    },
                    Err(_) => {},
                }
                Some(v)
            },
            Err(_) => None,
        }
    }
}

/// Whether the two sequences of values are equal, element by element.
pub(crate) fn same_values(a: &Vec<Value>, b: &Vec<Value>) -> (r: bool)
    ensures
        r == (a@ == b@),
{
    if a.len() != b.len() {
        return false;
    }
    let mut i: usize = 0;
    while i < a.len()
        invariant
            a@.len() == b@.len(),
            i <= a@.len(),
            forall|j: int| 0 <= j < i ==> a@[j] == b@[j],
        decreases a@.len() - i,
    {
        if a[i] != b[i] {
            return false;
        }
        i = i + 1;
    }
    proof {
        assert(a@ =~= b@);
    }
    true
}

} // verus!
