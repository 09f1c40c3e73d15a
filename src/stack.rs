use vstd::prelude::*;

use crate::error::Error;
use crate::hashing::{all_hashable, hash_values, hashes_of, reports_first_unhashable, sequence_hash};
use crate::key::Value;
use crate::list::same_values;
use crate::shared_seq::{
    shared_stack_clone, shared_stack_new, shared_stack_peek, shared_stack_pop, shared_stack_push,
    shared_stack_push_mut, shared_stack_size, stack_elements, SharedStack,
};

verus! {

/// A persistent stack. Its model lists the values from the top down, which
/// is also the order in which it is iterated, compared and hashed.
pub struct Stack {
    inner: SharedStack,
}

impl View for Stack {
    type V = Seq<Value>;

    closed spec fn view(&self) -> Seq<Value> {
        stack_elements(self.inner)
    }
}

impl Stack {
    /// The empty stack.
    pub fn new() -> (r: Stack)
        ensures
            r@ == Seq::<Value>::empty(),
    {
        Stack { inner: shared_stack_new() }
    }

    /// The stack that pushing the values in order gives: the last one ends
    /// on top.
    pub fn from_values(values: &Vec<Value>) -> (r: Stack)
        ensures
            r@ == values@.reverse(),
    {
        let mut inner = shared_stack_new();
        let mut i: usize = 0;
        proof {
            assert(stack_elements(inner) =~= values@.subrange(0, 0).reverse());
        }
        while i < values.len()
            invariant
                i <= values@.len(),
                stack_elements(inner) == values@.subrange(0, i as int).reverse(),
            decreases values@.len() - i,
        {
            shared_stack_push_mut(&mut inner, values[i]);
            proof {
                assert(stack_elements(inner) =~= values@.subrange(0, i + 1).reverse());
            }
            i = i + 1;
        }
        proof {
            assert(values@.subrange(0, values@.len() as int) =~= values@);
        }
        Stack { inner }
    }

    /// Another handle on the same stack, sharing all of its nodes.
    pub fn share(&self) -> (r: Stack)
        ensures
            r@ == self@,
    {
        Stack { inner: shared_stack_clone(&self.inner) }
    }

    /// The number of values.
    pub fn len(&self) -> (r: usize)
        ensures
            r == self@.len(),
    {
        shared_stack_size(&self.inner)
    }

    /// The top value; `Empty` for the empty stack.
    pub fn peek(&self) -> (r: Result<Value, Error>)
        ensures
            self@.len() > 0 ==> (r matches Ok(v) && v == self@[0]),
            self@.len() == 0 ==> (r matches Err(e) && e == Error::Empty),
    {
        match shared_stack_peek(&self.inner) {
            Some(v) => Ok(v),
            None => Err(Error::Empty),
        }
    }

    /// The stack without its top value; `Empty` for the empty stack.
    pub fn pop(&self) -> (r: Result<Stack, Error>)
        ensures
            self@.len() > 0 ==> (r matches Ok(s) && s@ == self@.drop_first()),
            self@.len() == 0 ==> (r matches Err(e) && e == Error::Empty),
    {
        match shared_stack_pop(&self.inner) {
            Some(inner) => Ok(Stack { inner }),
            None => Err(Error::Empty),
        }
    }

    /// A new stack with the value on top of this one, whose nodes it shares.
    pub fn push(&self, value: Value) -> (r: Stack)
        ensures
            r@ == seq![value] + self@,
    {
        Stack { inner: shared_stack_push(&self.inner, value) }
    }

    /// The values from the top down.
    pub fn values(&self) -> (r: Vec<Value>)
        ensures
            r@ == self@,
    {
        let mut out: Vec<Value> = Vec::new();
        let mut rest = shared_stack_clone(&self.inner);
        let n = shared_stack_size(&self.inner);
        let mut i: usize = 0;
        while i < n
            invariant
                n == self@.len(),
                i <= n,
                out@.len() == i,
                out@ + stack_elements(rest) == self@,
            decreases n - i,
        {
            let ghost before = stack_elements(rest);
            let v = shared_stack_peek(&rest).unwrap();
            out.push(v);
            rest = shared_stack_pop(&rest).unwrap();
            proof {
                assert(out@ + stack_elements(rest) =~= self@) by {
                    assert(before =~= seq![v] + before.drop_first());
                }
            }
            i = i + 1;
        }
        proof {
            assert(out@ =~= self@);
        }
        out
    }

    /// Whether the two stacks hold equal values in the same order.
    pub fn is_equal(&self, other: &Stack) -> (r: bool)
        ensures
            r == (self@ == other@),
    {
        if shared_stack_size(&self.inner) != shared_stack_size(&other.inner) {
            return false;
        }
        same_values(&self.values(), &other.values())
    }

    /// The order-sensitive hash of the stack: that of its values' hashes,
    /// from the top down. Fails on the first value that has no hash.
    pub fn hash(&self) -> (r: Result<u64, Error>)
        ensures
            all_hashable(self@) ==> (r matches Ok(h) && h == sequence_hash(hashes_of(self@))),
            !all_hashable(self@) ==> (r matches Err(e) && reports_first_unhashable(self@, e)),
    {
        hash_values(&self.values())
    }

    /// An iterator over a snapshot of the stack, from the top down.
    pub fn iter(&self) -> (r: StackIterator)
        ensures
            r@ == self@,
    {
        StackIterator { remaining: self.share() }
    }
}

/// A one-pass iterator over the values of a stack, from the top down.
pub struct StackIterator {
    remaining: Stack,
}

impl View for StackIterator {
    type V = Seq<Value>;

    /// The values not yet yielded.
    closed spec fn view(&self) -> Seq<Value> {
        self.remaining@
    }
}

impl StackIterator {
    /// Yields the next value; `None` once none remain.
    pub fn next(&mut self) -> (r: Option<Value>)
        ensures
            old(self)@.len() == 0 ==> r.is_none() && final(self)@ == old(self)@,
            old(self)@.len() > 0 ==> r == Some(old(self)@[0]) && final(self)@ == old(self)@.drop_first(),
    {
        match self.remaining.peek() {
            Ok(v) => {
                match self.remaining.pop() {
                    Ok(s) => {
                        self.remaining = s;
                    },
                    Err(_) => {},
                }
                Some(v)
            },
            Err(_) => None,
        }
    }
}

} // verus!
