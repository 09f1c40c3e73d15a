use vstd::prelude::*;

use rpds::{ListSync, StackSync};

use crate::key::Value;

verus! {

/// An rpds singly linked list of values, shared between threads. Verus sees
/// it only through `list_elements` and the functions below.
#[verifier::external_body]
pub struct SharedList {
    inner: ListSync<Value>,
}

/// The values of an rpds list, first to last.
pub uninterp spec fn list_elements(l: SharedList) -> Seq<Value>;

/// Relies on rpds::List::new_sync: a list with no elements.
#[verifier::external_body]
pub(crate) fn shared_list_new() -> (r: SharedList)
    ensures
        list_elements(r) == Seq::<Value>::empty(),
{
    SharedList { inner: ListSync::new_sync() }
}

/// Relies on rpds::List::clone: another handle on the same nodes.
#[verifier::external_body]
pub(crate) fn shared_list_clone(l: &SharedList) -> (r: SharedList)
    ensures
        list_elements(r) == list_elements(*l),
{
    SharedList { inner: l.inner.clone() }
}

/// Relies on rpds::List::first: the first value, `None` for an empty list.
#[verifier::external_body]
pub(crate) fn shared_list_first(l: &SharedList) -> (r: Option<Value>)
    ensures
        list_elements(*l).len() == 0 ==> r.is_none(),
        list_elements(*l).len() > 0 ==> r == Some(list_elements(*l)[0]),
{
    l.inner.first().copied()
}

/// Relies on rpds::List::drop_first: the list after its first node, which
/// shares every node of it; `None` for an empty list.
#[verifier::external_body]
pub(crate) fn shared_list_drop_first(l: &SharedList) -> (r: Option<SharedList>)
    ensures
        list_elements(*l).len() == 0 ==> r.is_none(),
        list_elements(*l).len() > 0 ==> r.is_some() && list_elements(r.unwrap()) == list_elements(*l).drop_first(),
{
    l.inner.drop_first().map(|inner| SharedList { inner })
}

/// Relies on rpds::List::push_front: a new list of one new node in front of
/// the receiver's nodes.
#[verifier::external_body]
pub(crate) fn shared_list_push_front(l: &SharedList, v: Value) -> (r: SharedList)
    ensures
        list_elements(r) == seq![v] + list_elements(*l),
{
    SharedList { inner: l.inner.push_front(v) }
}

/// Relies on rpds::List::push_front_mut: puts the value in front, in place.
#[verifier::external_body]
pub(crate) fn shared_list_push_front_mut(l: &mut SharedList, v: Value)
    ensures
        list_elements(*final(l)) == seq![v] + list_elements(*old(l)),
{
    l.inner.push_front_mut(v)
}

/// Relies on rpds::List::reverse: a new list of the values in reverse order.
#[verifier::external_body]
pub(crate) fn shared_list_reverse(l: &SharedList) -> (r: SharedList)
    ensures
        list_elements(r) == list_elements(*l).reverse(),
{
    SharedList { inner: l.inner.reverse() }
}

/// Relies on rpds::List::len: the number of values, kept with the list.
#[verifier::external_body]
pub(crate) fn shared_list_len(l: &SharedList) -> (r: usize)
    ensures
        r == list_elements(*l).len(),
{
    l.inner.len()
}

/// An rpds stack of values, shared between threads. Verus sees it only
/// through `stack_elements` and the functions below.
#[verifier::external_body]
pub struct SharedStack {
    inner: StackSync<Value>,
}

/// The values of an rpds stack, from the top down.
pub uninterp spec fn stack_elements(s: SharedStack) -> Seq<Value>;

/// Relies on rpds::Stack::new_sync: a stack with no elements.
#[verifier::external_body]
pub(crate) fn shared_stack_new() -> (r: SharedStack)
    ensures
        stack_elements(r) == Seq::<Value>::empty(),
{
    SharedStack { inner: StackSync::new_sync() }
}

/// Relies on rpds::Stack::clone: another handle on the same nodes.
#[verifier::external_body]
pub(crate) fn shared_stack_clone(s: &SharedStack) -> (r: SharedStack)
    ensures
        stack_elements(r) == stack_elements(*s),
{
    SharedStack { inner: s.inner.clone() }
}

/// Relies on rpds::Stack::peek: the top value, `None` for an empty stack.
#[verifier::external_body]
pub(crate) fn shared_stack_peek(s: &SharedStack) -> (r: Option<Value>)
    ensures
        stack_elements(*s).len() == 0 ==> r.is_none(),
        stack_elements(*s).len() > 0 ==> r == Some(stack_elements(*s)[0]),
{
    s.inner.peek().copied()
}

/// Relies on rpds::Stack::pop: the stack without its top value, `None` for
/// an empty stack.
#[verifier::external_body]
pub(crate) fn shared_stack_pop(s: &SharedStack) -> (r: Option<SharedStack>)
    ensures
        stack_elements(*s).len() == 0 ==> r.is_none(),
        stack_elements(*s).len() > 0 ==> r.is_some() && stack_elements(r.unwrap()) == stack_elements(*s).drop_first(),
{
    s.inner.pop().map(|inner| SharedStack { inner })
}

/// Relies on rpds::Stack::push: a new stack with the value on top.
#[verifier::external_body]
pub(crate) fn shared_stack_push(s: &SharedStack, v: Value) -> (r: SharedStack)
    ensures
        stack_elements(r) == seq![v] + stack_elements(*s),
{
    SharedStack { inner: s.inner.push(v) }
}

/// Relies on rpds::Stack::push_mut: puts the value on top, in place.
#[verifier::external_body]
pub(crate) fn shared_stack_push_mut(s: &mut SharedStack, v: Value)
    ensures
        stack_elements(*final(s)) == seq![v] + stack_elements(*old(s)),
{
    s.inner.push_mut(v)
}

/// Relies on rpds::Stack::size: the number of values.
#[verifier::external_body]
pub(crate) fn shared_stack_size(s: &SharedStack) -> (r: usize)
    ensures
        r == stack_elements(*s).len(),
{
    s.inner.size()
}

} // verus!
