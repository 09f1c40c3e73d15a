//! Laws that hold of every collection of this library, stated over the
//! models that the collections' own contracts use.
use vstd::prelude::*;

use crate::error::Error;
use crate::key::{Key, Value};
use crate::map::{lookup, map_hash, with_entries};
use crate::set::symmetric_difference_of;

verus! {

/// A traversal that reaches each key of a set once, and nothing else,
/// counts exactly the set's size: the size that a map or a set keeps is the
/// number of distinct keys that a full traversal reaches.
pub proof fn law_traversal_counts_size(keys: Set<Key>, traversal: Seq<Key>)
    requires
        traversal.no_duplicates(),
        traversal.to_set() == keys,
    ensures
        traversal.len() == keys.len(),
{
    traversal.unique_seq_to_set();
}

/// Looking a key up right after inserting it gives the inserted value.
pub proof fn law_insert_then_get(m: Map<Key, Value>, k: Key, v: Value)
    ensures
        lookup(m.insert(k, v), k) == Ok::<Value, Error>(v),
{
}

/// Looking a key up right after removing it reports it as not found.
pub proof fn law_remove_then_get(m: Map<Key, Value>, k: Key)
    ensures
        lookup(m.remove(k), k) == Err::<Value, Error>(Error::KeyNotFound(k)),
{
}

/// Inserting a key that is already bound changes its value, never the size.
pub proof fn law_reinsert_keeps_size(m: Map<Key, Value>, k: Key, v: Value)
    requires
        m.dom().finite(),
        m.contains_key(k),
    ensures
        m.insert(k, v).len() == m.len(),
{
    assert(m.insert(k, v).dom() =~= m.dom());
}

/// Inserting one key leaves the lookup of every other key as it was.
pub proof fn law_insert_keeps_other_keys(m: Map<Key, Value>, k: Key, v: Value, other: Key)
    requires
        other != k,
    ensures
        lookup(m.insert(k, v), other) == lookup(m, other),
{
}

/// With distinct keys, the map that inserting a sequence of entries gives
/// binds exactly the entries of the sequence.
proof fn lemma_distinct_entries(s: Seq<(Key, Value)>)
    requires
        forall|i: int, j: int| 0 <= i < j < s.len() ==> #[trigger] s[i].0 != #[trigger] s[j].0,
    ensures
        forall|k: Key| #[trigger]
            with_entries(Map::empty(), s).contains_key(k) ==> s.contains(
                (k, with_entries(Map::empty(), s)[k]),
            ),
        forall|k: Key, v: Value| s.contains((k, v)) ==> #[trigger] with_entries(
            Map::empty(),
            s,
        ).contains_pair(k, v),
    decreases s.len(),
{
    if s.len() > 0 {
        let init = s.drop_last();
        let last = s.last();
        assert forall|i: int, j: int| 0 <= i < j < init.len() implies #[trigger] init[i].0
            != #[trigger] init[j].0 by {
            assert(s[i] == init[i] && s[j] == init[j]);
        }
        lemma_distinct_entries(init);
        let m = with_entries(Map::empty(), s);
        let mi = with_entries(Map::empty(), init);
        assert(m == mi.insert(last.0, last.1));
        assert forall|k: Key| #[trigger] m.contains_key(k) implies s.contains((k, m[k])) by {
            if k == last.0 {
                assert(s[s.len() - 1] == (k, m[k]));
            } else {
                assert(init.contains((k, mi[k])));
                let i = choose|i: int| 0 <= i < init.len() && init[i] == (k, mi[k]);
                assert(s[i] == (k, m[k]));
            }
        }
        assert forall|k: Key, v: Value| s.contains((k, v)) implies #[trigger] m.contains_pair(
            k,
            v,
        ) by {
            let i = choose|i: int| 0 <= i < s.len() && s[i] == (k, v);
            if i < s.len() - 1 {
                assert(init[i] == (k, v));
                assert(init.contains((k, v)));
                assert(mi.contains_pair(k, v));
                assert(s[i].0 != s[s.len() - 1].0);
            }
        }
    }
}

/// Two maps built from the same entries, with distinct keys, inserted in
/// different orders, are equal and hash equal.
pub proof fn law_insertion_order_is_invisible(a: Seq<(Key, Value)>, b: Seq<(Key, Value)>)
    requires
        forall|i: int, j: int| 0 <= i < j < a.len() ==> #[trigger] a[i].0 != #[trigger] a[j].0,
        forall|i: int, j: int| 0 <= i < j < b.len() ==> #[trigger] b[i].0 != #[trigger] b[j].0,
        forall|e: (Key, Value)| #[trigger] a.contains(e) <==> b.contains(e),
    ensures
        with_entries(Map::empty(), a) == with_entries(Map::empty(), b),
        map_hash(with_entries(Map::empty(), a)) == map_hash(with_entries(Map::empty(), b)),
{
    lemma_distinct_entries(a);
    lemma_distinct_entries(b);
    let ma = with_entries(Map::empty(), a);
    let mb = with_entries(Map::empty(), b);
    assert forall|k: Key| #[trigger] ma.contains_key(k) implies mb.contains_pair(k, ma[k]) by {
        assert(a.contains((k, ma[k])));
        assert(b.contains((k, ma[k])));
    }
    assert forall|k: Key| #[trigger] mb.contains_key(k) implies ma.contains_key(k) by {
        assert(b.contains((k, mb[k])));
        assert(a.contains((k, mb[k])));
        assert(ma.contains_pair(k, mb[k]));
    }
    assert(ma =~= mb);
}

/// The union of a set with itself is the set.
pub proof fn law_union_with_itself(a: Set<Key>)
    ensures
        a.union(a) == a,
{
    assert(a.union(a) =~= a);
}

/// The intersection of a set with the empty set is empty.
pub proof fn law_intersection_with_empty(a: Set<Key>)
    ensures
        a.intersect(Set::empty()) == Set::<Key>::empty(),
{
    assert(a.intersect(Set::empty()) =~= Set::<Key>::empty());
}

/// A set minus itself is empty.
pub proof fn law_difference_with_itself(a: Set<Key>)
    ensures
        a.difference(a) == Set::<Key>::empty(),
{
    assert(a.difference(a) =~= Set::<Key>::empty());
}

/// The symmetric difference of a set with itself is empty.
pub proof fn law_symmetric_difference_with_itself(a: Set<Key>)
    ensures
        symmetric_difference_of(a, a) == Set::<Key>::empty(),
{
    assert(symmetric_difference_of(a, a) =~= Set::<Key>::empty());
}

/// The sizes of the union and the intersection of two sets add up to the
/// sizes of the two sets.
pub proof fn law_union_and_intersection_sizes(a: Set<Key>, b: Set<Key>)
    requires
        a.finite(),
        b.finite(),
    ensures
        a.union(b).len() + a.intersect(b).len() == a.len() + b.len(),
{
    vstd::set_lib::lemma_set_intersect_union_lens(a, b);
}

/// Enqueuing at the back never changes the front of a queue that has one,
/// and dequeuing after an enqueue is enqueuing after a dequeue: values leave
/// in the order in which they came.
pub proof fn law_queue_first_in_first_out(q: Seq<Value>, v: Value)
    requires
        q.len() > 0,
    ensures
        q.push(v)[0] == q[0],
        q.push(v).drop_first() == q.drop_first().push(v),
{
    assert(q.push(v).drop_first() =~= q.drop_first().push(v));
}

/// Pushing a value in front of a list and then taking the first value gives
/// that value, and the rest is the list as it was.
pub proof fn law_push_front_then_rest(l: Seq<Value>, v: Value)
    ensures
        (seq![v] + l)[0] == v,
        (seq![v] + l).drop_first() == l,
{
    assert((seq![v] + l).drop_first() =~= l);
}

/// Reversing a list twice gives the list back.
pub proof fn law_reverse_twice(l: Seq<Value>)
    ensures
        l.reverse().reverse() == l,
{
    assert(l.reverse().reverse() =~= l);
}

} // verus!
