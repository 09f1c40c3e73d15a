use vstd::prelude::*;

use crate::error::Error;
use crate::hashing::{all_hashable, hash_values, hashes_of, reports_first_unhashable, sequence_hash};
use crate::key::Value;
use crate::list::{same_values, List};

verus! {

/// The state of a rotation in progress: the rear list is being reversed
/// onto the end of the front list, a bounded number of steps at a time.
/// While it runs, the front list keeps serving dequeues from its own copy.
enum Rotation {
    /// No rotation runs.
    Idle,
    /// Reversing the front and the rear side by side.
    Reversing { removed: usize, front: List, front_rev: List, rear: List, rear_rev: List },
    /// Moving the still valid values of the reversed front onto the
    /// reversed rear.
    Appending { valid: usize, front_rev: List, acc: List },
}

/// The outcome of one step of a rotation.
enum Step {
    /// The rotation goes on from this state.
    Running(Rotation),
    /// The rotation is over; the list is the new front.
    Finished(List),
}

/// How a rotation relates to the front `f` and the rear `r` it started
/// from, once `d` values have been dequeued from the front since.
spec fn rotation_inv(rot: Rotation, f: Seq<Value>, r: Seq<Value>, d: nat) -> bool {
    match rot {
        Rotation::Idle => true,
        Rotation::Reversing { removed, front, front_rev, rear, rear_rev } => {
            let i = front_rev@.len() as int;
            &&& i <= f.len()
            &&& r.len() == f.len() + 1
            &&& f.len() <= usize::MAX
            &&& d <= f.len()
            &&& removed == d
            &&& front@ == f.skip(i)
            &&& front_rev@ == f.take(i).reverse()
            &&& rear@ == r.skip(i)
            &&& rear_rev@ == r.take(i).reverse()
        },
        Rotation::Appending { valid, front_rev, acc } => {
            let j = front_rev@.len() as int;
            &&& j <= f.len()
            &&& valid + d == j
            &&& front_rev@ == f.take(j).reverse()
            &&& acc@ == f.subrange(j, f.len() as int) + r.reverse()
        },
    }
}

/// How many steps the rotation still needs before it is over.
spec fn steps_left(rot: Rotation) -> nat {
    match rot {
        Rotation::Idle => 0,
        Rotation::Reversing { removed, front, front_rev, rear, rear_rev } => {
            let unreversed_rear = rear@.len();
            let still_valid = front_rev@.len() + front@.len() - removed;
            (unreversed_rear + still_valid + 1) as nat
        },
        Rotation::Appending { valid, front_rev, acc } => (valid + 1) as nat,
    }
}

/// What a step, or an invalidation, of a rotation gives.
spec fn step_done(s: Step, before: Rotation, f: Seq<Value>, r: Seq<Value>, d: nat) -> bool {
    match s {
        Step::Running(after) => {
            &&& rotation_inv(after, f, r, d)
            &&& !(after is Idle)
            &&& steps_left(after) + 1 == steps_left(before)
        },
        Step::Finished(l) => {
            &&& l@ == f.skip(d as int) + r.reverse()
            &&& steps_left(before) == 1
        },
    }
}

/// Does one step of a rotation.
fn step(rot: Rotation, f: Ghost<Seq<Value>>, r: Ghost<Seq<Value>>, d: Ghost<nat>) -> (s: Step)
    requires
        rotation_inv(rot, f@, r@, d@),
        !(rot is Idle),
    ensures
        step_done(s, rot, f@, r@, d@),
{
    match rot {
        Rotation::Idle => Step::Finished(List::new()),
        Rotation::Reversing { removed, front, front_rev, rear, rear_rev } => {
            let ghost i = front_rev@.len() as int;
            match front.first() {
                Ok(x) => {
                    let y = rear.first().unwrap();
                    let front2 = front.rest().unwrap();
                    let front_rev2 = front_rev.push_front(x);
                    let rear2 = rear.rest().unwrap();
                    let rear_rev2 = rear_rev.push_front(y);
                    proof {
                        assert(front2@ =~= f@.skip(i + 1));
                        assert(front_rev2@ =~= f@.take(i + 1).reverse());
                        assert(rear2@ =~= r@.skip(i + 1));
                        assert(rear_rev2@ =~= r@.take(i + 1).reverse());
                    }
                    Step::Running(
                        Rotation::Reversing {
                            removed,
                            front: front2,
                            front_rev: front_rev2,
                            rear: rear2,
                            rear_rev: rear_rev2,
                        },
                    )
                },
                Err(_) => {
                    let y = rear.first().unwrap();
                    let acc = rear_rev.push_front(y);
                    proof {
                        assert(acc@ =~= f@.subrange(i, f@.len() as int) + r@.reverse());
                    }
                    Step::Running(
                        Rotation::Appending { valid: front_rev.len() - removed, front_rev, acc },
                    )
                },
            }
        },
        Rotation::Appending { valid, front_rev, acc } => {
            let ghost j = front_rev@.len() as int;
            if valid == 0 {
                proof {
                    assert(acc@ =~= f@.skip(d@ as int) + r@.reverse());
                }
                Step::Finished(acc)
            } else {
                let x = front_rev.first().unwrap();
                let front_rev2 = front_rev.rest().unwrap();
                let acc2 = acc.push_front(x);
                proof {
                    assert(front_rev2@ =~= f@.take(j - 1).reverse());
                    assert(acc2@ =~= f@.subrange(j - 1, f@.len() as int) + r@.reverse());
                }
                Step::Running(Rotation::Appending { valid: (valid - 1) as usize, front_rev: front_rev2, acc: acc2 })
            }
        },
    }
}

/// Accounts in a rotation for one more value dequeued from the front.
fn invalidate(rot: Rotation, f: Ghost<Seq<Value>>, r: Ghost<Seq<Value>>, d: Ghost<nat>) -> (s: Step)
    requires
        rotation_inv(rot, f@, r@, d@),
        !(rot is Idle),
        d@ < f@.len(),
    ensures
        step_done(s, rot, f@, r@, (d@ + 1) as nat),
{
    match rot {
        Rotation::Idle => Step::Finished(List::new()),
        Rotation::Reversing { removed, front, front_rev, rear, rear_rev } => {
            Step::Running(Rotation::Reversing { removed: removed + 1, front, front_rev, rear, rear_rev })
        },
        Rotation::Appending { valid, front_rev, acc } => {
            if valid == 0 {
                let rest = acc.rest().unwrap();
                proof {
                    assert(rest@ =~= f@.skip(d@ + 1int) + r@.reverse());
                }
                Step::Finished(rest)
            } else {
                Step::Running(Rotation::Appending { valid: (valid - 1) as usize, front_rev, acc })
            }
        },
    }
}

/// Whether two rotations are at the same point over equal lists.
spec fn same_rotation(a: Rotation, b: Rotation) -> bool {
    match (a, b) {
        (Rotation::Idle, Rotation::Idle) => true,
        (
            Rotation::Reversing { removed: r1, front: f1, front_rev: fr1, rear: b1, rear_rev: br1 },
            Rotation::Reversing { removed: r2, front: f2, front_rev: fr2, rear: b2, rear_rev: br2 },
        ) => r1 == r2 && f1@ == f2@ && fr1@ == fr2@ && b1@ == b2@ && br1@ == br2@,
        (
            Rotation::Appending { valid: v1, front_rev: fr1, acc: a1 },
            Rotation::Appending { valid: v2, front_rev: fr2, acc: a2 },
        ) => v1 == v2 && fr1@ == fr2@ && a1@ == a2@,
        _ => false,
    }
}

/// Another handle on the same rotation, sharing all of its lists.
fn share_rotation(rot: &Rotation) -> (r: Rotation)
    ensures
        same_rotation(r, *rot),
{
    match rot {
        Rotation::Idle => Rotation::Idle,
        Rotation::Reversing { removed, front, front_rev, rear, rear_rev } => Rotation::Reversing {
            removed: *removed,
            front: front.share(),
            front_rev: front_rev.share(),
            rear: rear.share(),
            rear_rev: rear_rev.share(),
        },
        Rotation::Appending { valid, front_rev, acc } => Rotation::Appending {
            valid: *valid,
            front_rev: front_rev.share(),
            acc: acc.share(),
        },
    }
}

/// The parts of a queue, possibly between two operations: the values are
/// the front list, then the values that a running rotation will append to
/// it, then the rear list in reverse.
struct Parts {
    len_front: usize,
    front: List,
    rotation: Rotation,
    len_rear: usize,
    rear: List,
    /// The front and the rear that the running rotation started from, and
    /// the number of values dequeued from the front since.
    started_front: Ghost<Seq<Value>>,
    started_rear: Ghost<Seq<Value>>,
    removed: Ghost<nat>,
}

impl Parts {
    spec fn pending(&self) -> Seq<Value> {
        if self.rotation is Idle {
            Seq::empty()
        } else {
            self.started_rear@.reverse()
        }
    }

    spec fn values(&self) -> Seq<Value> {
        self.front@ + self.pending() + self.rear@.reverse()
    }

    /// The parts hold the queue's values and their lengths.
    spec fn consistent(&self) -> bool {
        &&& self.len_rear == self.rear@.len()
        &&& self.len_front == self.front@.len() + self.pending().len()
        &&& !(self.rotation is Idle) ==> {
            &&& rotation_inv(self.rotation, self.started_front@, self.started_rear@, self.removed@)
            &&& self.front@ == self.started_front@.skip(self.removed@ as int)
        }
    }

    /// A running rotation will be over before the front list runs out, and
    /// before the rear list outgrows the front; `slack` steps of it are
    /// still owed by the operation under way.
    spec fn on_schedule(&self, slack: nat) -> bool {
        !(self.rotation is Idle) ==> {
            &&& steps_left(self.rotation) <= 2 * self.front@.len() + slack
            &&& steps_left(self.rotation) + 2 * self.len_rear <= 2 * self.len_front + 2 * slack
        }
    }

    spec fn wf(&self) -> bool {
        &&& self.consistent()
        &&& self.len_rear <= self.len_front
        &&& self.len_front + self.len_rear <= usize::MAX
        &&& self.on_schedule(0)
    }
}

/// Runs up to two steps of the running rotation, and puts its result in
/// place as the front once it is over.
fn advance(p: Parts) -> (r: Parts)
    requires
        p.consistent(),
    ensures
        r.consistent(),
        r.values() == p.values(),
        r.len_front == p.len_front,
        r.len_rear == p.len_rear,
        r.rotation is Idle || (r.front@ == p.front@ && steps_left(r.rotation) + 2 == steps_left(p.rotation)),
{
    if matches!(p.rotation, Rotation::Idle) {
        return p;
    }
    let Parts { len_front, front, rotation, len_rear, rear, started_front, started_rear, removed } = p;
    match step(rotation, started_front, started_rear, removed) {
        Step::Finished(new_front) => {
            proof {
                assert(new_front@ + Seq::<Value>::empty() + rear@.reverse() =~= p.values());
            }
            Parts { len_front, front: new_front, rotation: Rotation::Idle, len_rear, rear, started_front, started_rear, removed }
        },
        Step::Running(once) => {
            match step(once, started_front, started_rear, removed) {
                Step::Finished(new_front) => {
                    proof {
                        assert(new_front@ + Seq::<Value>::empty() + rear@.reverse() =~= p.values());
                    }
                    Parts { len_front, front: new_front, rotation: Rotation::Idle, len_rear, rear, started_front, started_rear, removed }
                },
                Step::Running(twice) => {
                    Parts { len_front, front, rotation: twice, len_rear, rear, started_front, started_rear, removed }
                },
            }
        },
    }
}

/// Restores the balance of a queue after one operation: starts a rotation
/// once the rear outgrows the front, and advances a running one.
fn rebalance(p: Parts) -> (r: Parts)
    requires
        p.consistent(),
        p.len_rear <= p.len_front + 1,
        p.on_schedule(1),
        p.len_front + p.len_rear <= usize::MAX,
    ensures
        r.wf(),
        r.values() == p.values(),
{
    if p.len_rear <= p.len_front {
        let r = advance(p);
        r
    } else {
        let Parts { len_front, front, rotation, len_rear, rear, started_front, started_rear, removed } = p;
        let ghost f = front@;
        let ghost rr = rear@;
        let started = Parts {
            len_front: len_front + len_rear,
            front: front.share(),
            rotation: Rotation::Reversing { removed: 0, front, front_rev: List::new(), rear, rear_rev: List::new() },
            len_rear: 0,
            rear: List::new(),
            started_front: Ghost(f),
            started_rear: Ghost(rr),
            removed: Ghost(0nat),
        };
        proof {
            assert(f.skip(0) =~= f);
            assert(f.take(0).reverse() =~= Seq::<Value>::empty());
            assert(rr.skip(0) =~= rr);
            assert(rr.take(0).reverse() =~= Seq::<Value>::empty());
            assert(started.values() =~= p.values());
        }
        advance(started)
    }
}

/// A persistent first-in first-out queue whose every operation does a
/// bounded amount of work, also when an old handle is used again: when the
/// rear list outgrows the front one, it is reversed onto the front's end a
/// few steps per operation rather than all at once. Its model lists the
/// values from the front to the back.
pub struct Queue {
    parts: Parts,
}

impl View for Queue {
    type V = Seq<Value>;

    closed spec fn view(&self) -> Seq<Value> {
        self.parts.values()
    }
}

impl Queue {
    #[verifier::type_invariant]
    spec fn inv(self) -> bool {
        self.parts.wf()
    }

    /// The empty queue.
    pub fn new() -> (r: Queue)
        ensures
            r@ == Seq::<Value>::empty(),
    {
        let parts = Parts {
            len_front: 0,
            front: List::new(),
            rotation: Rotation::Idle,
            len_rear: 0,
            rear: List::new(),
            started_front: Ghost(Seq::empty()),
            started_rear: Ghost(Seq::empty()),
            removed: Ghost(0nat),
        };
        proof {
            assert(parts.values() =~= Seq::<Value>::empty());
        }
        Queue { parts }
    }

    /// The queue that enqueuing the values in order gives.
    pub fn from_values(values: &Vec<Value>) -> (r: Queue)
        ensures
            r@ == values@,
    {
        let mut q = Queue::new();
        let mut i: usize = 0;
        while i < values.len()
            invariant
                i <= values@.len(),
                q@ == values@.subrange(0, i as int),
            decreases values@.len() - i,
        {
            q = q.enqueue(values[i]);
            proof {
                assert(values@.subrange(0, i + 1) =~= values@.subrange(0, i as int).push(values@[i as int]));
            }
            i = i + 1;
        }
        proof {
            assert(values@.subrange(0, values@.len() as int) =~= values@);
        }
        q
    }

    /// Another handle on the same queue, sharing all of its lists.
    pub fn share(&self) -> (r: Queue)
        ensures
            r@ == self@,
    {
        proof {
            use_type_invariant(self);
        }
        let p = &self.parts;
        let parts = Parts {
            len_front: p.len_front,
            front: p.front.share(),
            rotation: share_rotation(&p.rotation),
            len_rear: p.len_rear,
            rear: p.rear.share(),
            started_front: p.started_front,
            started_rear: p.started_rear,
            removed: p.removed,
        };
        proof {
            assert(parts.values() =~= p.values());
        }
        Queue { parts }
    }

    /// The number of values.
    pub fn len(&self) -> (r: usize)
        ensures
            r == self@.len(),
    {
        proof {
            use_type_invariant(self);
        }
        self.parts.len_front + self.parts.len_rear
    }

    /// Whether the queue holds no values.
    pub fn is_empty(&self) -> (r: bool)
        ensures
            r == (self@.len() == 0),
    {
        proof {
            use_type_invariant(self);
        }
        self.parts.len_front == 0
    }

    /// The front value; `Empty` for the empty queue.
    pub fn peek(&self) -> (r: Result<Value, Error>)
        ensures
            self@.len() > 0 ==> (r matches Ok(v) && v == self@[0]),
            self@.len() == 0 ==> (r matches Err(e) && e == Error::Empty),
    {
        proof {
            use_type_invariant(self);
            self.lemma_front_serves();
        }
        self.parts.front.first()
    }

    /// A queue has values exactly when its front list has, and then the
    /// front list starts with them.
    proof fn lemma_front_serves(&self)
        requires
            self.parts.wf(),
        ensures
            (self@.len() > 0) == (self.parts.front@.len() > 0),
            self@.len() > 0 ==> self@[0] == self.parts.front@[0],
    {
        let p = self.parts;
        if !(p.rotation is Idle) {
            assert(steps_left(p.rotation) >= 1);
        } else if p.front@.len() == 0 {
            assert(p.rear@.len() == 0);
        }
    }

    /// The queue without its front value; `Empty` for the empty queue. Does
    /// at most two steps of a running rotation.
    pub fn dequeue(&self) -> (r: Result<Queue, Error>)
        ensures
            self@.len() > 0 ==> (r matches Ok(q) && q@ == self@.drop_first()),
            self@.len() == 0 ==> (r matches Err(e) && e == Error::Empty),
    {
        proof {
            use_type_invariant(self);
            self.lemma_front_serves();
        }
        let p = &self.parts;
        if p.len_front == 0 {
            return Err(Error::Empty);
        }
        let rest = p.front.rest().unwrap();
        let ghost d = p.removed@;
        let (front, rotation) = if matches!(p.rotation, Rotation::Idle) {
            (rest, Rotation::Idle)
        } else {
            proof {
                assert(p.started_front@.skip(d as int).len() > 0);
            }
            match invalidate(share_rotation(&p.rotation), p.started_front, p.started_rear, p.removed) {
                Step::Finished(new_front) => (new_front, Rotation::Idle),
                Step::Running(rot) => (rest, rot),
            }
        };
        let next = Parts {
            len_front: p.len_front - 1,
            front,
            rotation,
            len_rear: p.len_rear,
            rear: p.rear.share(),
            started_front: p.started_front,
            started_rear: p.started_rear,
            removed: Ghost((d + 1) as nat),
        };
        proof {
            if !(rotation is Idle) {
                assert(p.started_front@.skip(d + 1int) =~= p.front@.drop_first());
            }
            assert(next.values() =~= p.values().drop_first());
        }
        Ok(Queue { parts: rebalance(next) })
    }

    /// A new queue with the value at the back. Does at most two steps of a
    /// running rotation.
    pub fn enqueue(&self, value: Value) -> (r: Queue)
        requires
            self@.len() < usize::MAX,
        ensures
            r@ == self@.push(value),
    {
        proof {
            use_type_invariant(self);
        }
        let p = &self.parts;
        let next = Parts {
            len_front: p.len_front,
            front: p.front.share(),
            rotation: share_rotation(&p.rotation),
            len_rear: p.len_rear + 1,
            rear: p.rear.push_front(value),
            started_front: p.started_front,
            started_rear: p.started_rear,
            removed: p.removed,
        };
        proof {
            assert((seq![value] + p.rear@).reverse() =~= p.rear@.reverse().push(value));
            assert(next.values() =~= p.values().push(value));
        }
        Queue { parts: rebalance(next) }
    }

    /// The values from the front to the back.
    pub fn values(&self) -> (r: Vec<Value>)
        ensures
            r@ == self@,
    {
        let mut out: Vec<Value> = Vec::new();
        let mut rest = self.share();
        let n = self.len();
        let mut i: usize = 0;
        while i < n
            invariant
                n == self@.len(),
                i <= n,
                out@.len() == i,
                out@ + rest@ == self@,
            decreases n - i,
        {
            let ghost before = rest@;
            let v = rest.peek().unwrap();
            out.push(v);
            rest = rest.dequeue().unwrap();
            proof {
                assert(out@ + rest@ =~= self@) by {
                    assert(before =~= seq![v] + before.drop_first());
                }
            }
            i = i + 1;
        }
        proof {
            assert(out@ =~= self@);
        }
        out
    }

    /// Whether the two queues hold equal values in the same order.
    pub fn is_equal(&self, other: &Queue) -> (r: bool)
        ensures
            r == (self@ == other@),
    {
        if self.len() != other.len() {
            return false;
        }
        same_values(&self.values(), &other.values())
    }

    /// The order-sensitive hash of the queue: that of its values' hashes,
    /// front to back. Fails on the first value that has no hash.
    pub fn hash(&self) -> (r: Result<u64, Error>)
        ensures
            all_hashable(self@) ==> (r matches Ok(h) && h == sequence_hash(hashes_of(self@))),
            !all_hashable(self@) ==> (r matches Err(e) && reports_first_unhashable(self@, e)),
    {
        hash_values(&self.values())
    }

    /// An iterator over a snapshot of the queue, front to back.
    pub fn iter(&self) -> (r: QueueIterator)
        ensures
            r@ == self@,
    {
        QueueIterator { remaining: self.share() }
    }
}

/// A one-pass iterator over the values of a queue, front to back.
pub struct QueueIterator {
    remaining: Queue,
}

impl View for QueueIterator {
    type V = Seq<Value>;

    /// The values not yet yielded.
    closed spec fn view(&self) -> Seq<Value> {
        self.remaining@
    }
}

impl QueueIterator {
    /// Yields the next value; `None` once none remain.
    pub fn next(&mut self) -> (r: Option<Value>)
        ensures
            old(self)@.len() == 0 ==> r.is_none() && final(self)@ == old(self)@,
            old(self)@.len() > 0 ==> r == Some(old(self)@[0]) && final(self)@ == old(self)@.drop_first(),
    {
        match self.remaining.peek() {
            Ok(v) => {
                match self.remaining.dequeue() {
                    Ok(q) => {
                        self.remaining = q;
                    },
                    Err(_) => {},
                }
                Some(v)
            },
            Err(_) => None,
        }
    }
}

} // verus!
