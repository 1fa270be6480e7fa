//! The bounded inter-stage queue: a fixed-capacity FIFO whose push fails
//! (returning the rejected item) when full and whose pop fails when empty,
//! never blocking. The storage is `crossbeam`'s `ArrayQueue`; its behaviour
//! is stated here as trusted contracts, and the public `BoundedQueue` is
//! verified against them.
//!
//! Queue items are `(payload, ticket)` pairs: the stage payload together
//! with the response ticket that correlates the item with its caller.

use vstd::prelude::*;

verus! {

/// The largest capacity a queue may be built with: far below the point
/// where `ArrayQueue::new` would panic, and small enough that sums of a
/// few queue lengths always fit in `usize`.
pub const MAX_CAPACITY: usize = 0x1000_0000;

#[verifier::external_type_specification]
#[verifier::external_body]
#[verifier::reject_recursive_types(T)]
pub struct ExArrayQueue<T>(crossbeam::queue::ArrayQueue<T>);

/// The items an `ArrayQueue` holds, front first, as (payload view, ticket).
pub uninterp spec fn queue_contents(q: crossbeam::queue::ArrayQueue<(String, u64)>) -> Seq<
    (Seq<char>, u64),
>;

/// The fixed capacity an `ArrayQueue` was constructed with.
pub uninterp spec fn queue_bound(q: crossbeam::queue::ArrayQueue<(String, u64)>) -> nat;

/// Relies on `crossbeam::queue::ArrayQueue::new`: builds an empty queue of
/// the given capacity. It panics on capacity zero and on capacities too
/// large for its index encoding, so those stay out of the precondition.
#[verifier::external_body]
fn array_queue_new(cap: usize) -> (q: crossbeam::queue::ArrayQueue<(String, u64)>)
    requires
        1 <= cap <= MAX_CAPACITY,
    ensures
        queue_contents(q) == Seq::<(Seq<char>, u64)>::empty(),
        queue_bound(q) == cap as nat,
{
    crossbeam::queue::ArrayQueue::new(cap)
}

/// Relies on `crossbeam::queue::ArrayQueue::push`: appends the item at the
/// back when the queue is below capacity, and returns the item back as an
/// error, leaving the queue unchanged, when it is full.
#[verifier::external_body]
fn array_queue_push(
    q: &mut crossbeam::queue::ArrayQueue<(String, u64)>,
    item: (String, u64),
) -> (r: Result<(), (String, u64)>)
    ensures
        queue_bound(*final(q)) == queue_bound(*old(q)),
        queue_contents(*old(q)).len() < queue_bound(*old(q)) ==> {
            &&& r is Ok
            &&& queue_contents(*final(q)) == queue_contents(*old(q)).push((item.0@, item.1))
        },
        queue_contents(*old(q)).len() >= queue_bound(*old(q)) ==> {
            &&& (r matches Err(v) && v == item)
            &&& queue_contents(*final(q)) == queue_contents(*old(q))
        },
{
    q.push(item)
}

/// Relies on `crossbeam::queue::ArrayQueue::pop`: removes and returns the
/// front item, or returns `None`, leaving the queue unchanged, when empty.
#[verifier::external_body]
fn array_queue_pop(q: &mut crossbeam::queue::ArrayQueue<(String, u64)>) -> (r: Option<
    (String, u64),
>)
    ensures
        queue_bound(*final(q)) == queue_bound(*old(q)),
        queue_contents(*old(q)).len() == 0 ==> {
            &&& r is None
            &&& queue_contents(*final(q)) == queue_contents(*old(q))
        },
        queue_contents(*old(q)).len() > 0 ==> {
            &&& (r matches Some(v) && v.0@ == queue_contents(*old(q))[0].0 && v.1
                == queue_contents(*old(q))[0].1)
            &&& queue_contents(*final(q)) == queue_contents(*old(q)).subrange(
                1,
                queue_contents(*old(q)).len() as int,
            )
        },
{
    q.pop()
}

/// A fixed-capacity FIFO of `(payload, ticket)` work items with
/// non-blocking push and pop. `len() <= capacity` always holds; a push to a
/// full queue reports failure and hands the rejected item back unchanged.
pub struct BoundedQueue {
    inner: crossbeam::queue::ArrayQueue<(String, u64)>,
    cap: usize,
    count: usize,
}

impl BoundedQueue {
    /// The queued items, front first, as (payload view, ticket).
    pub closed spec fn contents(self) -> Seq<(Seq<char>, u64)> {
        queue_contents(self.inner)
    }

    /// The capacity the queue was constructed with.
    pub closed spec fn bound(self) -> nat {
        self.cap as nat
    }

    /// Well-formedness: the cached length and capacity agree with the
    /// underlying queue, and the queue never exceeds its capacity.
    pub closed spec fn wf(self) -> bool {
        &&& queue_bound(self.inner) == self.cap as nat
        &&& self.count == self.contents().len()
        &&& self.contents().len() <= self.cap
        &&& 1 <= self.cap <= MAX_CAPACITY
    }

    /// Build an empty queue of the given capacity.
    pub fn new(capacity: usize) -> (q: BoundedQueue)
        requires
            1 <= capacity <= MAX_CAPACITY,
        ensures
            q.wf(),
            q.contents() == Seq::<(Seq<char>, u64)>::empty(),
            q.bound() == capacity as nat,
    {
        BoundedQueue { inner: array_queue_new(capacity), cap: capacity, count: 0 }
    }

    /// The fixed capacity.
    pub fn capacity(&self) -> (c: usize)
        ensures
            c as nat == self.bound(),
    {
        self.cap
    }

    /// How many items are queued now.
    pub fn len(&self) -> (n: usize)
        requires
            self.wf(),
        ensures
            n == self.contents().len(),
            n <= self.bound(),
    {
        self.count
    }

    /// Non-blocking push: succeeds and appends the item at the back iff the
    /// queue is below capacity; on a full queue it fails and returns the
    /// rejected item back unchanged.
    pub fn try_push(&mut self, payload: String, ticket: u64) -> (r: Result<(), (String, u64)>)
        requires
            old(self).wf(),
        ensures
            final(self).wf(),
            final(self).bound() == old(self).bound(),
            old(self).contents().len() <= old(self).bound(),
            old(self).contents().len() < old(self).bound() ==> {
                &&& r is Ok
                &&& final(self).contents() == old(self).contents().push((payload@, ticket))
            },
            old(self).contents().len() == old(self).bound() ==> {
                &&& (r matches Err(v) && v.0@ == payload@ && v.1 == ticket)
                &&& final(self).contents() == old(self).contents()
            },
    {
        let r = array_queue_push(&mut self.inner, (payload, ticket));
        if r.is_ok() {
            self.count = self.count + 1;
        }
        r
    }

    /// Non-blocking pop: returns and removes the front item iff the queue
    /// is non-empty; on an empty queue it fails and changes nothing.
    pub fn try_pop(&mut self) -> (r: Option<(String, u64)>)
        requires
            old(self).wf(),
        ensures
            final(self).wf(),
            final(self).bound() == old(self).bound(),
            old(self).contents().len() <= old(self).bound(),
            old(self).contents().len() == 0 ==> {
                &&& r is None
                &&& final(self).contents() == old(self).contents()
            },
            old(self).contents().len() > 0 ==> {
                &&& (r matches Some(v) && v.0@ == old(self).contents()[0].0 && v.1
                    == old(self).contents()[0].1)
                &&& final(self).contents() == old(self).contents().subrange(
                    1,
                    old(self).contents().len() as int,
                )
            },
    {
        let r = array_queue_pop(&mut self.inner);
        if r.is_some() {
            self.count = self.count - 1;
        }
        r
    }
}

} // verus!

