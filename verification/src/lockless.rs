//! A bounded first-in-first-out buffer of envelopes on a lock-free array
//! queue, held exclusively by its owner.

use crate::envelope::LogEnvelope;
use crossbeam::queue::ArrayQueue;
use vstd::prelude::*;

verus! {

/// The largest capacity that a buffer may be made with: the queue sets up all
/// its slots at once, a slot for an envelope takes less than 128 bytes, and
/// the slots together may take no more than `isize::MAX` bytes.
pub const MAX_BUFFER_CAPACITY: usize = usize::MAX / 256;

/// `crossbeam::queue::ArrayQueue`, a bounded queue whose inside Verus does
/// not see.
#[verifier::external_type_specification]
#[verifier::external_body]
#[verifier::reject_recursive_types(T)]
pub struct ExArrayQueue<T>(ArrayQueue<T>);

/// The envelopes that a queue holds, oldest first.
pub uninterp spec fn queue_items(queue: ArrayQueue<LogEnvelope>) -> Seq<LogEnvelope>;

/// The capacity that a queue was made with.
pub uninterp spec fn queue_capacity(queue: ArrayQueue<LogEnvelope>) -> nat;

/// Calls `ArrayQueue::new`, which panics on a capacity of zero, on one too
/// large to round up to a power of two, and on one whose slots together
/// exceed `isize::MAX` bytes. Believed, not proved: the new queue is empty
/// and has the capacity asked for.
#[verifier::external_body]
fn queue_new(capacity: usize) -> (queue: ArrayQueue<LogEnvelope>)
    requires
        0 < capacity <= MAX_BUFFER_CAPACITY,
    ensures
        queue_items(queue) == Seq::<LogEnvelope>::empty(),
        queue_capacity(queue) == capacity,
{
    ArrayQueue::new(capacity)
}

/// Calls `ArrayQueue::push_mut`. Believed, not proved: below capacity the
/// item goes to the back; at capacity the queue stays as it is and the item
/// comes back.
#[verifier::external_body]
fn queue_push(
    queue: &mut ArrayQueue<LogEnvelope>,
    item: LogEnvelope,
) -> (pushed: Result<(), LogEnvelope>)
    ensures
        queue_capacity(*final(queue)) == queue_capacity(*old(queue)),
        queue_items(*old(queue)).len() < queue_capacity(*old(queue)) ==> pushed is Ok
            && queue_items(*final(queue)) == queue_items(*old(queue)).push(item),
        queue_items(*old(queue)).len() >= queue_capacity(*old(queue)) ==> pushed is Err
            && pushed->Err_0 == item && queue_items(*final(queue)) == queue_items(*old(queue)),
{
    queue.push_mut(item)
}

/// Calls `ArrayQueue::force_push`. Believed, not proved: below capacity the
/// item goes to the back and nothing comes out; at capacity the oldest item
/// leaves, is returned, and the new one goes to the back.
#[verifier::external_body]
fn queue_force_push(
    queue: &mut ArrayQueue<LogEnvelope>,
    item: LogEnvelope,
) -> (displaced: Option<LogEnvelope>)
    requires
        queue_capacity(*old(queue)) > 0,
    ensures
        queue_capacity(*final(queue)) == queue_capacity(*old(queue)),
        queue_items(*old(queue)).len() < queue_capacity(*old(queue)) ==> displaced is None
            && queue_items(*final(queue)) == queue_items(*old(queue)).push(item),
        queue_items(*old(queue)).len() >= queue_capacity(*old(queue)) ==> displaced == Some(
            queue_items(*old(queue))[0],
        ) && queue_items(*final(queue)) == queue_items(*old(queue)).skip(1).push(item),
{
    queue.force_push(item)
}

/// Calls `ArrayQueue::pop_mut`. Believed, not proved: the oldest item leaves
/// and is returned; an empty queue stays empty and gives `None`.
#[verifier::external_body]
fn queue_pop(queue: &mut ArrayQueue<LogEnvelope>) -> (item: Option<LogEnvelope>)
    ensures
        queue_capacity(*final(queue)) == queue_capacity(*old(queue)),
        queue_items(*old(queue)).len() == 0 ==> item is None && queue_items(*final(queue))
            == queue_items(*old(queue)),
        queue_items(*old(queue)).len() > 0 ==> item == Some(queue_items(*old(queue))[0])
            && queue_items(*final(queue)) == queue_items(*old(queue)).skip(1),
{
    queue.pop_mut()
}

/// Calls `ArrayQueue::len`. Believed, not proved: it counts the items held.
#[verifier::external_body]
fn queue_len(queue: &ArrayQueue<LogEnvelope>) -> (len: usize)
    ensures
        len == queue_items(*queue).len(),
{
    queue.len()
}

/// Calls `ArrayQueue::capacity`. Believed, not proved: it is the capacity
/// that the queue was made with.
#[verifier::external_body]
fn queue_capacity_of(queue: &ArrayQueue<LogEnvelope>) -> (capacity: usize)
    ensures
        capacity == queue_capacity(*queue),
{
    queue.capacity()
}

/// A bounded buffer of envelopes, first in, first out.
pub struct LocklessBuffer {
    queue: ArrayQueue<LogEnvelope>,
}

impl View for LocklessBuffer {
    type V = Seq<LogEnvelope>;

    closed spec fn view(&self) -> Seq<LogEnvelope> {
        queue_items(self.queue)
    }
}

impl LocklessBuffer {
    /// The capacity that the buffer was made with.
    pub closed spec fn spec_capacity(&self) -> nat {
        queue_capacity(self.queue)
    }

    /// Validity: the capacity is positive and within the limit, and the
    /// buffer holds no more than its capacity.
    pub open spec fn wf(&self) -> bool {
        &&& 0 < self.spec_capacity() <= MAX_BUFFER_CAPACITY
        &&& self@.len() <= self.spec_capacity()
    }

    /// An empty buffer of the given capacity.
    pub fn new(capacity: usize) -> (buffer: Self)
        requires
            0 < capacity <= MAX_BUFFER_CAPACITY,
        ensures
            buffer.wf(),
            buffer@ == Seq::<LogEnvelope>::empty(),
            buffer.spec_capacity() == capacity,
    {
        LocklessBuffer { queue: queue_new(capacity) }
    }

    /// Appends `item` if there is room; a full buffer stays as it is and
    /// hands the item back.
    pub fn push(&mut self, item: LogEnvelope) -> (pushed: Result<(), LogEnvelope>)
        requires
            old(self).wf(),
        ensures
            final(self).wf(),
            final(self).spec_capacity() == old(self).spec_capacity(),
            old(self)@.len() < old(self).spec_capacity() ==> pushed is Ok && final(self)@
                == old(self)@.push(item),
            old(self)@.len() == old(self).spec_capacity() ==> pushed is Err && pushed->Err_0
                == item && final(self)@ == old(self)@,
    {
        queue_push(&mut self.queue, item)
    }

    /// Appends `item`; a full buffer gives up its oldest item for it and
    /// returns that one.
    pub fn force_push(&mut self, item: LogEnvelope) -> (displaced: Option<LogEnvelope>)
        requires
            old(self).wf(),
        ensures
            final(self).wf(),
            final(self).spec_capacity() == old(self).spec_capacity(),
            old(self)@.len() < old(self).spec_capacity() ==> displaced is None && final(self)@
                == old(self)@.push(item),
            old(self)@.len() == old(self).spec_capacity() ==> displaced == Some(old(self)@[0])
                && final(self)@ == old(self)@.skip(1).push(item),
    {
        queue_force_push(&mut self.queue, item)
    }

    /// Removes and returns the oldest item; `None` where the buffer is empty.
    pub fn pop(&mut self) -> (item: Option<LogEnvelope>)
        requires
            old(self).wf(),
        ensures
            final(self).wf(),
            final(self).spec_capacity() == old(self).spec_capacity(),
            old(self)@.len() == 0 ==> item is None && final(self)@ == old(self)@,
            old(self)@.len() > 0 ==> item == Some(old(self)@[0]) && final(self)@
                == old(self)@.skip(1),
    {
        queue_pop(&mut self.queue)
    }

    /// The number of items held.
    pub fn len(&self) -> (len: usize)
        ensures
            len == self@.len(),
    {
        queue_len(&self.queue)
    }

    /// The capacity that the buffer was made with.
    pub fn capacity(&self) -> (capacity: usize)
        ensures
            capacity == self.spec_capacity(),
    {
        queue_capacity_of(&self.queue)
    }
}

} // verus!
