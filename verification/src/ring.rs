//! One ring: a bounded queue of envelopes, its overflow disciplines and its
//! counters.

use crate::envelope::{envelope_views, LogEnvelope, LogEnvelopeView};
use crate::lockless::{LocklessBuffer, MAX_BUFFER_CAPACITY};
use vstd::prelude::*;

verus! {

/// What a ring does with an arrival that finds it full.
#[derive(Debug, Clone, Copy, PartialEq, Eq)]
pub enum OverflowMode {
    /// The oldest resident envelope gives way to the new one.
    Overwrite,
    /// The new envelope is discarded.
    DropNewest,
    /// The producer waits a bounded time for room; if none comes, the new
    /// envelope is discarded.
    BlockWithTimeout,
}

/// The mode that a byte of the mode register stands for: 1 and 2 are
/// `DropNewest` and `BlockWithTimeout`, every other byte is `Overwrite`.
pub open spec fn mode_of_byte(val: u8) -> OverflowMode {
    if val == 1 {
        OverflowMode::DropNewest
    } else if val == 2 {
        OverflowMode::BlockWithTimeout
    } else {
        OverflowMode::Overwrite
    }
}

/// The byte that stands for a mode.
pub open spec fn byte_of_mode(mode: OverflowMode) -> u8 {
    match mode {
        OverflowMode::Overwrite => 0,
        OverflowMode::DropNewest => 1,
        OverflowMode::BlockWithTimeout => 2,
    }
}

impl OverflowMode {
    /// Reads a mode from a byte; a byte that names no mode reads as
    /// `Overwrite`.
    pub fn from_u8(val: u8) -> (mode: Self)
        ensures
            mode == mode_of_byte(val),
    {
        if val == 1 {
            OverflowMode::DropNewest
        } else if val == 2 {
            OverflowMode::BlockWithTimeout
        } else {
            OverflowMode::Overwrite
        }
    }

    /// The byte that stands for the mode.
    pub fn as_u8(&self) -> (val: u8)
        ensures
            val == byte_of_mode(*self),
            mode_of_byte(val) == *self,
    {
        match self {
            OverflowMode::Overwrite => 0,
            OverflowMode::DropNewest => 1,
            OverflowMode::BlockWithTimeout => 2,
        }
    }
}

/// Why an envelope was not taken in, or was taken in at a cost.
#[derive(Debug, Clone, Copy, PartialEq, Eq)]
pub enum EmitError {
    /// A ring index out of range, or a byte that names no overflow mode.
    InvalidArgument,
    /// The ring was full and one envelope was dropped for it: the oldest
    /// resident under `Overwrite`, the arrival under `DropNewest`.
    RingFull,
    /// The ring was still full when the bounded wait was over; the arrival
    /// was dropped.
    RingTimeout,
    /// The ring is closed.
    RingClosed,
}

/// The counters of a ring. None of them ever goes down but `in_hand`; each
/// stops at the largest value it can hold.
#[derive(Debug, Clone, Copy, PartialEq, Eq)]
pub struct BufferStats {
    /// Arrivals at the open ring, whatever became of them.
    pub enqueued: u64,
    /// Envelopes lost to overflow on the producer's side.
    pub dropped: u64,
    /// Envelopes lost by the worker at the transport.
    pub lost: u64,
    /// Envelopes written to the transport.
    pub sent: u64,
    /// Envelopes that the worker has taken out and not yet accounted for.
    pub in_hand: u64,
}

impl BufferStats {
    /// All counters at zero.
    pub fn new() -> (stats: Self)
        ensures
            stats == (BufferStats { enqueued: 0, dropped: 0, lost: 0, sent: 0, in_hand: 0 }),
    {
        BufferStats { enqueued: 0, dropped: 0, lost: 0, sent: 0, in_hand: 0 }
    }

    /// Lost envelopes of either kind.
    pub open spec fn dropped_total(self) -> nat {
        (self.dropped + self.lost) as nat
    }
}

/// `count` as a counter value.
pub open spec fn counted(count: nat) -> u64 {
    if count > u64::MAX {
        u64::MAX
    } else {
        count as u64
    }
}

/// The residents after `item` has arrived at a queue of the given capacity:
/// it goes to the back where there is room; at a full queue `Overwrite`
/// removes the oldest resident for it and the other modes leave the queue as
/// it is.
pub open spec fn after_arrival<T>(
    resident: Seq<T>,
    capacity: nat,
    mode: OverflowMode,
    item: T,
) -> Seq<T> {
    if resident.len() < capacity {
        resident.push(item)
    } else if mode == OverflowMode::Overwrite {
        resident.skip(1).push(item)
    } else {
        resident
    }
}

/// How many envelopes a worker takes out of `resident` waiting ones for a
/// batch of at most `max`: a batch asked for holds one envelope at least.
pub open spec fn batch_len(resident: nat, max: nat) -> nat {
    let limit = if max == 0 { 1 } else { max };
    if resident < limit {
        resident
    } else {
        limit
    }
}

/// A ring as a mathematical value.
pub struct RingView {
    /// The capacity the ring was made with.
    pub capacity: nat,
    /// The resident envelopes, oldest first.
    pub resident: Seq<LogEnvelopeView>,
    /// The counters.
    pub stats: BufferStats,
    /// Whether the ring has been closed.
    pub closed: bool,
}

impl RingView {
    /// A fresh ring.
    pub open spec fn empty(capacity: nat) -> RingView {
        RingView {
            capacity,
            resident: Seq::empty(),
            stats: BufferStats { enqueued: 0, dropped: 0, lost: 0, sent: 0, in_hand: 0 },
            closed: false,
        }
    }

    /// The invariants of a ring: a positive capacity within the limit, no
    /// more residents than the capacity, and, until the arrival counter has
    /// reached its largest value, every arrival accounted for exactly once.
    pub open spec fn wf(self) -> bool {
        &&& 0 < self.capacity <= MAX_BUFFER_CAPACITY
        &&& self.resident.len() <= self.capacity
        &&& self.stats.enqueued < u64::MAX ==> self.stats.enqueued == self.stats.sent
            + self.stats.dropped + self.stats.lost + self.stats.in_hand + self.resident.len()
    }

    /// Whether the ring is full.
    pub open spec fn full(self) -> bool {
        self.resident.len() >= self.capacity
    }

    /// The ring after `item` has arrived under `mode`. A closed ring stays as
    /// it is. An open ring counts the arrival; a full one counts a drop as
    /// well, of its oldest resident under `Overwrite` and of the arrival
    /// otherwise.
    pub open spec fn arrive(self, mode: OverflowMode, item: LogEnvelopeView) -> RingView {
        if self.closed {
            self
        } else {
            RingView {
                capacity: self.capacity,
                resident: after_arrival(self.resident, self.capacity, mode, item),
                stats: BufferStats {
                    enqueued: self.stats.enqueued.saturating_add(1),
                    dropped: if self.full() {
                        self.stats.dropped.saturating_add(1)
                    } else {
                        self.stats.dropped
                    },
                    lost: self.stats.lost,
                    sent: self.stats.sent,
                    in_hand: self.stats.in_hand,
                },
                closed: false,
            }
        }
    }

    /// What the producer is told of an arrival under `mode`.
    pub open spec fn verdict(self, mode: OverflowMode) -> Result<(), EmitError> {
        if self.closed {
            Err(EmitError::RingClosed)
        } else if !self.full() {
            Ok(())
        } else if mode == OverflowMode::BlockWithTimeout {
            Err(EmitError::RingTimeout)
        } else {
            Err(EmitError::RingFull)
        }
    }

    /// The ring after the worker has taken out its `count` oldest residents.
    pub open spec fn take(self, count: nat) -> RingView {
        RingView {
            capacity: self.capacity,
            resident: self.resident.skip(count as int),
            stats: BufferStats {
                enqueued: self.stats.enqueued,
                dropped: self.stats.dropped,
                lost: self.stats.lost,
                sent: self.stats.sent,
                in_hand: self.stats.in_hand.saturating_add(counted(count)),
            },
            closed: self.closed,
        }
    }

    /// The ring after the worker has written `count` of the envelopes in its
    /// hand.
    pub open spec fn settle_sent(self, count: nat) -> RingView {
        RingView {
            capacity: self.capacity,
            resident: self.resident,
            stats: BufferStats {
                enqueued: self.stats.enqueued,
                dropped: self.stats.dropped,
                lost: self.stats.lost,
                sent: self.stats.sent.saturating_add(counted(count)),
                in_hand: (self.stats.in_hand - count) as u64,
            },
            closed: self.closed,
        }
    }

    /// The ring after the worker has lost `count` of the envelopes in its
    /// hand at the transport.
    pub open spec fn settle_lost(self, count: nat) -> RingView {
        RingView {
            capacity: self.capacity,
            resident: self.resident,
            stats: BufferStats {
                enqueued: self.stats.enqueued,
                dropped: self.stats.dropped,
                lost: self.stats.lost.saturating_add(counted(count)),
                sent: self.stats.sent,
                in_hand: (self.stats.in_hand - count) as u64,
            },
            closed: self.closed,
        }
    }

    /// The ring after it has been closed.
    pub open spec fn close(self) -> RingView {
        RingView {
            capacity: self.capacity,
            resident: self.resident,
            stats: self.stats,
            closed: true,
        }
    }
}

/// A ring: a bounded queue of envelopes with its counters.
pub struct RingBuffer {
    buffer: LocklessBuffer,
    stats: BufferStats,
    closed: bool,
}

impl View for RingBuffer {
    type V = RingView;

    closed spec fn view(&self) -> RingView {
        RingView {
            capacity: self.buffer.spec_capacity(),
            resident: envelope_views(self.buffer@),
            stats: self.stats,
            closed: self.closed,
        }
    }
}

impl RingBuffer {
    /// Validity of the representation.
    pub closed spec fn inner_wf(&self) -> bool {
        self.buffer.wf()
    }

    /// Validity: the representation is sound and the ring's invariants hold.
    pub open spec fn wf(&self) -> bool {
        self.inner_wf() && self@.wf()
    }

    /// An empty, open ring of the given capacity with all counters at zero.
    pub fn new(capacity: usize) -> (ring: Self)
        requires
            0 < capacity <= MAX_BUFFER_CAPACITY,
        ensures
            ring.wf(),
            ring@ == RingView::empty(capacity as nat),
    {
        let ring = RingBuffer {
            buffer: LocklessBuffer::new(capacity),
            stats: BufferStats::new(),
            closed: false,
        };
        assert(ring@.resident =~= RingView::empty(capacity as nat).resident);
        ring
    }

    /// Takes in `envelope` under `mode`, counts the arrival and what it may
    /// have cost, and says how it went. Under `BlockWithTimeout` the bounded
    /// wait for room is the caller's, who holds the ring while this runs: an
    /// arrival that still finds the ring full has timed out.
    pub fn enqueue(&mut self, mode: OverflowMode, envelope: LogEnvelope) -> (outcome: Result<
        (),
        EmitError,
    >)
        requires
            old(self).wf(),
        ensures
            final(self).wf(),
            final(self)@ == old(self)@.arrive(mode, envelope@),
            outcome == old(self)@.verdict(mode),
    {
        if self.closed {
            return Err(EmitError::RingClosed);
        }
        let was_full = self.buffer.len() >= self.buffer.capacity();
        let ghost before = self.buffer@;
        match mode {
            OverflowMode::Overwrite => {
                let _displaced = self.buffer.force_push(envelope);
            },
            _ => {
                let _refused = self.buffer.push(envelope);
            },
        }
        proof {
            assert(envelope_views(self.buffer@) =~= after_arrival(
                envelope_views(before),
                old(self)@.capacity,
                mode,
                envelope@,
            ));
        }
        self.stats.enqueued = self.stats.enqueued.saturating_add(1);
        if was_full {
            self.stats.dropped = self.stats.dropped.saturating_add(1);
        }
        if !was_full {
            Ok(())
        } else {
            match mode {
                OverflowMode::BlockWithTimeout => Err(EmitError::RingTimeout),
                _ => Err(EmitError::RingFull),
            }
        }
    }

    /// Whether an arrival would find room.
    pub fn has_room(&self) -> (room: bool)
        requires
            self.wf(),
        ensures
            room == !self@.full(),
    {
        self.buffer.len() < self.buffer.capacity()
    }

    /// Takes out the oldest resident, if there is one, into the worker's
    /// hand.
    pub fn try_recv(&mut self) -> (envelope: Option<LogEnvelope>)
        requires
            old(self).wf(),
        ensures
            final(self).wf(),
            match envelope {
                Some(envelope) => {
                    &&& old(self)@.resident.len() > 0
                    &&& envelope@ == old(self)@.resident[0]
                    &&& final(self)@ == old(self)@.take(1)
                },
                None => old(self)@.resident.len() == 0 && final(self)@ == old(self)@,
            },
    {
        let ghost before = self.buffer@;
        let envelope = self.buffer.pop();
        if envelope.is_some() {
            self.stats.in_hand = self.stats.in_hand.saturating_add(1);
            proof {
                assert(envelope_views(self.buffer@) =~= envelope_views(before).skip(1));
            }
        }
        envelope
    }

    /// Takes out a batch for the worker: the oldest residents in order, up to
    /// `max` of them, and one at least where any is resident.
    pub fn take_batch(&mut self, max: usize) -> (batch: Vec<LogEnvelope>)
        requires
            old(self).wf(),
        ensures
            final(self).wf(),
            envelope_views(batch@) == old(self)@.resident.take(
                batch_len(old(self)@.resident.len(), max as nat) as int,
            ),
            final(self)@ == old(self)@.take(batch_len(old(self)@.resident.len(), max as nat)),
    {
        let limit: usize = if max == 0 { 1 } else { max };
        let mut batch: Vec<LogEnvelope> = Vec::new();
        proof {
            assert(self@.resident.skip(0) =~= self@.resident);
            assert(self@.resident.take(0) =~= envelope_views(batch@));
        }
        while batch.len() < limit && self.buffer.len() > 0
            invariant
                self.wf(),
                limit == if max == 0 { 1usize } else { max },
                batch@.len() <= limit,
                batch@.len() <= old(self)@.resident.len(),
                envelope_views(batch@) == old(self)@.resident.take(batch@.len() as int),
                self@ == old(self)@.take(batch@.len()),
            decreases self@.resident.len(),
        {
            let ghost before = self@;
            let ghost taken = batch@;
            let envelope = self.try_recv();
            match envelope {
                Some(envelope) => {
                    batch.push(envelope);
                    proof {
                        let all = old(self)@.resident;
                        assert(before.resident == all.skip(taken.len() as int));
                        assert(envelope@ == all[taken.len() as int]);
                        assert(envelope_views(batch@) =~= all.take(batch@.len() as int));
                        assert(before.take(1).resident =~= all.skip(batch@.len() as int));
                        assert(self@ == old(self)@.take(batch@.len()));
                    }
                },
                None => {},
            }
        }
        batch
    }

    /// Counts `count` envelopes from the worker's hand as written.
    pub fn mark_sent(&mut self, count: usize)
        requires
            old(self).wf(),
            count <= old(self)@.stats.in_hand,
        ensures
            final(self).wf(),
            final(self)@ == old(self)@.settle_sent(count as nat),
    {
        self.stats.sent = self.stats.sent.saturating_add(count as u64);
        self.stats.in_hand = self.stats.in_hand - count as u64;
    }

    /// Counts `count` envelopes from the worker's hand as lost at the
    /// transport.
    pub fn mark_lost(&mut self, count: usize)
        requires
            old(self).wf(),
            count <= old(self)@.stats.in_hand,
        ensures
            final(self).wf(),
            final(self)@ == old(self)@.settle_lost(count as nat),
    {
        self.stats.lost = self.stats.lost.saturating_add(count as u64);
        self.stats.in_hand = self.stats.in_hand - count as u64;
    }

    /// Closes the ring: arrivals are turned away from now on, residents stay
    /// for the worker.
    pub fn close(&mut self)
        requires
            old(self).wf(),
        ensures
            final(self).wf(),
            final(self)@ == old(self)@.close(),
    {
        self.closed = true;
    }

    /// Whether the ring has been closed.
    pub fn is_closed(&self) -> (closed: bool)
        ensures
            closed == self@.closed,
    {
        self.closed
    }

    /// The number of resident envelopes.
    pub fn len(&self) -> (len: usize)
        ensures
            len == self@.resident.len(),
    {
        self.buffer.len()
    }

    /// The capacity that the ring was made with.
    pub fn capacity(&self) -> (capacity: usize)
        ensures
            capacity == self@.capacity,
    {
        self.buffer.capacity()
    }

    /// All counters.
    pub fn stats(&self) -> (stats: BufferStats)
        ensures
            stats == self@.stats,
    {
        self.stats
    }
}

/// Counter conservation: at a quiescent point, when the worker holds
/// nothing in its hand, every arrival is either written, lost or still
/// resident. It holds until the arrival counter has reached its largest
/// value, where counting stops.
pub proof fn lemma_counter_conservation(ring: RingView)
    requires
        ring.wf(),
        ring.stats.in_hand == 0,
        ring.stats.enqueued < u64::MAX,
    ensures
        ring.stats.enqueued == ring.stats.sent + ring.stats.dropped_total() + ring.resident.len(),
{
}

/// Bounded residency: a ring never holds more envelopes than its capacity,
/// whatever arrives and whatever is taken out.
pub proof fn lemma_bounded_residency(
    ring: RingView,
    mode: OverflowMode,
    item: LogEnvelopeView,
    count: nat,
)
    requires
        ring.wf(),
        count <= ring.resident.len(),
    ensures
        ring.resident.len() <= ring.capacity,
        ring.arrive(mode, item).wf(),
        ring.arrive(mode, item).resident.len() <= ring.capacity,
        ring.take(count).wf(),
        ring.take(count).resident.len() <= ring.capacity,
{
}

/// Settling the worker's hand, as written or as lost, keeps the invariants.
pub proof fn lemma_settle_keeps_invariants(ring: RingView, count: nat)
    requires
        ring.wf(),
        count <= ring.stats.in_hand,
    ensures
        ring.settle_sent(count).wf(),
        ring.settle_lost(count).wf(),
{
}

/// A ring of capacity one under `Overwrite`: after every arrival the
/// arrival is the one resident, and every arrival that finds a resident
/// displaces it and counts one drop.
pub proof fn lemma_capacity_one_overwrite(ring: RingView, item: LogEnvelopeView)
    requires
        ring.wf(),
        ring.capacity == 1,
        !ring.closed,
    ensures
        ring.arrive(OverflowMode::Overwrite, item).resident == seq![item],
        ring.resident.len() == 1 ==> ring.arrive(OverflowMode::Overwrite, item).stats.dropped
            == ring.stats.dropped.saturating_add(1),
        ring.resident.len() == 0 ==> ring.arrive(OverflowMode::Overwrite, item).stats.dropped
            == ring.stats.dropped,
{
    assert(ring.arrive(OverflowMode::Overwrite, item).resident =~= seq![item]);
}

/// What happens at a ring: an envelope arrives under a mode, or the worker
/// takes out up to so many of the oldest residents and writes them.
pub enum RingEvent {
    Arrival(OverflowMode),
    Take(nat),
}

/// A ring's history with every envelope replaced by its arrival number.
pub struct RingTrace {
    /// The arrival numbers of the residents, oldest first.
    pub resident: Seq<nat>,
    /// The arrival numbers in the order in which they went to the wire.
    pub wire: Seq<nat>,
    /// How many envelopes have arrived.
    pub arrivals: nat,
}

/// The history that `events` make at an empty ring of the given capacity.
/// Arrivals are numbered from zero and enter as `after_arrival` says; a take
/// moves the oldest residents to the wire, in order.
pub open spec fn replay(capacity: nat, events: Seq<RingEvent>) -> RingTrace
    decreases events.len(),
{
    if events.len() == 0 {
        RingTrace { resident: Seq::empty(), wire: Seq::empty(), arrivals: 0 }
    } else {
        let before = replay(capacity, events.drop_last());
        match events.last() {
            RingEvent::Arrival(mode) => RingTrace {
                resident: after_arrival(before.resident, capacity, mode, before.arrivals),
                wire: before.wire,
                arrivals: before.arrivals + 1,
            },
            RingEvent::Take(max) => {
                let count = if max < before.resident.len() {
                    max
                } else {
                    before.resident.len()
                };
                RingTrace {
                    resident: before.resident.skip(count as int),
                    wire: before.wire + before.resident.take(count as int),
                    arrivals: before.arrivals,
                }
            },
        }
    }
}

/// Whether each element is smaller than all that follow it.
pub open spec fn strictly_increasing(numbers: Seq<nat>) -> bool {
    forall|i: int, j: int| 0 <= i < j < numbers.len() ==> numbers[i] < numbers[j]
}

/// First in, first out, under every mode and every change of mode: what has
/// gone to the wire, followed by what is resident, is in the order of
/// arrival. So of two envelopes that are both delivered the earlier arrival
/// is the earlier on the wire, and displacement under `Overwrite` leaves the
/// survivors in their order.
pub proof fn lemma_fifo(capacity: nat, events: Seq<RingEvent>)
    requires
        capacity > 0,
    ensures
        strictly_increasing(replay(capacity, events).wire + replay(capacity, events).resident),
        strictly_increasing(replay(capacity, events).wire),
        forall|i: int|
            0 <= i < (replay(capacity, events).wire + replay(capacity, events).resident).len()
                ==> (replay(capacity, events).wire + replay(capacity, events).resident)[i]
                < replay(capacity, events).arrivals,
        replay(capacity, events).resident.len() <= capacity,
{
    let trace = replay(capacity, events);
    assert forall|i: int, j: int| 0 <= i < j < trace.wire.len() implies trace.wire[i]
        < trace.wire[j] by {
        lemma_fifo_all(capacity, events);
        assert((trace.wire + trace.resident)[i] == trace.wire[i]);
        assert((trace.wire + trace.resident)[j] == trace.wire[j]);
    }
    lemma_fifo_all(capacity, events);
}

/// The induction behind `lemma_fifo`.
proof fn lemma_fifo_all(capacity: nat, events: Seq<RingEvent>)
    requires
        capacity > 0,
    ensures
        strictly_increasing(replay(capacity, events).wire + replay(capacity, events).resident),
        forall|i: int|
            0 <= i < (replay(capacity, events).wire + replay(capacity, events).resident).len()
                ==> (replay(capacity, events).wire + replay(capacity, events).resident)[i]
                < replay(capacity, events).arrivals,
        replay(capacity, events).resident.len() <= capacity,
    decreases events.len(),
{
    if events.len() > 0 {
        lemma_fifo_all(capacity, events.drop_last());
        let before = replay(capacity, events.drop_last());
        let after = replay(capacity, events);
        let old_all = before.wire + before.resident;
        let new_all = after.wire + after.resident;
        match events.last() {
            RingEvent::Arrival(mode) => {
                if before.resident.len() < capacity {
                    assert(new_all =~= old_all.push(before.arrivals));
                } else if mode == OverflowMode::Overwrite {
                    let w = before.wire.len() as int;
                    assert(new_all.len() == old_all.len());
                    assert forall|i: int| 0 <= i < new_all.len() implies new_all[i] == (if i
                        < w {
                        old_all[i]
                    } else if i < new_all.len() - 1 {
                        old_all[i + 1]
                    } else {
                        before.arrivals
                    }) by {
                        if i >= w && i < new_all.len() - 1 {
                            assert(after.resident[i - w] == before.resident.skip(1)[i - w]);
                        }
                    }
                } else {
                    assert(new_all =~= old_all);
                }
            },
            RingEvent::Take(max) => {
                let count = if max < before.resident.len() {
                    max
                } else {
                    before.resident.len()
                };
                assert(new_all =~= old_all) by {
                    assert(before.resident.take(count as int) + before.resident.skip(count as int)
                        =~= before.resident);
                }
            },
        }
    }
}

} // verus!
