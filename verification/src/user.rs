//! The facade: the rings with their workers, the overflow-mode register and
//! the local-print flag, and the producer API on top of them.

use crate::clock::{reading_of, stamp, stamp_of, unix_time};
use crate::config::BufferConfig;
use crate::envelope::{
    dlt_level_number, envelope_views, DltLogLevel, LogEnvelope, LogEnvelopeView,
};
use crate::protocol::{verbose_message, DltMessage};
use crate::ring::{
    batch_len, counted, mode_of_byte, EmitError, OverflowMode, RingBuffer, RingView,
};
use crate::text::{decimal_text, push_decimal, push_signed_decimal, signed_decimal_text};
use crate::transport::{Transport, TransportError};
use crate::types::{pad_id, AppId, ContextId, EcuId};
use crate::worker::{
    batch_frames, bytes_of, cycle_lines, cycle_plan, cycle_possible, cycle_result,
    local_print_texts, settled, texts_of, Batch, CycleOutcome, CyclePlan, CycleReport, Worker,
};
use std::time::{Duration, SystemTimeError};
use vstd::prelude::*;
use vstd::string::StringExecFns;
use vstd::string::StringSliceAdditionalSpecFns;
use vstd::utf8::encode_utf8;

verus! {

/// The ring that a level is routed to among `rings` rings: ring 0 for
/// `Fatal`, ring 1 (reduced by the number of rings) for `Error`, and the
/// level's number reduced by the number of rings for every other level.
pub open spec fn route(level: DltLogLevel, rings: nat) -> nat {
    match level {
        DltLogLevel::Fatal => 0,
        DltLogLevel::Error => 1nat % rings,
        _ => dlt_level_number(level) % rings,
    }
}

/// Deterministic routing: the ring is a function of the level and the number
/// of rings alone, and it is one of the rings.
pub proof fn lemma_route_in_range(level: DltLogLevel, rings: nat)
    requires
        rings > 0,
    ensures
        route(level, rings) < rings,
{
}

/// The sum of the lost envelopes of the first `upto` rings.
pub open spec fn dropped_sum(rings: Seq<RingView>, upto: nat) -> nat
    decreases upto,
{
    if upto == 0 {
        0
    } else {
        dropped_sum(rings, (upto - 1) as nat) + rings[upto - 1].stats.dropped_total()
    }
}

/// The sum of the arrival counters of the first `upto` rings.
pub open spec fn enqueued_sum(rings: Seq<RingView>, upto: nat) -> nat
    decreases upto,
{
    if upto == 0 {
        0
    } else {
        enqueued_sum(rings, (upto - 1) as nat) + rings[upto - 1].stats.enqueued as nat
    }
}

/// The sum of the sent counters of the first `upto` rings.
pub open spec fn sent_sum(rings: Seq<RingView>, upto: nat) -> nat
    decreases upto,
{
    if upto == 0 {
        0
    } else {
        sent_sum(rings, (upto - 1) as nat) + rings[upto - 1].stats.sent as nat
    }
}

/// The number of envelopes that are resident in the first `upto` rings.
pub open spec fn resident_sum(rings: Seq<RingView>, upto: nat) -> nat
    decreases upto,
{
    if upto == 0 {
        0
    } else {
        resident_sum(rings, (upto - 1) as nat) + rings[upto - 1].resident.len()
    }
}

/// Counter conservation over all rings: at a quiescent point, when no worker
/// holds anything in its hand, the arrivals of all rings together are the
/// written, the lost and the resident envelopes of all rings together. With
/// every ring drained, sent and dropped add up to enqueued. It holds as long
/// as no arrival counter has reached its largest value.
pub proof fn lemma_totals_balance(rings: Seq<RingView>, upto: nat)
    requires
        upto <= rings.len(),
        forall|i: int|
            0 <= i < upto ==> (#[trigger] rings[i]).wf() && rings[i].stats.in_hand == 0
                && rings[i].stats.enqueued < u64::MAX,
    ensures
        enqueued_sum(rings, upto) == sent_sum(rings, upto) + dropped_sum(rings, upto)
            + resident_sum(rings, upto),
        resident_sum(rings, upto) == 0 ==> enqueued_sum(rings, upto) == sent_sum(rings, upto)
            + dropped_sum(rings, upto),
    decreases upto,
{
    if upto > 0 {
        lemma_totals_balance(rings, (upto - 1) as nat);
        assert(rings[upto - 1].wf());
    }
}

/// The facade after the envelopes of `calls` have been presented to it, one
/// after the other.
pub open spec fn after_emits(
    state: DltUserStateView,
    calls: Seq<LogEnvelopeView>,
) -> DltUserStateView
    decreases calls.len(),
{
    if calls.len() == 0 {
        state
    } else {
        after_emits(state, calls.drop_last()).enqueue(calls.last())
    }
}

/// Replacing one ring by one whose arrival counter is higher by one raises
/// the sum of the arrival counters by one.
proof fn lemma_enqueued_sum_step(rings: Seq<RingView>, index: int, ring: RingView, upto: nat)
    requires
        0 <= index < rings.len(),
        upto <= rings.len(),
        ring.stats.enqueued == rings[index].stats.enqueued + 1,
    ensures
        enqueued_sum(rings.update(index, ring), upto) == enqueued_sum(rings, upto) + (if index
            < upto {
            1nat
        } else {
            0nat
        }),
    decreases upto,
{
    if upto > 0 {
        lemma_enqueued_sum_step(rings, index, ring, (upto - 1) as nat);
    }
}

/// Every emit is counted as enqueued exactly once, dropped or not: after any
/// number of envelopes has been presented to open rings, under whatever
/// mode, the arrival counters of all rings together have gone up by that
/// number. It holds as long as no arrival counter reaches its largest value.
pub proof fn lemma_every_emit_counts_once(state: DltUserStateView, calls: Seq<LogEnvelopeView>)
    requires
        forall|i: int| 0 <= i < calls.len() ==> (#[trigger] calls[i]).buffer_id < state.rings.len(),
        forall|i: int|
            0 <= i < state.rings.len() ==> !(#[trigger] state.rings[i]).closed
                && state.rings[i].stats.enqueued + calls.len() < u64::MAX,
    ensures
        after_emits(state, calls).rings.len() == state.rings.len(),
        after_emits(state, calls).overflow_mode == state.overflow_mode,
        enqueued_sum(after_emits(state, calls).rings, state.rings.len()) == enqueued_sum(
            state.rings,
            state.rings.len(),
        ) + calls.len(),
        forall|i: int|
            0 <= i < state.rings.len() ==> !(#[trigger] after_emits(state, calls).rings[i]).closed
                && after_emits(state, calls).rings[i].stats.enqueued
                <= state.rings[i].stats.enqueued + calls.len(),
    decreases calls.len(),
{
    if calls.len() > 0 {
        let earlier = calls.drop_last();
        let before = after_emits(state, earlier);
        let last = calls.last();
        assert forall|i: int| 0 <= i < earlier.len() implies (#[trigger] earlier[i]).buffer_id
            < state.rings.len() by {
            assert(earlier[i] == calls[i]);
        }
        lemma_every_emit_counts_once(state, earlier);
        let index = last.buffer_id as int;
        let ring = before.rings[index].arrive(before.mode(), last);
        assert(!before.rings[index].closed);
        assert(before.rings[index].stats.enqueued < u64::MAX);
        assert(ring.stats.enqueued == before.rings[index].stats.enqueued + 1);
        lemma_enqueued_sum_step(before.rings, index, ring, state.rings.len());
        assert(after_emits(state, calls) == before.enqueue(last));
        assert(after_emits(state, calls).rings == before.rings.update(index, ring));
    }
}

/// The facade as a mathematical value.
pub struct DltUserStateView {
    /// The rings.
    pub rings: Seq<RingView>,
    /// The workers, one for each ring.
    pub workers: Seq<Worker>,
    /// Whether new envelopes ask for local print.
    pub local_print: bool,
    /// The overflow-mode register.
    pub overflow_mode: u8,
}

impl DltUserStateView {
    /// The overflow mode in force.
    pub open spec fn mode(self) -> OverflowMode {
        mode_of_byte(self.overflow_mode)
    }

    /// The facade with ring `index` replaced.
    pub open spec fn with_ring(self, index: int, ring: RingView) -> DltUserStateView {
        DltUserStateView {
            rings: self.rings.update(index, ring),
            workers: self.workers,
            local_print: self.local_print,
            overflow_mode: self.overflow_mode,
        }
    }

    /// The facade after `envelope` has been presented to the ring that it
    /// names: unchanged where it names none.
    pub open spec fn enqueue(self, envelope: LogEnvelopeView) -> DltUserStateView {
        if envelope.buffer_id < self.rings.len() {
            self.with_ring(
                envelope.buffer_id as int,
                self.rings[envelope.buffer_id as int].arrive(self.mode(), envelope),
            )
        } else {
            self
        }
    }

    /// What the producer is told of presenting an envelope to ring
    /// `buffer_id`.
    pub open spec fn verdict(self, buffer_id: usize) -> Result<(), EmitError> {
        if buffer_id < self.rings.len() {
            self.rings[buffer_id as int].verdict(self.mode())
        } else {
            Err(EmitError::InvalidArgument)
        }
    }
}

/// The facade: rings, workers, overflow mode and local-print flag.
pub struct DltUserState {
    rings: Vec<RingBuffer>,
    workers: Vec<Worker>,
    local_print_enabled: bool,
    overflow_mode: u8,
}

impl View for DltUserState {
    type V = DltUserStateView;

    closed spec fn view(&self) -> DltUserStateView {
        DltUserStateView {
            rings: Seq::new(self.rings@.len(), |i: int| self.rings@[i]@),
            workers: self.workers@,
            local_print: self.local_print_enabled,
            overflow_mode: self.overflow_mode,
        }
    }
}

impl DltUserState {
    /// Validity of the representation.
    pub closed spec fn inner_wf(&self) -> bool {
        &&& self.rings@.len() <= usize::MAX
        &&& forall|i: int| 0 <= i < self.rings@.len() ==> (#[trigger] self.rings@[i]).inner_wf()
    }

    /// Validity: there is a ring, and no more rings than an index can count;
    /// every ring keeps its invariants, and every ring has its worker.
    pub open spec fn wf(&self) -> bool {
        &&& self.inner_wf()
        &&& 1 <= self@.rings.len() <= usize::MAX
        &&& self@.workers.len() == self@.rings.len()
        &&& forall|i: int| 0 <= i < self@.rings.len() ==> (#[trigger] self@.rings[i]).wf()
        &&& forall|i: int|
            0 <= i < self@.workers.len() ==> (#[trigger] self@.workers[i]).buffer_id == i
    }

    /// Each ring of a valid facade is valid, and the facade's view holds the
    /// ring's view.
    proof fn lemma_ring(&self, index: int)
        requires
            self.wf(),
            0 <= index < self.rings@.len(),
        ensures
            self.rings@[index].wf(),
            self.rings@[index]@ == self@.rings[index],
            self@.rings.len() == self.rings@.len(),
    {
        assert(self.rings@[index].inner_wf());
        assert(self@.rings[index].wf());
    }

    /// The facade that `config` describes: its rings empty and open, its
    /// workers without a connection, local print off.
    pub fn new(config: &BufferConfig) -> (state: Self)
        requires
            config.wf(),
        ensures
            state.wf(),
            state@.rings.len() == config.num_buffers,
            forall|i: int|
                0 <= i < config.num_buffers ==> #[trigger] state@.rings[i] == RingView::empty(
                    config.buffer_sizes@[i] as nat,
                ),
            forall|i: int|
                0 <= i < config.num_buffers ==> #[trigger] state@.workers[i] == (Worker {
                    buffer_id: i as usize,
                    batch_size: config.batch_size,
                    connected: false,
                }),
            !state@.local_print,
            state@.mode() == config.overflow_mode,
    {
        let mut rings: Vec<RingBuffer> = Vec::new();
        let mut workers: Vec<Worker> = Vec::new();
        let mut i: usize = 0;
        while i < config.num_buffers
            invariant
                config.wf(),
                i <= config.num_buffers,
                rings@.len() == i,
                workers@.len() == i,
                forall|k: int| 0 <= k < i ==> (#[trigger] rings@[k]).wf(),
                forall|k: int|
                    0 <= k < i ==> (#[trigger] rings@[k])@ == RingView::empty(
                        config.buffer_sizes@[k] as nat,
                    ),
                forall|k: int|
                    0 <= k < i ==> #[trigger] workers@[k] == (Worker {
                        buffer_id: k as usize,
                        batch_size: config.batch_size,
                        connected: false,
                    }),
            decreases config.num_buffers - i,
        {
            rings.push(RingBuffer::new(config.buffer_sizes[i]));
            workers.push(Worker::new(i, config.batch_size));
            i += 1;
        }
        DltUserState {
            rings,
            workers,
            local_print_enabled: false,
            overflow_mode: config.overflow_mode.as_u8(),
        }
    }

    /// The ring that `level` is routed to.
    pub fn select_buffer(&self, level: DltLogLevel) -> (ring: usize)
        requires
            self.wf(),
        ensures
            ring == route(level, self@.rings.len()),
            ring < self@.rings.len(),
    {
        let count = self.rings.len();
        match level {
            DltLogLevel::Fatal => 0,
            DltLogLevel::Error => 1 % count,
            _ => (level.as_u8() as usize) % count,
        }
    }

    /// Presents `envelope` to the ring that it names, under the overflow
    /// mode in force. An envelope that names no ring is refused as an
    /// invalid argument and changes nothing.
    pub fn enqueue_message(&mut self, envelope: LogEnvelope) -> (outcome: Result<(), EmitError>)
        requires
            old(self).wf(),
        ensures
            final(self).wf(),
            final(self)@ == old(self)@.enqueue(envelope@),
            outcome == old(self)@.verdict(envelope.buffer_id),
    {
        let buffer_id = envelope.buffer_id;
        if buffer_id >= self.rings.len() {
            return Err(EmitError::InvalidArgument);
        }
        let mode = OverflowMode::from_u8(self.overflow_mode);
        let outcome = self.rings[buffer_id].enqueue(mode, envelope);
        proof {
            assert(self@.rings =~= old(self)@.rings.update(
                buffer_id as int,
                old(self)@.rings[buffer_id as int].arrive(mode, envelope@),
            ));
        }
        outcome
    }

    /// Whether a producer has reason to wait before it presents an envelope
    /// to ring `buffer_id`: the mode is `BlockWithTimeout` and the ring is
    /// open and full.
    pub fn awaits_capacity(&self, buffer_id: usize) -> (waits: bool)
        requires
            self.wf(),
        ensures
            waits == (buffer_id < self@.rings.len() && self@.mode()
                == OverflowMode::BlockWithTimeout && !self@.rings[buffer_id as int].closed
                && self@.rings[buffer_id as int].full()),
    {
        if buffer_id >= self.rings.len() {
            return false;
        }
        match OverflowMode::from_u8(self.overflow_mode) {
            OverflowMode::BlockWithTimeout => {
                let ring = &self.rings[buffer_id];
                proof {
                    self.lemma_ring(buffer_id as int);
                }
                !ring.is_closed() && !ring.has_room()
            },
            _ => false,
        }
    }

    /// Whether a producer that has waited `waited_ms` milliseconds for room
    /// in ring `buffer_id` is to wait on: there is reason to wait, and the
    /// bounded wait of `timeout_ms` milliseconds is not over.
    pub fn must_wait(&self, buffer_id: usize, waited_ms: u64, timeout_ms: u64) -> (waits: bool)
        requires
            self.wf(),
        ensures
            waits == (waited_ms < timeout_ms && buffer_id < self@.rings.len() && self@.mode()
                == OverflowMode::BlockWithTimeout && !self@.rings[buffer_id as int].closed
                && self@.rings[buffer_id as int].full()),
    {
        waited_ms < timeout_ms && self.awaits_capacity(buffer_id)
    }

    /// Runs one cycle of the worker of ring `buffer_id` on `transport`;
    /// `None`, and nothing changed, where there is no such ring.
    pub fn run_worker<T: Transport>(&mut self, buffer_id: usize, transport: &mut T) -> (report:
        Option<CycleReport>)
        requires
            old(self).wf(),
        ensures
            final(self).wf(),
            match report {
                None => buffer_id >= old(self)@.rings.len() && final(self)@ == old(self)@,
                Some(report) => {
                    &&& buffer_id < old(self)@.rings.len()
                    &&& cycle_possible(
                        old(self)@.workers[buffer_id as int],
                        old(self)@.rings[buffer_id as int],
                        report.outcome,
                    )
                    &&& final(self)@ == old(self)@.after_cycle(buffer_id as int, report.outcome)
                    &&& texts_of(report.lines@) == cycle_lines(
                        old(self)@.workers[buffer_id as int],
                        old(self)@.rings[buffer_id as int],
                        report.outcome,
                    )
                },
            },
    {
        if buffer_id >= self.rings.len() {
            return None;
        }
        let mut worker = self.workers[buffer_id];
        proof {
            self.lemma_ring(buffer_id as int);
        }
        let report = worker.run_cycle(&mut self.rings[buffer_id], transport);
        self.workers.set(buffer_id, worker);
        proof {
            let expected = old(self)@.after_cycle(buffer_id as int, report.outcome);
            assert(self@.rings =~= expected.rings);
            assert(self@.workers =~= expected.workers);
        }
        Some(report)
    }

    /// What the worker of ring `buffer_id` is to do next; `None` where there
    /// is no such ring.
    pub fn plan_cycle(&self, buffer_id: usize) -> (plan: Option<CyclePlan>)
        requires
            self.wf(),
        ensures
            plan == if buffer_id < self@.rings.len() {
                Some(
                    cycle_plan(self@.workers[buffer_id as int], self@.rings[buffer_id as int]),
                )
            } else {
                None
            },
    {
        if buffer_id >= self.rings.len() {
            return None;
        }
        proof {
            self.lemma_ring(buffer_id as int);
        }
        Some(self.workers[buffer_id].plan(&self.rings[buffer_id]))
    }

    /// Takes note of whether the worker of ring `buffer_id` holds a
    /// connection; nothing changes where there is no such ring.
    pub fn note_connection(&mut self, buffer_id: usize, connected: bool)
        requires
            old(self).wf(),
        ensures
            final(self).wf(),
            final(self)@ == if buffer_id < old(self)@.rings.len() {
                old(self)@.with_cycle(
                    buffer_id as int,
                    Worker {
                        buffer_id: old(self)@.workers[buffer_id as int].buffer_id,
                        batch_size: old(self)@.workers[buffer_id as int].batch_size,
                        connected,
                    },
                    old(self)@.rings[buffer_id as int],
                )
            } else {
                old(self)@
            },
    {
        if buffer_id < self.rings.len() {
            let mut worker = self.workers[buffer_id];
            worker.connected = connected;
            self.workers.set(buffer_id, worker);
            proof {
                let expected = old(self)@.with_cycle(
                    buffer_id as int,
                    worker,
                    old(self)@.rings[buffer_id as int],
                );
                assert(self@.rings =~= expected.rings);
                assert(self@.workers =~= expected.workers);
            }
        }
    }

    /// Takes a batch out of ring `buffer_id` for its worker, as
    /// `Worker::collect` does; `None`, and nothing changed, where there is no
    /// such ring.
    pub fn collect_batch(&mut self, buffer_id: usize) -> (batch: Option<Batch>)
        requires
            old(self).wf(),
        ensures
            final(self).wf(),
            match batch {
                None => buffer_id >= old(self)@.rings.len() && final(self)@ == old(self)@,
                Some(batch) => {
                    &&& buffer_id < old(self)@.rings.len()
                    &&& final(self)@ == old(self)@.with_ring(
                        buffer_id as int,
                        old(self)@.rings[buffer_id as int].take(
                            batch_len(
                                old(self)@.rings[buffer_id as int].resident.len(),
                                old(self)@.workers[buffer_id as int].batch_size as nat,
                            ),
                        ),
                    )
                    &&& envelope_views(batch.envelopes@)
                        == old(self)@.rings[buffer_id as int].resident.take(
                        batch_len(
                            old(self)@.rings[buffer_id as int].resident.len(),
                            old(self)@.workers[buffer_id as int].batch_size as nat,
                        ) as int,
                    )
                    &&& bytes_of(batch.frames@) == batch_frames(envelope_views(batch.envelopes@))
                    &&& texts_of(batch.lines@) == local_print_texts(
                        envelope_views(batch.envelopes@),
                        buffer_id as nat,
                    )
                },
            },
    {
        if buffer_id >= self.rings.len() {
            return None;
        }
        let worker = self.workers[buffer_id];
        proof {
            self.lemma_ring(buffer_id as int);
        }
        let batch = worker.collect(&mut self.rings[buffer_id]);
        proof {
            let expected = old(self)@.with_ring(
                buffer_id as int,
                old(self)@.rings[buffer_id as int].take(
                    batch_len(
                        old(self)@.rings[buffer_id as int].resident.len(),
                        worker.batch_size as nat,
                    ),
                ),
            );
            assert(self@.rings =~= expected.rings);
        }
        Some(batch)
    }

    /// Accounts for a batch of the worker of ring `buffer_id`, whose frames
    /// are `frames`, after the vectored write has returned `written`, as
    /// `Worker::settle` does. `None`, and nothing changed, where there is no
    /// such ring or where the worker has fewer envelopes in its hand than
    /// there are frames.
    pub fn settle_batch(
        &mut self,
        buffer_id: usize,
        frames: &Vec<Vec<u8>>,
        written: Result<usize, TransportError>,
    ) -> (outcome: Option<CycleOutcome>)
        requires
            old(self).wf(),
        ensures
            final(self).wf(),
            match outcome {
                None => {
                    &&& buffer_id >= old(self)@.rings.len() || frames@.len()
                        > old(self)@.rings[buffer_id as int].stats.in_hand
                    &&& final(self)@ == old(self)@
                },
                Some(outcome) => {
                    &&& buffer_id < old(self)@.rings.len()
                    &&& frames@.len() <= old(self)@.rings[buffer_id as int].stats.in_hand
                    &&& outcome == settled(
                        old(self)@.workers[buffer_id as int],
                        old(self)@.rings[buffer_id as int],
                        bytes_of(frames@),
                        written,
                    ).2
                    &&& final(self)@ == old(self)@.with_cycle(
                        buffer_id as int,
                        settled(
                            old(self)@.workers[buffer_id as int],
                            old(self)@.rings[buffer_id as int],
                            bytes_of(frames@),
                            written,
                        ).0,
                        settled(
                            old(self)@.workers[buffer_id as int],
                            old(self)@.rings[buffer_id as int],
                            bytes_of(frames@),
                            written,
                        ).1,
                    )
                },
            },
    {
        if buffer_id >= self.rings.len() {
            return None;
        }
        proof {
            self.lemma_ring(buffer_id as int);
        }
        let in_hand = self.rings[buffer_id].stats().in_hand;
        if frames.len() as u64 > in_hand {
            return None;
        }
        let mut worker = self.workers[buffer_id];
        let outcome = worker.settle(&mut self.rings[buffer_id], frames, written);
        self.workers.set(buffer_id, worker);
        proof {
            let result = settled(
                old(self)@.workers[buffer_id as int],
                old(self)@.rings[buffer_id as int],
                bytes_of(frames@),
                written,
            );
            let expected = old(self)@.with_cycle(buffer_id as int, result.0, result.1);
            assert(self@.rings =~= expected.rings);
            assert(self@.workers =~= expected.workers);
        }
        Some(outcome)
    }

    /// Closes every ring: arrivals are turned away from now on, and the
    /// workers are done once they have drained what is resident.
    pub fn close(&mut self)
        requires
            old(self).wf(),
        ensures
            final(self).wf(),
            final(self)@.rings.len() == old(self)@.rings.len(),
            forall|i: int|
                0 <= i < old(self)@.rings.len() ==> #[trigger] final(self)@.rings[i]
                    == old(self)@.rings[i].close(),
            final(self)@.workers == old(self)@.workers,
            final(self)@.local_print == old(self)@.local_print,
            final(self)@.overflow_mode == old(self)@.overflow_mode,
    {
        let mut i: usize = 0;
        while i < self.rings.len()
            invariant
                self.wf(),
                i <= self.rings@.len(),
                self@.rings.len() == old(self)@.rings.len(),
                forall|k: int|
                    0 <= k < i ==> #[trigger] self@.rings[k] == old(self)@.rings[k].close(),
                forall|k: int|
                    i <= k < self@.rings.len() ==> #[trigger] self@.rings[k] == old(self)@.rings[k],
                self@.workers == old(self)@.workers,
                self@.local_print == old(self)@.local_print,
                self@.overflow_mode == old(self)@.overflow_mode,
            decreases self.rings@.len() - i,
        {
            let ghost before = *self;
            proof {
                self.lemma_ring(i as int);
            }
            self.rings[i].close();
            proof {
                assert forall|k: int| 0 <= k < self.rings@.len() implies (
                #[trigger] self.rings@[k]).inner_wf() && self.rings@[k]@.wf() by {
                    if k != i {
                        before.lemma_ring(k);
                    }
                }
                assert forall|k: int| 0 <= k < self@.rings.len() implies (
                #[trigger] self@.rings[k]).wf() by {
                    assert(self.rings@[k].inner_wf());
                }
                assert forall|k: int| i < k < self@.rings.len() implies #[trigger] self@.rings[k]
                    == old(self)@.rings[k] by {
                    assert(before@.rings[k] == old(self)@.rings[k]);
                }
                assert forall|k: int| 0 <= k <= i implies #[trigger] self@.rings[k]
                    == old(self)@.rings[k].close() by {
                    if k < i {
                        assert(before@.rings[k] == old(self)@.rings[k].close());
                    } else {
                        assert(before@.rings[k] == old(self)@.rings[k]);
                    }
                }
            }
            i += 1;
        }
    }
}

impl DltUserStateView {
    /// The facade with the worker and the ring at `index` replaced.
    pub open spec fn with_cycle(
        self,
        index: int,
        worker: Worker,
        ring: RingView,
    ) -> DltUserStateView {
        DltUserStateView {
            rings: self.rings.update(index, ring),
            workers: self.workers.update(index, worker),
            local_print: self.local_print,
            overflow_mode: self.overflow_mode,
        }
    }

    /// The facade after a cycle of the worker of ring `index` that ended in
    /// `outcome`.
    pub open spec fn after_cycle(
        self,
        index: int,
        outcome: crate::worker::CycleOutcome,
    ) -> DltUserStateView {
        DltUserStateView {
            rings: self.rings.update(
                index,
                cycle_result(self.workers[index], self.rings[index], outcome).1,
            ),
            workers: self.workers.update(
                index,
                cycle_result(self.workers[index], self.rings[index], outcome).0,
            ),
            local_print: self.local_print,
            overflow_mode: self.overflow_mode,
        }
    }
}

/// Turns local print on for the envelopes to come.
pub fn dlt_enable_local_print(state: &mut DltUserState)
    requires
        old(state).wf(),
    ensures
        final(state).wf(),
        final(state)@ == (DltUserStateView { local_print: true, ..old(state)@ }),
{
    state.local_print_enabled = true;
}

/// Turns local print off for the envelopes to come.
pub fn dlt_disable_local_print(state: &mut DltUserState)
    requires
        old(state).wf(),
    ensures
        final(state).wf(),
        final(state)@ == (DltUserStateView { local_print: false, ..old(state)@ }),
{
    state.local_print_enabled = false;
}

/// Whether new envelopes ask for local print.
pub fn dlt_get_local_print(state: &DltUserState) -> (enabled: bool)
    ensures
        enabled == state@.local_print,
{
    state.local_print_enabled
}

/// Sets the overflow mode: 0 for `Overwrite`, 1 for `DropNewest`, 2 for
/// `BlockWithTimeout`. Every other byte is refused as an invalid argument
/// and leaves the mode as it is. The envelopes that are resident stay as
/// they are.
pub fn dlt_set_overflow_mode(state: &mut DltUserState, mode: u8) -> (outcome: Result<
    (),
    EmitError,
>)
    requires
        old(state).wf(),
    ensures
        final(state).wf(),
        mode <= 2 ==> outcome == Ok::<(), EmitError>(()) && final(state)@ == (DltUserStateView {
            overflow_mode: mode,
            ..old(state)@
        }),
        mode > 2 ==> outcome == Err::<(), EmitError>(EmitError::InvalidArgument) && final(state)@
            == old(state)@,
{
    if mode <= 2 {
        state.overflow_mode = mode;
        Ok(())
    } else {
        Err(EmitError::InvalidArgument)
    }
}

/// The byte in the overflow-mode register.
pub fn dlt_get_overflow_mode(state: &DltUserState) -> (mode: u8)
    ensures
        mode == state@.overflow_mode,
{
    state.overflow_mode
}

/// The counters of ring `buffer_id`: arrivals, lost envelopes of either
/// kind, written envelopes; `None` where there is no such ring.
pub fn dlt_get_buffer_stats(state: &DltUserState, buffer_id: usize) -> (stats: Option<
    (u64, u64, u64),
>)
    ensures
        stats == if buffer_id < state@.rings.len() {
            Some(
                (
                    state@.rings[buffer_id as int].stats.enqueued,
                    counted(state@.rings[buffer_id as int].stats.dropped_total()),
                    state@.rings[buffer_id as int].stats.sent,
                ),
            )
        } else {
            None
        },
{
    if buffer_id < state.rings.len() {
        let stats = state.rings[buffer_id].stats();
        Some((stats.enqueued, stats.dropped.saturating_add(stats.lost), stats.sent))
    } else {
        None
    }
}

/// The lost envelopes of all rings together, of either kind, each counted
/// once.
pub fn dlt_get_overflow_count(state: &DltUserState) -> (count: u64)
    ensures
        count == counted(dropped_sum(state@.rings, state@.rings.len())),
{
    let mut count: u64 = 0;
    let mut i: usize = 0;
    while i < state.rings.len()
        invariant
            i <= state.rings@.len(),
            state@.rings.len() == state.rings@.len(),
            count == counted(dropped_sum(state@.rings, i as nat)),
        decreases state.rings@.len() - i,
    {
        let stats = state.rings[i].stats();
        count = count.saturating_add(stats.dropped.saturating_add(stats.lost));
        i += 1;
    }
    count
}

/// The name under which a mode appears in the statistics.
pub open spec fn mode_label(mode: OverflowMode) -> Seq<char> {
    match mode {
        OverflowMode::Overwrite => "Overwrite"@,
        OverflowMode::DropNewest => "DropNewest"@,
        OverflowMode::BlockWithTimeout => "BlockWithTimeout"@,
    }
}

/// The first line of the statistics: the mode in force.
pub open spec fn stats_header(mode: OverflowMode) -> Seq<char> {
    "DLT Buffer Statistics (mode="@ + mode_label(mode) + "):"@
}

/// The line of the statistics for ring `index`: arrivals, lost envelopes of
/// either kind, written envelopes.
pub open spec fn stats_line(index: nat, ring: RingView) -> Seq<char> {
    "  Buffer "@ + decimal_text(index) + ": enqueued="@ + decimal_text(ring.stats.enqueued as nat)
        + ", dropped="@ + decimal_text(counted(ring.stats.dropped_total()) as nat) + ", sent="@
        + decimal_text(ring.stats.sent as nat)
}

/// The statistics as lines of text: a header with the mode in force, then
/// one line for each ring.
pub fn dlt_buffer_stats_lines(state: &DltUserState) -> (lines: Vec<String>)
    ensures
        lines@.len() == state@.rings.len() + 1,
        lines@[0]@ == stats_header(state@.mode()),
        forall|i: int|
            0 <= i < state@.rings.len() ==> (#[trigger] lines@[i + 1])@ == stats_line(
                i as nat,
                state@.rings[i],
            ),
{
    let mut lines: Vec<String> = Vec::new();
    let mut header = String::from_str("DLT Buffer Statistics (mode=");
    let label = match OverflowMode::from_u8(state.overflow_mode) {
        OverflowMode::Overwrite => "Overwrite",
        OverflowMode::DropNewest => "DropNewest",
        OverflowMode::BlockWithTimeout => "BlockWithTimeout",
    };
    header.append(label);
    header.append("):");
    lines.push(header);
    let mut i: usize = 0;
    while i < state.rings.len()
        invariant
            i <= state.rings@.len(),
            state@.rings.len() == state.rings@.len(),
            lines@.len() == i + 1,
            lines@[0]@ == stats_header(state@.mode()),
            forall|k: int|
                0 <= k < i ==> (#[trigger] lines@[k + 1])@ == stats_line(k as nat, state@.rings[k]),
        decreases state.rings@.len() - i,
    {
        let stats = state.rings[i].stats();
        let mut line = String::from_str("  Buffer ");
        push_decimal(&mut line, i as u64);
        line.append(": enqueued=");
        push_decimal(&mut line, stats.enqueued);
        line.append(", dropped=");
        push_decimal(&mut line, stats.dropped.saturating_add(stats.lost));
        line.append(", sent=");
        push_decimal(&mut line, stats.sent);
        assert(line@ == stats_line(i as nat, state@.rings[i as int]));
        let ghost before = lines@;
        lines.push(line);
        proof {
            assert forall|k: int| 0 <= k < i + 1 implies (#[trigger] lines@[k + 1])@
                == stats_line(k as nat, state@.rings[k]) by {
                if k < i {
                    assert(lines@[k + 1] == before[k + 1]);
                }
            }
        }
        i += 1;
    }
    lines
}

/// The number of rings.
pub fn dlt_get_num_buffers(state: &DltUserState) -> (count: usize)
    ensures
        count == state@.rings.len(),
{
    state.rings.len()
}

/// The payload text of a log call: the number in decimal, a space, the
/// message.
pub open spec fn payload_text(num: int, message: Seq<char>) -> Seq<char> {
    signed_decimal_text(num) + seq![' '] + message
}

/// The ring that a log call goes to: the one asked for, or the one that the
/// level is routed to.
pub open spec fn chosen_ring(rings: nat, level: DltLogLevel, buffer_id: Option<usize>) -> usize {
    match buffer_id {
        Some(ring) => ring,
        None => route(level, rings) as usize,
    }
}

/// A context handle: application, context and ECU id.
pub struct DltContext {
    pub app_id: AppId,
    pub ctx_id: ContextId,
    pub ecu_id: EcuId,
}

impl DltContext {
    /// The envelope that a log call of this context makes.
    pub open spec fn envelope(
        self,
        level: DltLogLevel,
        num: int,
        message: Seq<char>,
        ring: usize,
        local_print: bool,
        seconds: u32,
        microseconds: u32,
    ) -> LogEnvelopeView {
        LogEnvelopeView {
            message: verbose_message(
                self.ecu_id,
                self.app_id,
                self.ctx_id,
                encode_utf8(payload_text(num, message)),
                seconds,
                microseconds,
            ),
            level,
            buffer_id: ring,
            local_print,
            app_id: self.app_id,
            ctx_id: self.ctx_id,
        }
    }

    /// A context handle for the given ids, on ECU `ECU1`. The descriptions
    /// are accepted and not used.
    pub fn new(app_id: &str, ctx_id: &str, _app_desc: &str, _ctx_desc: &str) -> (context: Self)
        ensures
            context.app_id.0@ == pad_id(app_id.spec_bytes()),
            context.ctx_id.0@ == pad_id(ctx_id.spec_bytes()),
            context.ecu_id.0@ == pad_id("ECU1".spec_bytes()),
    {
        DltContext {
            app_id: AppId::new(app_id),
            ctx_id: ContextId::new(ctx_id),
            ecu_id: EcuId::new("ECU1"),
        }
    }

    /// Builds the envelope of a log call for ring `ring`, stamped with the
    /// given time: the frame is encoded here, before any ring is touched.
    pub fn make_envelope_at(
        &self,
        level: DltLogLevel,
        num: i32,
        message: &str,
        ring: usize,
        local_print: bool,
        seconds: u32,
        microseconds: u32,
    ) -> (envelope: LogEnvelope)
        ensures
            envelope@ == self.envelope(
                level,
                num as int,
                message@,
                ring,
                local_print,
                seconds,
                microseconds,
            ),
    {
        let mut payload = String::new();
        push_signed_decimal(&mut payload, num as i64);
        proof {
            reveal_strlit(" ");
        }
        payload.append(" ");
        payload.append(message);
        assert(payload@ =~= payload_text(num as int, message@));
        let frame = DltMessage::new_verbose_at(
            self.ecu_id,
            self.app_id,
            self.ctx_id,
            payload.as_str(),
            seconds,
            microseconds,
        );
        LogEnvelope {
            message: frame,
            level,
            buffer_id: ring,
            local_print,
            app_id: self.app_id,
            ctx_id: self.ctx_id,
        }
    }

    /// Builds the envelope of a log call for ring `ring`, stamped with the
    /// wall clock: with what `stamp_of` makes of the reading of what the
    /// clock answered.
    pub fn make_envelope(
        &self,
        level: DltLogLevel,
        num: i32,
        message: &str,
        ring: usize,
        local_print: bool,
    ) -> (envelope: LogEnvelope)
        ensures
            exists|elapsed: Result<Duration, SystemTimeError>|
                envelope@ == self.envelope(
                    level,
                    num as int,
                    message@,
                    ring,
                    local_print,
                    stamp_of(#[trigger] reading_of(elapsed)).0,
                    stamp_of(reading_of(elapsed)).1,
                ),
    {
        let now = unix_time();
        let (seconds, microseconds) = stamp(now);
        let envelope = self.make_envelope_at(
            level,
            num,
            message,
            ring,
            local_print,
            seconds,
            microseconds,
        );
        proof {
            let elapsed = choose|elapsed: Result<Duration, SystemTimeError>|
                now == #[trigger] reading_of(elapsed);
            assert((seconds, microseconds) == stamp_of(reading_of(elapsed)));
        }
        envelope
    }

    /// Logs `num` and `message` at `level`, stamped with the given time, to
    /// ring `buffer_id` or, where none is given, to the ring that the level
    /// is routed to. A ring index out of range is refused as an invalid
    /// argument and changes nothing.
    pub fn log_to_buffer_at(
        &self,
        state: &mut DltUserState,
        level: DltLogLevel,
        num: i32,
        message: &str,
        buffer_id: Option<usize>,
        seconds: u32,
        microseconds: u32,
    ) -> (outcome: Result<(), EmitError>)
        requires
            old(state).wf(),
        ensures
            final(state).wf(),
            final(state)@ == old(state)@.enqueue(
                self.envelope(
                    level,
                    num as int,
                    message@,
                    chosen_ring(old(state)@.rings.len(), level, buffer_id),
                    old(state)@.local_print,
                    seconds,
                    microseconds,
                ),
            ),
            outcome == old(state)@.verdict(chosen_ring(old(state)@.rings.len(), level, buffer_id)),
    {
        let ring = match buffer_id {
            Some(ring) => ring,
            None => state.select_buffer(level),
        };
        let envelope = self.make_envelope_at(
            level,
            num,
            message,
            ring,
            state.local_print_enabled,
            seconds,
            microseconds,
        );
        state.enqueue_message(envelope)
    }

    /// Logs `num` and `message` at `level`, stamped with the wall clock, to
    /// ring `buffer_id` or, where none is given, to the ring that the level
    /// is routed to. The stamp is what `stamp_of` makes of the reading of
    /// what the clock answered.
    pub fn log_to_buffer(
        &self,
        state: &mut DltUserState,
        level: DltLogLevel,
        num: i32,
        message: &str,
        buffer_id: Option<usize>,
    ) -> (outcome: Result<(), EmitError>)
        requires
            old(state).wf(),
        ensures
            final(state).wf(),
            exists|elapsed: Result<Duration, SystemTimeError>|
                final(state)@ == old(state)@.enqueue(
                    self.envelope(
                        level,
                        num as int,
                        message@,
                        chosen_ring(old(state)@.rings.len(), level, buffer_id),
                        old(state)@.local_print,
                        stamp_of(#[trigger] reading_of(elapsed)).0,
                        stamp_of(reading_of(elapsed)).1,
                    ),
                ),
            outcome == old(state)@.verdict(chosen_ring(old(state)@.rings.len(), level, buffer_id)),
    {
        let now = unix_time();
        let (seconds, microseconds) = stamp(now);
        let outcome = self.log_to_buffer_at(
            state,
            level,
            num,
            message,
            buffer_id,
            seconds,
            microseconds,
        );
        proof {
            let elapsed = choose|elapsed: Result<Duration, SystemTimeError>|
                now == #[trigger] reading_of(elapsed);
            assert((seconds, microseconds) == stamp_of(reading_of(elapsed)));
        }
        outcome
    }

    /// Logs `num` and `message` at `level`, stamped with the wall clock, to
    /// the ring that the level is routed to.
    pub fn log(
        &self,
        state: &mut DltUserState,
        level: DltLogLevel,
        num: i32,
        message: &str,
    ) -> (outcome: Result<(), EmitError>)
        requires
            old(state).wf(),
        ensures
            final(state).wf(),
            exists|elapsed: Result<Duration, SystemTimeError>|
                final(state)@ == old(state)@.enqueue(
                    self.envelope(
                        level,
                        num as int,
                        message@,
                        chosen_ring(old(state)@.rings.len(), level, None),
                        old(state)@.local_print,
                        stamp_of(#[trigger] reading_of(elapsed)).0,
                        stamp_of(reading_of(elapsed)).1,
                    ),
                ),
            outcome == old(state)@.verdict(chosen_ring(old(state)@.rings.len(), level, None)),
    {
        self.log_to_buffer(state, level, num, message, None)
    }
}

} // verus!
