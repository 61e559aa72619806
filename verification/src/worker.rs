//! The worker of one ring: it collects batches, hands their frames to the
//! transport in one vectored write and keeps the counters true to what
//! became of them.

use crate::envelope::{envelope_views, DltLogLevel, LogEnvelope, LogEnvelopeView};
use crate::ring::{batch_len, BufferStats, RingBuffer, RingView};
use crate::text::{decimal_text, nul_trimmed_text, push_decimal};
use crate::transport::{frame_slices, Transport, TransportError};
use vstd::prelude::*;
use vstd::string::StringExecFns;

verus! {

/// The name under which a level appears in a local print line.
pub open spec fn level_label(level: DltLogLevel) -> Seq<char> {
    match level {
        DltLogLevel::Fatal => "Fatal"@,
        DltLogLevel::Error => "Error"@,
        DltLogLevel::Warn => "Warn"@,
        DltLogLevel::Info => "Info"@,
        DltLogLevel::Debug => "Debug"@,
        DltLogLevel::Verbose => "Verbose"@,
    }
}

/// The one-line summary of an envelope that the worker of ring `buffer_id`
/// prints: level, ring, application and context id.
pub open spec fn local_print_text(envelope: LogEnvelopeView, buffer_id: nat) -> Seq<char> {
    "["@ + level_label(envelope.level) + "][Buffer "@ + decimal_text(buffer_id) + "] "@
        + nul_trimmed_text(envelope.app_id.0@) + "."@ + nul_trimmed_text(envelope.ctx_id.0@)
        + ": <log>"@
}

/// The summaries of those envelopes of a batch that ask for local print, in
/// the order of the batch.
pub open spec fn local_print_texts(batch: Seq<LogEnvelopeView>, buffer_id: nat) -> Seq<Seq<char>>
    decreases batch.len(),
{
    if batch.len() == 0 {
        Seq::empty()
    } else if batch.last().local_print {
        local_print_texts(batch.drop_last(), buffer_id).push(
            local_print_text(batch.last(), buffer_id),
        )
    } else {
        local_print_texts(batch.drop_last(), buffer_id)
    }
}

/// The frames of a batch on the wire, in the order of the batch.
pub open spec fn batch_frames(batch: Seq<LogEnvelopeView>) -> Seq<Seq<u8>> {
    Seq::new(batch.len(), |i: int| batch[i].message.wire())
}

/// The texts of a sequence of strings.
pub open spec fn texts_of(lines: Seq<String>) -> Seq<Seq<char>> {
    Seq::new(lines.len(), |i: int| lines[i]@)
}

/// The bytes of a sequence of byte vectors.
pub open spec fn bytes_of(frames: Seq<Vec<u8>>) -> Seq<Seq<u8>> {
    Seq::new(frames.len(), |i: int| frames[i]@)
}

/// Renders the one-line summary of an envelope.
pub fn local_print_line(envelope: &LogEnvelope, buffer_id: usize) -> (line: String)
    ensures
        line@ == local_print_text(envelope@, buffer_id as nat),
{
    let mut line = String::from_str("[");
    let label = match envelope.level {
        DltLogLevel::Fatal => "Fatal",
        DltLogLevel::Error => "Error",
        DltLogLevel::Warn => "Warn",
        DltLogLevel::Info => "Info",
        DltLogLevel::Debug => "Debug",
        DltLogLevel::Verbose => "Verbose",
    };
    line.append(label);
    line.append("][Buffer ");
    push_decimal(&mut line, buffer_id as u64);
    line.append("] ");
    let app = envelope.app_id.as_str();
    line.append(app.as_str());
    line.append(".");
    let ctx = envelope.ctx_id.as_str();
    line.append(ctx.as_str());
    line.append(": <log>");
    line
}

/// What a worker has taken out of its ring for one vectored write.
pub struct Batch {
    /// The envelopes, oldest first.
    pub envelopes: Vec<LogEnvelope>,
    /// Their frames on the wire, one for each envelope, in the same order.
    pub frames: Vec<Vec<u8>>,
    /// The summaries to print, one for each envelope that asks for it.
    pub lines: Vec<String>,
}

/// How one cycle of a worker ended.
#[derive(Debug, Clone, Copy, PartialEq, Eq)]
pub enum CycleOutcome {
    /// Nothing was resident; the ring is open.
    Idle,
    /// Nothing was resident and the ring is closed: the worker is done.
    Finished,
    /// There is no connection and none could be made; the residents stay in
    /// the ring.
    Unconnected,
    /// So many envelopes were written.
    Sent(usize),
    /// The transport could not take the batch now; so many envelopes were
    /// lost, and the batch is not tried again.
    WouldBlock(usize),
    /// The transport failed; so many envelopes were lost, and the worker
    /// connects anew before its next batch.
    TransportDown(usize),
    /// The transport took only a part of the bytes. So many frames went out
    /// whole and count as written; so many, one at least, were cut short or
    /// not begun and are lost. The worker gives the connection up, so that
    /// nothing follows the broken frame on it, and connects anew before its
    /// next batch.
    ShortWrite(usize, usize),
}

/// What a worker is to do next.
#[derive(Debug, Clone, Copy, PartialEq, Eq)]
pub enum CyclePlan {
    /// Nothing is resident and the ring is open: wait for an envelope.
    Idle,
    /// Nothing is resident and the ring is closed: the worker is done.
    Finished,
    /// Envelopes are resident and there is no connection: connect.
    Connect,
    /// Envelopes are resident and there is a connection: take a batch and
    /// write it.
    Collect,
}

/// What `worker` is to do next at `ring`.
pub open spec fn cycle_plan(worker: Worker, ring: RingView) -> CyclePlan {
    if ring.resident.len() == 0 {
        if ring.closed {
            CyclePlan::Finished
        } else {
            CyclePlan::Idle
        }
    } else if worker.connected {
        CyclePlan::Collect
    } else {
        CyclePlan::Connect
    }
}

/// What one cycle of a worker did.
pub struct CycleReport {
    /// How the cycle ended.
    pub outcome: CycleOutcome,
    /// The summaries to print.
    pub lines: Vec<String>,
}

/// The worker of one ring.
#[derive(Debug, Clone, Copy, PartialEq, Eq)]
pub struct Worker {
    /// The index of the ring that the worker drains.
    pub buffer_id: usize,
    /// The largest number of envelopes in one vectored write.
    pub batch_size: usize,
    /// Whether the worker holds a connection.
    pub connected: bool,
}

impl Worker {
    /// A worker without a connection.
    pub fn new(buffer_id: usize, batch_size: usize) -> (worker: Self)
        ensures
            worker == (Worker { buffer_id, batch_size, connected: false }),
    {
        Worker { buffer_id, batch_size, connected: false }
    }

    /// What the worker is to do next at `ring`.
    pub fn plan(&self, ring: &RingBuffer) -> (plan: CyclePlan)
        ensures
            plan == cycle_plan(*self, ring@),
    {
        if ring.len() == 0 {
            if ring.is_closed() {
                CyclePlan::Finished
            } else {
                CyclePlan::Idle
            }
        } else if self.connected {
            CyclePlan::Collect
        } else {
            CyclePlan::Connect
        }
    }

    /// Takes a batch out of the ring: the oldest residents, up to the batch
    /// size and one at least where any is resident, with their frames and
    /// the summaries to print.
    pub fn collect(&self, ring: &mut RingBuffer) -> (batch: Batch)
        requires
            old(ring).wf(),
        ensures
            final(ring).wf(),
            final(ring)@ == old(ring)@.take(
                batch_len(old(ring)@.resident.len(), self.batch_size as nat),
            ),
            envelope_views(batch.envelopes@) == old(ring)@.resident.take(
                batch_len(old(ring)@.resident.len(), self.batch_size as nat) as int,
            ),
            bytes_of(batch.frames@) == batch_frames(envelope_views(batch.envelopes@)),
            texts_of(batch.lines@) == local_print_texts(
                envelope_views(batch.envelopes@),
                self.buffer_id as nat,
            ),
    {
        let envelopes = ring.take_batch(self.batch_size);
        let mut frames: Vec<Vec<u8>> = Vec::new();
        let mut lines: Vec<String> = Vec::new();
        let mut i: usize = 0;
        let ghost views = envelope_views(envelopes@);
        proof {
            assert(views.take(0) =~= Seq::<LogEnvelopeView>::empty());
            assert(texts_of(lines@) =~= local_print_texts(views.take(0), self.buffer_id as nat));
        }
        while i < envelopes.len()
            invariant
                i <= envelopes@.len(),
                views == envelope_views(envelopes@),
                frames@.len() == i,
                forall|k: int|
                    0 <= k < i ==> (#[trigger] frames@[k])@ == envelopes@[k]@.message.wire(),
                texts_of(lines@) == local_print_texts(views.take(i as int), self.buffer_id as nat),
            decreases envelopes@.len() - i,
        {
            let envelope = &envelopes[i];
            frames.push(envelope.message.to_bytes());
            let ghost before = lines@;
            if envelope.local_print {
                lines.push(local_print_line(envelope, self.buffer_id));
            }
            proof {
                let next = views.take(i + 1);
                assert(next.drop_last() =~= views.take(i as int));
                assert(next.last() == envelopes@[i as int]@);
                if envelope.local_print {
                    assert(texts_of(lines@) =~= texts_of(before).push(
                        local_print_text(envelope@, self.buffer_id as nat),
                    ));
                }
            }
            i += 1;
        }
        proof {
            assert(views.take(envelopes@.len() as int) =~= views);
            assert(bytes_of(frames@) =~= batch_frames(views));
        }
        Batch { envelopes, frames, lines }
    }

    /// Accounts for a batch, whose frames are `frames`, after the vectored
    /// write has returned `written`, as `settled` states. A write that took
    /// all the bytes counts the batch as written. A write that took fewer
    /// counts the frames that went out whole as written and the others as
    /// lost, and gives the connection up. A write that would block loses the
    /// batch and keeps the connection; every other error loses the batch and
    /// the connection.
    pub fn settle(
        &mut self,
        ring: &mut RingBuffer,
        frames: &Vec<Vec<u8>>,
        written: Result<usize, TransportError>,
    ) -> (outcome: CycleOutcome)
        requires
            old(ring).wf(),
            frames@.len() <= old(ring)@.stats.in_hand,
        ensures
            final(ring).wf(),
            (*final(self), final(ring)@, outcome) == settled(
                *old(self),
                old(ring)@,
                bytes_of(frames@),
                written,
            ),
    {
        let count = frames.len();
        match written {
            Ok(taken) => {
                let whole = count_whole(frames, taken);
                if whole == count {
                    ring.mark_sent(count);
                    CycleOutcome::Sent(count)
                } else {
                    ring.mark_sent(whole);
                    ring.mark_lost(count - whole);
                    self.connected = false;
                    CycleOutcome::ShortWrite(whole, count - whole)
                }
            },
            Err(TransportError::WouldBlock) => {
                ring.mark_lost(count);
                CycleOutcome::WouldBlock(count)
            },
            Err(_) => {
                ring.mark_lost(count);
                self.connected = false;
                CycleOutcome::TransportDown(count)
            },
        }
    }

    /// One cycle: where envelopes are resident, connect if there is no
    /// connection, take a batch, write its frames in one vectored write and
    /// account for the batch. The outcome says which way the transport let
    /// the cycle go; for each way the ring, the worker and the summaries to
    /// print are as `cycle_result` and `cycle_lines` state.
    pub fn run_cycle<T: Transport>(
        &mut self,
        ring: &mut RingBuffer,
        transport: &mut T,
    ) -> (report: CycleReport)
        requires
            old(ring).wf(),
        ensures
            final(ring).wf(),
            cycle_possible(*old(self), old(ring)@, report.outcome),
            (*final(self), final(ring)@) == cycle_result(*old(self), old(ring)@, report.outcome),
            texts_of(report.lines@) == cycle_lines(*old(self), old(ring)@, report.outcome),
    {
        if ring.len() == 0 {
            let outcome = if ring.is_closed() {
                CycleOutcome::Finished
            } else {
                CycleOutcome::Idle
            };
            let lines: Vec<String> = Vec::new();
            assert(texts_of(lines@) =~= Seq::<Seq<char>>::empty());
            return CycleReport { outcome, lines };
        }
        if !self.connected {
            match transport.connect() {
                Ok(()) => {
                    self.connected = true;
                },
                Err(_) => {
                    let lines: Vec<String> = Vec::new();
                    assert(texts_of(lines@) =~= Seq::<Seq<char>>::empty());
                    return CycleReport { outcome: CycleOutcome::Unconnected, lines };
                },
            }
        }
        let batch = self.collect(ring);
        let count = batch.envelopes.len();
        let slices = frame_slices(&batch.frames);
        let written = transport.writev(slices.as_slice());
        proof {
            let views = envelope_views(batch.envelopes@);
            assert(bytes_of(batch.frames@).len() == batch.frames@.len());
            assert(batch_frames(views).len() == batch.envelopes@.len());
            assert(views.len() == batch.envelopes@.len());
            if let Ok(taken) = written {
                lemma_whole_frames_bound(bytes_of(batch.frames@), taken as nat);
            }
        }
        let outcome = self.settle(ring, &batch.frames, written);
        CycleReport { outcome, lines: batch.lines }
    }
}

/// How many of `frames`, from the first on, lie wholly within the first
/// `written` bytes of the frames taken together.
pub open spec fn whole_frames(frames: Seq<Seq<u8>>, written: nat) -> nat
    decreases frames.len(),
{
    if frames.len() == 0 {
        0
    } else if frames[0].len() <= written {
        1 + whole_frames(frames.drop_first(), (written - frames[0].len()) as nat)
    } else {
        0
    }
}

/// No more frames lie within the written bytes than there are.
pub proof fn lemma_whole_frames_bound(frames: Seq<Seq<u8>>, written: nat)
    ensures
        whole_frames(frames, written) <= frames.len(),
    decreases frames.len(),
{
    if frames.len() > 0 && frames[0].len() <= written {
        lemma_whole_frames_bound(frames.drop_first(), (written - frames[0].len()) as nat);
    }
}

/// Counts the frames that lie wholly within the first `written` bytes.
pub fn count_whole(frames: &Vec<Vec<u8>>, written: usize) -> (whole: usize)
    ensures
        whole == whole_frames(bytes_of(frames@), written as nat),
        whole <= frames@.len(),
{
    let ghost all = bytes_of(frames@);
    let mut whole: usize = 0;
    let mut left: usize = written;
    proof {
        assert(all.skip(0) =~= all);
    }
    while whole < frames.len() && frames[whole].len() <= left
        invariant
            all == bytes_of(frames@),
            whole <= frames@.len(),
            whole_frames(all, written as nat) == whole + whole_frames(
                all.skip(whole as int),
                left as nat,
            ),
        decreases frames@.len() - whole,
    {
        proof {
            let rest = all.skip(whole as int);
            assert(rest[0] == frames@[whole as int]@);
            assert(rest.drop_first() =~= all.skip(whole + 1));
        }
        left = left - frames[whole].len();
        whole = whole + 1;
    }
    proof {
        let rest = all.skip(whole as int);
        if whole < frames@.len() {
            assert(rest[0] == frames@[whole as int]@);
        }
    }
    whole
}

/// The worker, the ring and the outcome after a batch with the given frames
/// has been accounted for, given what the vectored write returned. A write
/// that took all the bytes, or more than there were, counts every frame as
/// written. A write that took fewer counts the frames that went out whole as
/// written and the others as lost, and leaves the worker without a
/// connection. A write that would block loses every frame and keeps the
/// connection; every other error loses every frame and the connection.
pub open spec fn settled(
    worker: Worker,
    ring: RingView,
    frames: Seq<Seq<u8>>,
    written: Result<usize, TransportError>,
) -> (Worker, RingView, CycleOutcome) {
    let count = frames.len();
    let down = Worker {
        buffer_id: worker.buffer_id,
        batch_size: worker.batch_size,
        connected: false,
    };
    match written {
        Ok(taken) => {
            let whole = whole_frames(frames, taken as nat);
            if whole == count {
                (worker, ring.settle_sent(count), CycleOutcome::Sent(count as usize))
            } else {
                (
                    down,
                    ring.settle_sent(whole).settle_lost((count - whole) as nat),
                    CycleOutcome::ShortWrite(whole as usize, (count - whole) as usize),
                )
            }
        },
        Err(TransportError::WouldBlock) => (
            worker,
            ring.settle_lost(count),
            CycleOutcome::WouldBlock(count as usize),
        ),
        Err(_) => (down, ring.settle_lost(count), CycleOutcome::TransportDown(count as usize)),
    }
}

/// Whether a cycle of `worker` at `ring` can end in `outcome`: an empty ring
/// gives `Finished` where it is closed and `Idle` where it is open; at a ring
/// with residents the transport decides, but a worker that holds a
/// connection is never `Unconnected`, and a batch has the length that
/// `batch_len` gives.
pub open spec fn cycle_possible(worker: Worker, ring: RingView, outcome: CycleOutcome) -> bool {
    if ring.resident.len() == 0 {
        outcome == if ring.closed {
            CycleOutcome::Finished
        } else {
            CycleOutcome::Idle
        }
    } else {
        match outcome {
            CycleOutcome::Idle => false,
            CycleOutcome::Finished => false,
            CycleOutcome::Unconnected => !worker.connected,
            CycleOutcome::Sent(count) => count == batch_len(
                ring.resident.len(),
                worker.batch_size as nat,
            ),
            CycleOutcome::WouldBlock(count) => count == batch_len(
                ring.resident.len(),
                worker.batch_size as nat,
            ),
            CycleOutcome::TransportDown(count) => count == batch_len(
                ring.resident.len(),
                worker.batch_size as nat,
            ),
            CycleOutcome::ShortWrite(sent, lost) => lost >= 1 && sent + lost == batch_len(
                ring.resident.len(),
                worker.batch_size as nat,
            ),
        }
    }
}

/// The worker and the ring after a cycle that ended in `outcome`. Without a
/// batch both stay as they are. A batch leaves the ring and is counted as
/// sent or as lost, frame by frame; the worker holds a connection afterwards
/// unless the transport failed or took only a part of the bytes.
pub open spec fn cycle_result(worker: Worker, ring: RingView, outcome: CycleOutcome) -> (
    Worker,
    RingView,
) {
    match outcome {
        CycleOutcome::Idle => (worker, ring),
        CycleOutcome::Finished => (worker, ring),
        CycleOutcome::Unconnected => (worker, ring),
        CycleOutcome::Sent(count) => (
            Worker { buffer_id: worker.buffer_id, batch_size: worker.batch_size, connected: true },
            ring.take(count as nat).settle_sent(count as nat),
        ),
        CycleOutcome::WouldBlock(count) => (
            Worker { buffer_id: worker.buffer_id, batch_size: worker.batch_size, connected: true },
            ring.take(count as nat).settle_lost(count as nat),
        ),
        CycleOutcome::TransportDown(count) => (
            Worker { buffer_id: worker.buffer_id, batch_size: worker.batch_size, connected: false },
            ring.take(count as nat).settle_lost(count as nat),
        ),
        CycleOutcome::ShortWrite(sent, lost) => (
            Worker { buffer_id: worker.buffer_id, batch_size: worker.batch_size, connected: false },
            ring.take((sent + lost) as nat).settle_sent(sent as nat).settle_lost(lost as nat),
        ),
    }
}

/// The summaries that a cycle hands out for printing: those of its batch,
/// none where it took no batch.
pub open spec fn cycle_lines(worker: Worker, ring: RingView, outcome: CycleOutcome) -> Seq<
    Seq<char>,
> {
    match outcome {
        CycleOutcome::Idle => Seq::empty(),
        CycleOutcome::Finished => Seq::empty(),
        CycleOutcome::Unconnected => Seq::empty(),
        _ => local_print_texts(
            ring.resident.take(
                batch_len(ring.resident.len(), worker.batch_size as nat) as int,
            ),
            worker.buffer_id as nat,
        ),
    }
}

/// The ring after `cycles` cycles in a row of a worker with batch size
/// `batch`, each of which ended in a write of all its bytes.
pub open spec fn after_writes(ring: RingView, batch: nat, cycles: nat) -> RingView
    decreases cycles,
{
    if cycles == 0 {
        ring
    } else {
        let count = batch_len(ring.resident.len(), batch);
        after_writes(ring.take(count).settle_sent(count), batch, (cycles - 1) as nat)
    }
}

/// The envelopes that the cycle of the given index, counted from zero, hands
/// to its vectored write in such a run.
pub open spec fn written_batch(ring: RingView, batch: nat, index: nat) -> Seq<LogEnvelopeView> {
    let before = after_writes(ring, batch, index);
    before.resident.take(batch_len(before.resident.len(), batch) as int)
}

/// One step of `after_writes` is one cycle of the worker that ends in `Sent`.
pub proof fn lemma_write_cycle(worker: Worker, ring: RingView, count: usize)
    requires
        ring.resident.len() > 0,
        cycle_possible(worker, ring, CycleOutcome::Sent(count)),
    ensures
        cycle_result(worker, ring, CycleOutcome::Sent(count)).1 == after_writes(
            ring,
            worker.batch_size as nat,
            1,
        ),
        cycle_lines(worker, ring, CycleOutcome::Sent(count)) == local_print_texts(
            written_batch(ring, worker.batch_size as nat, 0),
            worker.buffer_id as nat,
        ),
{
    let batch = worker.batch_size as nat;
    let step = ring.take(count as nat).settle_sent(count as nat);
    assert(after_writes(step, batch, 0) == step);
    assert(after_writes(ring, batch, 1) == step);
    assert(after_writes(ring, batch, 0) == ring);
}

/// With a batch size of one, a run of cycles whose writes all succeed writes
/// the residents one frame at a time in the order in which the ring hands
/// them out: the cycle of index `j` carries the resident of index `j` and no
/// other; after `cycles` cycles those residents have left the ring and the
/// sent counter has gone up by `cycles`, with every other counter as it was.
pub proof fn lemma_batch_of_one_run(ring: RingView, cycles: nat)
    requires
        ring.wf(),
        ring.stats.enqueued < u64::MAX,
        cycles <= ring.resident.len(),
    ensures
        forall|j: nat|
            j < cycles ==> #[trigger] written_batch(ring, 1, j) == seq![ring.resident[j as int]],
        after_writes(ring, 1, cycles) == (RingView {
            capacity: ring.capacity,
            resident: ring.resident.skip(cycles as int),
            stats: BufferStats {
                enqueued: ring.stats.enqueued,
                dropped: ring.stats.dropped,
                lost: ring.stats.lost,
                sent: (ring.stats.sent + cycles) as u64,
                in_hand: ring.stats.in_hand,
            },
            closed: ring.closed,
        }),
        after_writes(ring, 1, cycles).wf(),
    decreases cycles,
{
    if cycles == 0 {
        assert(ring.resident.skip(0) =~= ring.resident);
    } else {
        let step = ring.take(1).settle_sent(1);
        assert(batch_len(ring.resident.len(), 1) == 1);
        assert(step.wf());
        lemma_batch_of_one_run(step, (cycles - 1) as nat);
        assert(after_writes(ring, 1, cycles) == after_writes(step, 1, (cycles - 1) as nat));
        assert(step.resident.skip(cycles - 1) =~= ring.resident.skip(cycles as int));
        assert forall|j: nat| j < cycles implies #[trigger] written_batch(ring, 1, j) == seq![
            ring.resident[j as int],
        ] by {
            if j == 0 {
                assert(after_writes(ring, 1, 0) == ring);
                assert(ring.resident.take(1) =~= seq![ring.resident[0]]);
            } else {
                let before = (j - 1) as nat;
                lemma_after_writes_shift(ring, 1, before);
                assert(written_batch(ring, 1, j) == written_batch(step, 1, before));
                assert(step.resident[before as int] == ring.resident[j as int]);
            }
        }
    }
}

/// A run of cycles is its first cycle followed by the run of the others.
pub proof fn lemma_after_writes_shift(ring: RingView, batch: nat, cycles: nat)
    ensures
        after_writes(ring, batch, cycles + 1) == after_writes(
            ring.take(batch_len(ring.resident.len(), batch)).settle_sent(
                batch_len(ring.resident.len(), batch),
            ),
            batch,
            cycles,
        ),
{
}

/// With a batch size of one every vectored write holds exactly one frame.
pub proof fn lemma_batch_of_one(resident: nat)
    requires
        resident > 0,
    ensures
        batch_len(resident, 1) == 1,
{
}

/// A batch holds one envelope at least and no more than the batch size
/// (taken as one where it is zero), nor more than are resident.
pub proof fn lemma_batch_bounds(resident: nat, max: nat)
    requires
        resident > 0,
    ensures
        1 <= batch_len(resident, max) <= resident,
        max > 0 ==> batch_len(resident, max) <= max,
{
}

} // verus!
