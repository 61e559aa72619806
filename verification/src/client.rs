//! The subscriber's side: cutting a byte stream into frames and rendering a
//! frame as a line of text.

use crate::bytes::{append_bytes, lemma_u16_le_round_trip, read_u16_le, u16_from_le, u16_le};
use crate::protocol::{
    decode_frame, lemma_standard_header_round_trip, lemma_storage_header_round_trip,
    lemma_well_formed_round_trip, storage_pattern, DltMessage, DltMessageView,
};
use crate::text::{
    decimal_text, nul_trimmed_text, pad_end, pad_start, push_decimal, push_decimal_padded,
    push_left_aligned, text_of_padded,
};
use crate::transport::{Transport, TransportError};
use chrono::{Datelike, Timelike};
use std::time::{Duration, UNIX_EPOCH};
use vstd::prelude::*;
use vstd::slice::slice_subrange;
use vstd::string::StringExecFns;

verus! {

/// What stands at the head of a byte stream.
pub enum StreamHead {
    /// Too few bytes to tell, or a frame that is not yet complete: the bytes
    /// stay pending.
    Pending,
    /// No frame starts here: one byte is skipped.
    Skip,
    /// A frame of so many bytes.
    Frame(DltMessageView, nat),
}

/// What stands at the head of `stream`. Under twenty bytes nothing can be
/// told. Where the storage pattern is missing a byte is skipped. Otherwise
/// the frame takes sixteen bytes and what the length field at offset 18
/// declares; it is pending until that many bytes are there, and a candidate
/// that does not decode costs one byte.
pub open spec fn stream_head(stream: Seq<u8>) -> StreamHead {
    if stream.len() < 20 {
        StreamHead::Pending
    } else if stream.subrange(0, 4) != storage_pattern() {
        StreamHead::Skip
    } else if stream.len() < 16 + u16_from_le(stream[18], stream[19]) {
        StreamHead::Pending
    } else {
        match decode_frame(stream.subrange(0, 16 + u16_from_le(stream[18], stream[19]))) {
            Ok(frame) => StreamHead::Frame(
                frame,
                (16 + u16_from_le(stream[18], stream[19])) as nat,
            ),
            Err(_) => StreamHead::Skip,
        }
    }
}

/// The frames that `stream` holds, in order.
pub open spec fn frames_in(stream: Seq<u8>) -> Seq<DltMessageView>
    decreases stream.len(),
{
    match stream_head(stream) {
        StreamHead::Pending => Seq::empty(),
        StreamHead::Skip => frames_in(stream.skip(1)),
        StreamHead::Frame(frame, length) => seq![frame] + frames_in(stream.skip(length as int)),
    }
}

/// The bytes of `stream` that stay pending once its frames are taken out.
pub open spec fn pending_after(stream: Seq<u8>) -> Seq<u8>
    decreases stream.len(),
{
    match stream_head(stream) {
        StreamHead::Pending => stream,
        StreamHead::Skip => pending_after(stream.skip(1)),
        StreamHead::Frame(frame, length) => pending_after(stream.skip(length as int)),
    }
}

/// The views of a sequence of frames.
pub open spec fn message_views(frames: Seq<DltMessage>) -> Seq<DltMessageView> {
    Seq::new(frames.len(), |i: int| frames[i]@)
}

/// What the scan of the head of a stream found.
pub enum HeadScan {
    /// The bytes stay pending.
    Pending,
    /// One byte is to be skipped.
    Skip,
    /// A frame, and its length in bytes.
    Frame(DltMessage, usize),
}

/// Scans the head of `stream`.
pub fn scan_head(stream: &[u8]) -> (scan: HeadScan)
    ensures
        match scan {
            HeadScan::Pending => stream_head(stream@) is Pending,
            HeadScan::Skip => stream_head(stream@) is Skip && stream@.len() >= 20,
            HeadScan::Frame(frame, length) => stream_head(stream@) == StreamHead::Frame(
                frame@,
                length as nat,
            ) && 16 <= length <= stream@.len(),
        },
{
    if stream.len() < 20 {
        return HeadScan::Pending;
    }
    if stream[0] != 0x44 || stream[1] != 0x4c || stream[2] != 0x54 || stream[3] != 0x01 {
        proof {
            assert(stream@.subrange(0, 4)[0] == stream@[0]);
            assert(stream@.subrange(0, 4)[1] == stream@[1]);
            assert(stream@.subrange(0, 4)[2] == stream@[2]);
            assert(stream@.subrange(0, 4)[3] == stream@[3]);
        }
        return HeadScan::Skip;
    }
    proof {
        assert(stream@.subrange(0, 4) =~= storage_pattern());
    }
    let declared: usize = read_u16_le(stream[18], stream[19]) as usize;
    let length: usize = 16 + declared;
    if stream.len() < length {
        return HeadScan::Pending;
    }
    match DltMessage::decode(slice_subrange(stream, 0, length)) {
        Ok(frame) => HeadScan::Frame(frame, length),
        Err(_) => HeadScan::Skip,
    }
}

/// Takes the complete frames out of `pending` and leaves what is not yet a
/// frame.
pub fn take_frames(pending: &mut Vec<u8>) -> (frames: Vec<DltMessage>)
    ensures
        message_views(frames@) == frames_in(old(pending)@),
        final(pending)@ == pending_after(old(pending)@),
{
    let mut frames: Vec<DltMessage> = Vec::new();
    let total = pending.len();
    let mut offset: usize = 0;
    proof {
        assert(pending@.skip(0) =~= pending@);
        assert(message_views(frames@) =~= Seq::<DltMessageView>::empty());
    }
    loop
        invariant
            pending@ == old(pending)@,
            total == pending@.len(),
            offset <= total,
            frames_in(pending@) == message_views(frames@) + frames_in(pending@.skip(offset as int)),
            pending_after(pending@) == pending_after(pending@.skip(offset as int)),
        ensures
            pending@ == old(pending)@,
            total == pending@.len(),
            offset <= total,
            stream_head(pending@.skip(offset as int)) is Pending,
            frames_in(pending@) == message_views(frames@) + frames_in(pending@.skip(offset as int)),
            pending_after(pending@) == pending_after(pending@.skip(offset as int)),
        decreases total - offset,
    {
        let ghost rest = pending@.skip(offset as int);
        let stream = slice_subrange(pending.as_slice(), offset, total);
        proof {
            assert(stream@ =~= rest);
        }
        match scan_head(stream) {
            HeadScan::Pending => {
                break;
            },
            HeadScan::Skip => {
                proof {
                    assert(rest.skip(1) =~= pending@.skip(offset + 1));
                }
                offset += 1;
            },
            HeadScan::Frame(frame, length) => {
                proof {
                    assert(rest.skip(length as int) =~= pending@.skip(offset + length));
                    assert(message_views(frames@.push(frame)) =~= message_views(frames@) + seq![
                        frame@,
                    ]);
                }
                frames.push(frame);
                offset += length;
            },
        }
    }
    if offset > 0 {
        let mut rest: Vec<u8> = Vec::new();
        append_bytes(&mut rest, slice_subrange(pending.as_slice(), offset, total));
        proof {
            assert(rest@ =~= pending@.skip(offset as int));
        }
        *pending = rest;
    } else {
        proof {
            assert(pending@.skip(0) =~= pending@);
        }
    }
    frames
}

/// The byte stream that `frames` make, one after the other.
pub open spec fn stream_of(frames: Seq<DltMessageView>) -> Seq<u8>
    decreases frames.len(),
{
    if frames.len() == 0 {
        Seq::empty()
    } else {
        frames[0].wire() + stream_of(frames.drop_first())
    }
}

/// Framing is kept: a stream of well-formed frames, written one after the
/// other, is cut into those frames, in their order, and nothing stays
/// pending.
pub proof fn lemma_stream_round_trip(frames: Seq<DltMessageView>)
    requires
        forall|i: int| 0 <= i < frames.len() ==> (#[trigger] frames[i]).well_formed(),
    ensures
        frames_in(stream_of(frames)) == frames,
        pending_after(stream_of(frames)) == Seq::<u8>::empty(),
    decreases frames.len(),
{
    if frames.len() > 0 {
        let first = frames[0];
        let rest = frames.drop_first();
        let stream = stream_of(frames);
        let wire = first.wire();
        assert(first.well_formed());
        assert forall|i: int| 0 <= i < rest.len() implies (#[trigger] rest[i]).well_formed() by {
            assert(rest[i] == frames[i + 1]);
        }
        lemma_stream_round_trip(rest);
        lemma_well_formed_round_trip(first);
        lemma_storage_header_round_trip(first.storage_header);
        lemma_standard_header_round_trip(first.standard_header);
        lemma_u16_le_round_trip(first.standard_header.len);
        let length = 16 + first.standard_header.len;
        assert(wire.len() == 20 + first.extended_wire().len() + first.payload.len());
        assert(wire.len() == length);
        assert(stream.subrange(0, 4) =~= first.storage_header.pattern@);
        assert(stream[18] == u16_le(first.standard_header.len)[0]);
        assert(stream[19] == u16_le(first.standard_header.len)[1]);
        assert(stream.subrange(0, length) =~= wire);
        assert(stream.skip(length) =~= stream_of(rest));
        assert(stream_head(stream) == StreamHead::Frame(first, length as nat));
        assert(frames_in(stream) =~= frames);
    } else {
        assert(stream_head(stream_of(frames)) is Pending);
    }
}

/// What stands at the head of a stream, once it can be told, does not
/// change when more bytes follow.
pub proof fn lemma_head_is_settled(stream: Seq<u8>, more: Seq<u8>)
    requires
        !(stream_head(stream) is Pending),
    ensures
        stream_head(stream + more) == stream_head(stream),
{
    let longer = stream + more;
    assert(longer.subrange(0, 4) =~= stream.subrange(0, 4));
    assert(longer[18] == stream[18]);
    assert(longer[19] == stream[19]);
    if stream.subrange(0, 4) == storage_pattern() {
        let length = 16 + u16_from_le(stream[18], stream[19]);
        assert(longer.subrange(0, length) =~= stream.subrange(0, length));
    }
}

/// Chunk boundaries do not matter: the frames of a stream that comes in two
/// parts are the frames of the first part, followed by the frames of what
/// the first part left pending together with the second part; and the same
/// bytes stay pending in the end.
pub proof fn lemma_chunking(first: Seq<u8>, second: Seq<u8>)
    ensures
        frames_in(first + second) == frames_in(first) + frames_in(pending_after(first) + second),
        pending_after(first + second) == pending_after(pending_after(first) + second),
    decreases first.len(),
{
    let whole = first + second;
    match stream_head(first) {
        StreamHead::Pending => {
            assert(frames_in(first) + frames_in(first + second) =~= frames_in(first + second));
        },
        StreamHead::Skip => {
            lemma_head_is_settled(first, second);
            assert(whole.skip(1) =~= first.skip(1) + second);
            lemma_chunking(first.skip(1), second);
        },
        StreamHead::Frame(frame, length) => {
            lemma_head_is_settled(first, second);
            assert(whole.skip(length as int) =~= first.skip(length as int) + second);
            lemma_chunking(first.skip(length as int), second);
            assert(frames_in(whole) =~= frames_in(first) + frames_in(
                pending_after(first) + second,
            ));
        },
    }
}

/// What feeding `chunk` to a reader with `pending` bytes gives: the frames
/// that are now complete, and the bytes that stay pending.
pub open spec fn fed(pending: Seq<u8>, chunk: Seq<u8>) -> (Seq<DltMessageView>, Seq<u8>) {
    (frames_in(pending + chunk), pending_after(pending + chunk))
}

/// What a reader hands out, with each frame as a mathematical value.
pub open spec fn received_views(
    received: Result<Vec<DltMessage>, TransportError>,
) -> Result<Seq<DltMessageView>, TransportError> {
    match received {
        Ok(frames) => Ok(message_views(frames@)),
        Err(error) => Err(error),
    }
}

/// The size of the scratch buffer that a reader hands to its transport.
pub const SCRATCH_BYTES: usize = 65536;

/// A reader of frames from a transport.
pub struct DltClient<T: Transport> {
    transport: T,
    buffer: Vec<u8>,
    pending_data: Vec<u8>,
}

impl<T: Transport> DltClient<T> {
    /// The bytes that were read and are not yet a frame.
    pub closed spec fn pending(&self) -> Seq<u8> {
        self.pending_data@
    }

    /// The scratch buffer that the transport reads into.
    pub closed spec fn scratch(&self) -> Seq<u8> {
        self.buffer@
    }

    /// A reader on `transport`, which the caller has connected, with nothing
    /// pending and a scratch buffer of 65536 zero bytes for the transport to
    /// read into.
    pub fn with_transport(transport: T) -> (client: Self)
        ensures
            client.pending() == Seq::<u8>::empty(),
            client.scratch() == Seq::new(SCRATCH_BYTES as nat, |i: int| 0u8),
    {
        let buffer = vec![0u8; SCRATCH_BYTES];
        assert(buffer@ =~= Seq::new(SCRATCH_BYTES as nat, |i: int| 0u8));
        DltClient { transport, buffer, pending_data: Vec::new() }
    }

    /// Appends `chunk` to the pending bytes and takes out the frames that
    /// are now complete.
    pub fn accept_chunk(&mut self, chunk: &[u8]) -> (frames: Vec<DltMessage>)
        ensures
            (message_views(frames@), final(self).pending()) == fed(old(self).pending(), chunk@),
    {
        append_bytes(&mut self.pending_data, chunk);
        take_frames(&mut self.pending_data)
    }

    /// What a read from the transport ends in, given the bytes that were
    /// pending, the scratch buffer after the read and what the transport
    /// answered. A count of zero is the end of the stream: no frames, and the
    /// pending bytes stay. Any other count feeds that many bytes from the
    /// front of the scratch buffer, and no more than the buffer holds. An
    /// error is handed on and the pending bytes stay.
    pub open spec fn read_outcome(
        pending: Seq<u8>,
        scratch: Seq<u8>,
        read: Result<usize, TransportError>,
    ) -> (Result<Seq<DltMessageView>, TransportError>, Seq<u8>) {
        match read {
            Ok(count) => if count == 0 {
                (Ok(Seq::empty()), pending)
            } else if count <= scratch.len() {
                (Ok(fed(pending, scratch.take(count as int)).0), fed(
                    pending,
                    scratch.take(count as int),
                ).1)
            } else {
                (Ok(fed(pending, scratch).0), fed(pending, scratch).1)
            },
            Err(error) => (Err(error), pending),
        }
    }

    /// What the caller of `send_control_message` is told, given what the
    /// transport answered: success whatever the number of bytes taken, and
    /// the transport's error as it is.
    pub open spec fn send_outcome(sent: Result<usize, TransportError>) -> Result<
        (),
        TransportError,
    > {
        match sent {
            Ok(_) => Ok(()),
            Err(error) => Err(error),
        }
    }

    /// Takes up what a read from the transport into the scratch buffer ended
    /// in: the frames that the bytes read complete, or the transport's error.
    pub fn after_read(&mut self, read: Result<usize, TransportError>) -> (received: Result<
        Vec<DltMessage>,
        TransportError,
    >)
        ensures
            final(self).scratch() == old(self).scratch(),
            (received_views(received), final(self).pending()) == Self::read_outcome(
                old(self).pending(),
                old(self).scratch(),
                read,
            ),
    {
        match read {
            Ok(count) => {
                if count == 0 {
                    let frames: Vec<DltMessage> = Vec::new();
                    assert(message_views(frames@) =~= Seq::<DltMessageView>::empty());
                    return Ok(frames);
                }
                let taken = if count <= self.buffer.len() {
                    count
                } else {
                    self.buffer.len()
                };
                let chunk = slice_subrange(self.buffer.as_slice(), 0, taken);
                proof {
                    assert(chunk@ =~= self.buffer@.take(taken as int));
                    assert(self.buffer@.take(self.buffer@.len() as int) =~= self.buffer@);
                }
                append_bytes(&mut self.pending_data, chunk);
                let frames = take_frames(&mut self.pending_data);
                Ok(frames)
            },
            Err(error) => Err(error),
        }
    }

    /// Takes up what a send to the transport ended in.
    pub fn after_send(sent: Result<usize, TransportError>) -> (outcome: Result<
        (),
        TransportError,
    >)
        ensures
            outcome == Self::send_outcome(sent),
    {
        match sent {
            Ok(_) => Ok(()),
            Err(error) => Err(error),
        }
    }

    /// Reads once from the transport into the scratch buffer and returns the
    /// frames that the bytes read complete. What comes back is what
    /// `read_outcome` gives for the transport's answer and for the scratch
    /// buffer as the read left it: a read of no bytes, which is the end of
    /// the stream, gives no frames and leaves the pending bytes; so does an
    /// error, which is handed on.
    pub fn receive_messages(&mut self) -> (received: Result<Vec<DltMessage>, TransportError>)
        ensures
            exists|read: Result<usize, TransportError>|
                (received_views(received), final(self).pending()) == #[trigger] Self::read_outcome(
                    old(self).pending(),
                    final(self).scratch(),
                    read,
                ),
    {
        let read = self.transport.receive(self.buffer.as_mut_slice());
        let ghost before = self.pending();
        let received = self.after_read(read);
        proof {
            assert(before == old(self).pending());
            assert((received_views(received), self.pending()) == Self::read_outcome(
                old(self).pending(),
                self.scratch(),
                read,
            ));
        }
        received
    }

    /// Sends `data` to the peer; how many bytes the transport took is not
    /// looked at. The caller is told what `send_outcome` makes of the
    /// transport's answer; nothing of what was read changes.
    pub fn send_control_message(&mut self, data: &[u8]) -> (sent: Result<(), TransportError>)
        ensures
            final(self).pending() == old(self).pending(),
    {
        Self::after_send(self.transport.send(data))
    }
}

/// A point in time as a calendar date and a time of day.
#[derive(Debug, Clone, Copy, PartialEq, Eq)]
pub struct CivilTime {
    pub year: i32,
    pub month: u32,
    pub day: u32,
    pub hour: u32,
    pub minute: u32,
    pub second: u32,
}

/// Converts seconds since the Unix epoch with `chrono::DateTime::<Local>::from`
/// and reads the calendar fields of the result. It depends on the time zone
/// of the machine. Believed, not proved: the ranges that chrono documents for
/// month, day, hour, minute and second.
#[verifier::external_body]
fn local_civil_time(seconds: u32) -> (time: CivilTime)
    ensures
        1 <= time.month <= 12,
        1 <= time.day <= 31,
        time.hour <= 23,
        time.minute <= 59,
        time.second <= 59,
{
    let at = chrono::DateTime::<chrono::Local>::from(
        UNIX_EPOCH + Duration::from_secs(seconds as u64),
    );
    CivilTime {
        year: at.year(),
        month: at.month(),
        day: at.day(),
        hour: at.hour(),
        minute: at.minute(),
        second: at.second(),
    }
}

/// A number in two digits at least.
pub open spec fn two_digits(number: nat) -> Seq<char> {
    pad_start(decimal_text(number), 2, '0')
}

/// A year in four digits at least, with a minus sign where it is negative.
pub open spec fn year_text(year: int) -> Seq<char> {
    if year < 0 {
        "-"@ + pad_start(decimal_text((-year) as nat), 4, '0')
    } else {
        pad_start(decimal_text(year as nat), 4, '0')
    }
}

/// Date and time of day as `YYYY/MM/DD HH:MM:SS`.
pub open spec fn date_text(time: CivilTime) -> Seq<char> {
    year_text(time.year as int) + "/"@ + two_digits(time.month as nat) + "/"@ + two_digits(
        time.day as nat,
    ) + " "@ + two_digits(time.hour as nat) + ":"@ + two_digits(time.minute as nat) + ":"@
        + two_digits(time.second as nat)
}

/// The text of the string argument of a payload; empty where the payload has
/// no seventh byte.
pub open spec fn payload_string(payload: Seq<u8>) -> Seq<char> {
    if payload.len() > 6 {
        nul_trimmed_text(payload.skip(6))
    } else {
        Seq::empty()
    }
}

/// The line that stands for a frame. With an extended header: date and time,
/// a dot and the microseconds in six digits, three spaces, the seconds
/// right-aligned in ten columns, the message counter in three digits, the
/// ECU id, application and context id left-aligned in four columns each, the
/// words `log warn V`, the number of arguments and the payload text in square
/// brackets. Without one: the seconds in square brackets and a remark.
pub open spec fn message_text(frame: DltMessageView, time: CivilTime) -> Seq<char> {
    match frame.extended_header {
        Some(extended) => date_text(time) + "."@ + pad_start(
            decimal_text(frame.storage_header.microseconds as nat),
            6,
            '0',
        ) + "   "@ + pad_start(decimal_text(frame.storage_header.seconds as nat), 10, ' ') + " "@
            + pad_start(decimal_text(frame.standard_header.mcnt as nat), 3, '0') + " "@
            + nul_trimmed_text(frame.storage_header.ecu.0@) + " "@ + pad_end(
            nul_trimmed_text(extended.apid.0@),
            4,
            ' ',
        ) + " "@ + pad_end(nul_trimmed_text(extended.ctid.0@), 4, ' ') + " log warn V "@
            + decimal_text(extended.noar as nat) + " ["@ + payload_string(frame.payload) + "]"@,
        None => "["@ + decimal_text(frame.storage_header.seconds as nat)
            + "] <no extended header>"@,
    }
}

/// A year in four digits at least.
fn year_string(year: i32) -> (text: String)
    ensures
        text@ == year_text(year as int),
{
    proof {
        reveal_strlit("0");
    }
    if year < 0 {
        let mut text = String::from_str("-");
        push_decimal_padded(&mut text, (-(year as i64)) as u64, 4, "0");
        text
    } else {
        let mut text = String::new();
        push_decimal_padded(&mut text, year as u64, 4, "0");
        assert(text@ =~= year_text(year as int));
        text
    }
}

/// Date and time of day as text.
pub fn date_string(time: &CivilTime) -> (text: String)
    ensures
        text@ == date_text(*time),
{
    proof {
        reveal_strlit("0");
    }
    let mut text = year_string(time.year);
    text.append("/");
    push_decimal_padded(&mut text, time.month as u64, 2, "0");
    text.append("/");
    push_decimal_padded(&mut text, time.day as u64, 2, "0");
    text.append(" ");
    push_decimal_padded(&mut text, time.hour as u64, 2, "0");
    text.append(":");
    push_decimal_padded(&mut text, time.minute as u64, 2, "0");
    text.append(":");
    push_decimal_padded(&mut text, time.second as u64, 2, "0");
    text
}

/// The text of the string argument of a frame, empty where it has none.
fn payload_text_of(msg: &DltMessage) -> (text: String)
    ensures
        text@ == payload_string(msg@.payload),
{
    match msg.extract_string_payload() {
        Some(text) => text,
        None => String::new(),
    }
}

/// Renders a frame as a line of text, with the given date and time for its
/// time stamp.
pub fn render_message(msg: &DltMessage, time: &CivilTime) -> (line: String)
    ensures
        line@ == message_text(msg@, *time),
{
    proof {
        reveal_strlit("0");
        reveal_strlit(" ");
    }
    match &msg.extended_header {
        Some(extended) => {
            let mut line = date_string(time);
            line.append(".");
            push_decimal_padded(&mut line, msg.storage_header.microseconds as u64, 6, "0");
            line.append("   ");
            push_decimal_padded(&mut line, msg.storage_header.seconds as u64, 10, " ");
            line.append(" ");
            push_decimal_padded(&mut line, msg.standard_header.mcnt as u64, 3, "0");
            line.append(" ");
            let ecu = text_of_padded(msg.storage_header.ecu.0.as_slice());
            line.append(ecu.as_str());
            line.append(" ");
            let apid = extended.apid.as_str();
            push_left_aligned(&mut line, apid.as_str(), 4);
            line.append(" ");
            let ctid = extended.ctid.as_str();
            push_left_aligned(&mut line, ctid.as_str(), 4);
            line.append(" log warn V ");
            push_decimal(&mut line, extended.noar as u64);
            line.append(" [");
            let text = payload_text_of(msg);
            line.append(text.as_str());
            line.append("]");
            line
        },
        None => {
            let mut line = String::from_str("[");
            push_decimal(&mut line, msg.storage_header.seconds as u64);
            line.append("] <no extended header>");
            line
        },
    }
}

/// Whether the fields of a date and a time of day lie in their ranges:
/// month 1 to 12, day 1 to 31, hour up to 23, minute and second up to 59.
pub open spec fn in_calendar_ranges(time: CivilTime) -> bool {
    &&& 1 <= time.month <= 12
    &&& 1 <= time.day <= 31
    &&& time.hour <= 23
    &&& time.minute <= 59
    &&& time.second <= 59
}

/// Renders a frame as a line of text, with its time stamp shown in the time
/// zone of the machine: as some date and time of day whose fields lie in
/// their ranges.
pub fn parse_message_text(msg: &DltMessage) -> (line: String)
    ensures
        exists|time: CivilTime|
            in_calendar_ranges(time) && line@ == #[trigger] message_text(msg@, time),
{
    let time = local_civil_time(msg.storage_header.seconds);
    let line = render_message(msg, &time);
    assert(in_calendar_ranges(time) && line@ == message_text(msg@, time));
    line
}

} // verus!
