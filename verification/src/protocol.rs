//! The wire format: storage, standard and extended header, and the verbose
//! string payload, with byte-exact encoding and decoding.

use crate::bytes::{
    append_bytes, array4_at, lemma_u16_from_le_round_trip, lemma_u16_le_round_trip,
    lemma_u32_from_le_round_trip, lemma_u32_le_round_trip, push_u16_le, push_u32_le, read_u16_le,
    read_u32_le, u16_from_le, u16_le, u32_from_le, u32_le,
};
use crate::clock::{reading_of, stamp, stamp_of, unix_time};
use crate::text::{lossy_text, nul_trimmed_text, text_of_padded, trim_end};
use crate::types::{AppId, ContextId, EcuId};
use std::time::{Duration, SystemTimeError};
use vstd::prelude::*;
use vstd::string::StringSliceAdditionalSpecFns;
use vstd::utf8::{decode_utf8, encode_utf8, is_ascii_chars, is_ascii_chars_encode_utf8, valid_utf8};

verus! {

/// Length of the storage header on the wire.
pub const STORAGE_HEADER_LEN: usize = 16;

/// Length of the standard header on the wire.
pub const STANDARD_HEADER_LEN: usize = 4;

/// Length of the extended header on the wire.
pub const EXTENDED_HEADER_LEN: usize = 10;

/// Header type of a frame that carries an extended header.
pub const HTYP_EXTENDED: u8 = 0x35;

/// Header type of a frame without an extended header.
pub const HTYP_PLAIN: u8 = 0x21;

/// Message info of a verbose log message of level info.
pub const MSIN_VERBOSE_LOG_INFO: u8 = 0x01;

/// The four bytes that every storage header starts with: `DLT` and 0x01.
pub open spec fn storage_pattern() -> Seq<u8> {
    seq![0x44u8, 0x4cu8, 0x54u8, 0x01u8]
}

/// The type descriptor of a string argument in a verbose payload.
pub open spec fn string_type_info() -> Seq<u8> {
    seq![0x00u8, 0x00u8, 0x00u8, 0x21u8]
}

/// Whether a header type announces an extended header: its lowest bit. Both
/// header types that this library writes have that bit set.
pub open spec fn announces_extended(htyp: u8) -> bool {
    htyp % 2 == 1
}

/// Why a buffer is not a frame.
#[derive(Debug, Clone, Copy, PartialEq, Eq)]
pub enum DecodeError {
    /// The buffer cannot hold the headers and the body that it declares.
    FrameTooShort,
    /// The buffer does not start with the storage pattern.
    BadMagic,
}

/// Storage header: pattern, wall-clock time and ECU id.
#[derive(Debug, Clone, Copy)]
pub struct DltStorageHeader {
    pub pattern: [u8; 4],
    pub seconds: u32,
    pub microseconds: u32,
    pub ecu: EcuId,
}

impl DltStorageHeader {
    /// The sixteen bytes of the header on the wire.
    pub open spec fn wire(self) -> Seq<u8> {
        self.pattern@ + u32_le(self.seconds) + u32_le(self.microseconds) + self.ecu.0@
    }

    /// The header that the first sixteen bytes of `bytes` stand for.
    pub open spec fn parse(bytes: Seq<u8>) -> DltStorageHeader {
        DltStorageHeader {
            pattern: [bytes[0], bytes[1], bytes[2], bytes[3]],
            seconds: u32_from_le(bytes[4], bytes[5], bytes[6], bytes[7]),
            microseconds: u32_from_le(bytes[8], bytes[9], bytes[10], bytes[11]),
            ecu: EcuId([bytes[12], bytes[13], bytes[14], bytes[15]]),
        }
    }

    /// A header with the storage pattern and the given time.
    pub fn with_time(ecu: EcuId, seconds: u32, microseconds: u32) -> (header: Self)
        ensures
            header.pattern@ == storage_pattern(),
            header.seconds == seconds,
            header.microseconds == microseconds,
            header.ecu == ecu,
    {
        let pattern: [u8; 4] = [0x44, 0x4c, 0x54, 0x01];
        assert(pattern@ =~= storage_pattern());
        DltStorageHeader { pattern, seconds, microseconds, ecu }
    }

    /// A header stamped with the wall clock: the seconds since the Unix
    /// epoch, reduced to 32 bits, and the microseconds within that second, as
    /// `stamp_of` makes them of the reading of what the clock answered.
    pub fn new(ecu: EcuId) -> (header: Self)
        ensures
            header.pattern@ == storage_pattern(),
            header.microseconds < 1_000_000,
            header.ecu == ecu,
            exists|elapsed: Result<Duration, SystemTimeError>|
                (header.seconds, header.microseconds) == stamp_of(#[trigger] reading_of(elapsed)),
    {
        let now = unix_time();
        let (seconds, microseconds) = stamp(now);
        proof {
            let elapsed = choose|elapsed: Result<Duration, SystemTimeError>|
                now == #[trigger] reading_of(elapsed);
            assert((seconds, microseconds) == stamp_of(reading_of(elapsed)));
        }
        Self::with_time(ecu, seconds, microseconds)
    }

    /// Encodes the header.
    pub fn to_bytes(&self) -> (bytes: Vec<u8>)
        ensures
            bytes@ == self.wire(),
    {
        let mut bytes: Vec<u8> = Vec::with_capacity(16);
        append_bytes(&mut bytes, self.pattern.as_slice());
        push_u32_le(&mut bytes, self.seconds);
        push_u32_le(&mut bytes, self.microseconds);
        append_bytes(&mut bytes, self.ecu.0.as_slice());
        assert(bytes@ =~= self.wire());
        bytes
    }

    /// Decodes a header from the first sixteen bytes of `bytes`; `None` where
    /// there are fewer. The pattern is read, not judged.
    pub fn from_bytes(bytes: &[u8]) -> (header: Option<Self>)
        ensures
            header == if bytes@.len() < 16 {
                None
            } else {
                Some(Self::parse(bytes@))
            },
    {
        if bytes.len() < 16 {
            return None;
        }
        let pattern = array4_at(bytes, 0);
        let ecu = array4_at(bytes, 12);
        let header = DltStorageHeader {
            pattern,
            seconds: read_u32_le(bytes[4], bytes[5], bytes[6], bytes[7]),
            microseconds: read_u32_le(bytes[8], bytes[9], bytes[10], bytes[11]),
            ecu: EcuId(ecu),
        };
        assert(header.pattern =~= Self::parse(bytes@).pattern);
        assert(header.ecu.0 =~= Self::parse(bytes@).ecu.0);
        Some(header)
    }
}

/// Standard header: header type, message counter and the length of all that
/// follows the storage header.
#[derive(Debug, Clone, Copy)]
pub struct DltStandardHeader {
    pub htyp: u8,
    pub mcnt: u8,
    pub len: u16,
}

impl DltStandardHeader {
    /// The four bytes of the header on the wire.
    pub open spec fn wire(self) -> Seq<u8> {
        seq![self.htyp, self.mcnt] + u16_le(self.len)
    }

    /// The header that the first four bytes of `bytes` stand for.
    pub open spec fn parse(bytes: Seq<u8>) -> DltStandardHeader {
        DltStandardHeader { htyp: bytes[0], mcnt: bytes[1], len: u16_from_le(bytes[2], bytes[3]) }
    }

    /// A header whose type says whether an extended header follows.
    pub fn new(has_extended: bool, mcnt: u8, len: u16) -> (header: Self)
        ensures
            header.htyp == if has_extended { HTYP_EXTENDED } else { HTYP_PLAIN },
            header.mcnt == mcnt,
            header.len == len,
    {
        let htyp: u8 = if has_extended { HTYP_EXTENDED } else { HTYP_PLAIN };
        DltStandardHeader { htyp, mcnt, len }
    }

    /// Encodes the header.
    pub fn to_bytes(&self) -> (bytes: Vec<u8>)
        ensures
            bytes@ == self.wire(),
    {
        let mut bytes: Vec<u8> = Vec::with_capacity(4);
        bytes.push(self.htyp);
        bytes.push(self.mcnt);
        push_u16_le(&mut bytes, self.len);
        assert(bytes@ =~= self.wire());
        bytes
    }

    /// Decodes a header from the first four bytes of `bytes`; `None` where
    /// there are fewer.
    pub fn from_bytes(bytes: &[u8]) -> (header: Option<Self>)
        ensures
            header == if bytes@.len() < 4 {
                None
            } else {
                Some(Self::parse(bytes@))
            },
    {
        if bytes.len() < 4 {
            return None;
        }
        Some(
            DltStandardHeader {
                htyp: bytes[0],
                mcnt: bytes[1],
                len: read_u16_le(bytes[2], bytes[3]),
            },
        )
    }
}

/// Extended header: message info, number of arguments, application and
/// context id.
#[derive(Debug, Clone, Copy)]
pub struct DltExtendedHeader {
    pub msin: u8,
    pub noar: u8,
    pub apid: AppId,
    pub ctid: ContextId,
}

impl DltExtendedHeader {
    /// The ten bytes of the header on the wire.
    pub open spec fn wire(self) -> Seq<u8> {
        seq![self.msin, self.noar] + self.apid.0@ + self.ctid.0@
    }

    /// The header that the first ten bytes of `bytes` stand for.
    pub open spec fn parse(bytes: Seq<u8>) -> DltExtendedHeader {
        DltExtendedHeader {
            msin: bytes[0],
            noar: bytes[1],
            apid: AppId([bytes[2], bytes[3], bytes[4], bytes[5]]),
            ctid: ContextId([bytes[6], bytes[7], bytes[8], bytes[9]]),
        }
    }

    /// The header of a verbose log message of level info.
    pub fn new(apid: AppId, ctid: ContextId, noar: u8) -> (header: Self)
        ensures
            header == (DltExtendedHeader { msin: MSIN_VERBOSE_LOG_INFO, noar, apid, ctid }),
    {
        DltExtendedHeader { msin: MSIN_VERBOSE_LOG_INFO, noar, apid, ctid }
    }

    /// Encodes the header.
    pub fn to_bytes(&self) -> (bytes: Vec<u8>)
        ensures
            bytes@ == self.wire(),
    {
        let mut bytes: Vec<u8> = Vec::with_capacity(10);
        bytes.push(self.msin);
        bytes.push(self.noar);
        append_bytes(&mut bytes, self.apid.0.as_slice());
        append_bytes(&mut bytes, self.ctid.0.as_slice());
        assert(bytes@ =~= self.wire());
        bytes
    }

    /// Decodes a header from the first ten bytes of `bytes`; `None` where
    /// there are fewer.
    pub fn from_bytes(bytes: &[u8]) -> (header: Option<Self>)
        ensures
            header == if bytes@.len() < 10 {
                None
            } else {
                Some(Self::parse(bytes@))
            },
    {
        if bytes.len() < 10 {
            return None;
        }
        let apid = array4_at(bytes, 2);
        let ctid = array4_at(bytes, 6);
        let header = DltExtendedHeader {
            msin: bytes[0],
            noar: bytes[1],
            apid: AppId(apid),
            ctid: ContextId(ctid),
        };
        assert(header.apid.0 =~= Self::parse(bytes@).apid.0);
        assert(header.ctid.0 =~= Self::parse(bytes@).ctid.0);
        Some(header)
    }
}

/// A complete frame.
#[derive(Debug, Clone)]
pub struct DltMessage {
    pub storage_header: DltStorageHeader,
    pub standard_header: DltStandardHeader,
    pub extended_header: Option<DltExtendedHeader>,
    pub payload: Vec<u8>,
}

/// A frame as a mathematical value: the headers and the payload bytes.
pub struct DltMessageView {
    pub storage_header: DltStorageHeader,
    pub standard_header: DltStandardHeader,
    pub extended_header: Option<DltExtendedHeader>,
    pub payload: Seq<u8>,
}

impl View for DltMessage {
    type V = DltMessageView;

    open spec fn view(&self) -> DltMessageView {
        DltMessageView {
            storage_header: self.storage_header,
            standard_header: self.standard_header,
            extended_header: self.extended_header,
            payload: self.payload@,
        }
    }
}

impl DltMessageView {
    /// The bytes of the extended header, none where the frame has none.
    pub open spec fn extended_wire(self) -> Seq<u8> {
        match self.extended_header {
            Some(extended) => extended.wire(),
            None => Seq::empty(),
        }
    }

    /// The frame on the wire: storage header, standard header, extended
    /// header if there is one, payload.
    pub open spec fn wire(self) -> Seq<u8> {
        self.storage_header.wire() + self.standard_header.wire() + self.extended_wire()
            + self.payload
    }

    /// The framing invariants: the storage pattern is in place, the header
    /// type announces an extended header exactly where there is one, and the
    /// length field counts all that follows the storage header.
    pub open spec fn well_formed(self) -> bool {
        &&& self.storage_header.pattern@ == storage_pattern()
        &&& announces_extended(self.standard_header.htyp) == (self.extended_header is Some)
        &&& self.standard_header.len == 4 + self.extended_wire().len() + self.payload.len()
    }

    /// Exactly the frames that decoding gives back from their own bytes: as
    /// `well_formed`, but the length field may declare less than there is.
    pub open spec fn decodes_back(self) -> bool {
        &&& self.storage_header.pattern@ == storage_pattern()
        &&& announces_extended(self.standard_header.htyp) == (self.extended_header is Some)
        &&& self.standard_header.len <= 4 + self.extended_wire().len() + self.payload.len()
    }
}

/// The verbose payload that carries `text` as its one string argument: type
/// descriptor, length with the closing zero byte counted (reduced to 16
/// bits), the text, the zero byte.
pub open spec fn verbose_payload(text: Seq<u8>) -> Seq<u8> {
    string_type_info() + u16_le(((text.len() + 1) % 65536) as u16) + text + seq![0u8]
}

/// Whether `payload` is a verbose payload with one string argument whose
/// text holds no zero byte.
pub open spec fn is_verbose_string(payload: Seq<u8>) -> bool {
    exists|text: Seq<u8>|
        #![trigger verbose_payload(text)]
        payload == verbose_payload(text) && text.len() + 1 < 65536 && !text.contains(0u8)
}

/// The verbose log frame for `text`, stamped with the given time. The length
/// field is reduced to 16 bits.
pub open spec fn verbose_message(
    ecu: EcuId,
    apid: AppId,
    ctid: ContextId,
    text: Seq<u8>,
    seconds: u32,
    microseconds: u32,
) -> DltMessageView {
    DltMessageView {
        storage_header: DltStorageHeader {
            pattern: [0x44u8, 0x4cu8, 0x54u8, 0x01u8],
            seconds,
            microseconds,
            ecu,
        },
        standard_header: DltStandardHeader {
            htyp: HTYP_EXTENDED,
            mcnt: 0,
            len: ((text.len() + 21) % 65536) as u16,
        },
        extended_header: Some(
            DltExtendedHeader { msin: MSIN_VERBOSE_LOG_INFO, noar: 1, apid, ctid },
        ),
        payload: verbose_payload(text),
    }
}

/// What decoding makes of `bytes`. A buffer under twenty bytes is too short;
/// then the storage pattern is checked; then the buffer must hold the
/// extended header, if one is announced, and as many bytes after the storage
/// header as the length field declares. The payload is all that follows the
/// headers.
pub open spec fn decode_frame(bytes: Seq<u8>) -> Result<DltMessageView, DecodeError> {
    if bytes.len() < 20 {
        Err(DecodeError::FrameTooShort)
    } else if bytes.subrange(0, 4) != storage_pattern() {
        Err(DecodeError::BadMagic)
    } else if announces_extended(bytes[16]) && bytes.len() < 30 {
        Err(DecodeError::FrameTooShort)
    } else if bytes.len() < 16 + u16_from_le(bytes[18], bytes[19]) {
        Err(DecodeError::FrameTooShort)
    } else if announces_extended(bytes[16]) {
        Ok(
            DltMessageView {
                storage_header: DltStorageHeader::parse(bytes.subrange(0, 16)),
                standard_header: DltStandardHeader::parse(bytes.subrange(16, 20)),
                extended_header: Some(DltExtendedHeader::parse(bytes.subrange(20, 30))),
                payload: bytes.subrange(30, bytes.len() as int),
            },
        )
    } else {
        Ok(
            DltMessageView {
                storage_header: DltStorageHeader::parse(bytes.subrange(0, 16)),
                standard_header: DltStandardHeader::parse(bytes.subrange(16, 20)),
                extended_header: None,
                payload: bytes.subrange(20, bytes.len() as int),
            },
        )
    }
}

/// Builds the verbose payload that carries `text`.
pub fn verbose_payload_of(text: &[u8]) -> (payload: Vec<u8>)
    ensures
        payload@ == verbose_payload(text@),
{
    let low: usize = text.len() % 65536;
    let str_len: u16 = if low == 65535 {
        0
    } else {
        (low + 1) as u16
    };
    let mut payload: Vec<u8> = Vec::new();
    payload.push(0x00);
    payload.push(0x00);
    payload.push(0x00);
    payload.push(0x21);
    push_u16_le(&mut payload, str_len);
    append_bytes(&mut payload, text);
    payload.push(0);
    assert(str_len == ((text@.len() + 1) % 65536) as u16);
    assert(payload@ =~= verbose_payload(text@));
    payload
}

impl DltMessage {
    /// The verbose log frame for `message`, stamped with the given time.
    pub fn new_verbose_at(
        ecu: EcuId,
        apid: AppId,
        ctid: ContextId,
        message: &str,
        seconds: u32,
        microseconds: u32,
    ) -> (frame: Self)
        ensures
            frame@ == verbose_message(
                ecu,
                apid,
                ctid,
                message.spec_bytes(),
                seconds,
                microseconds,
            ),
            message.spec_bytes().len() + 21 < 65536 ==> frame@.well_formed(),
            message.spec_bytes().len() + 21 < 65536 && !message.spec_bytes().contains(0u8)
                ==> is_verbose_string(frame@.payload),
    {
        let text = message.as_bytes();
        let low: usize = text.len() % 65536;
        let total_len: u16 = ((low + 21) % 65536) as u16;
        let payload = verbose_payload_of(text);
        let storage_header = DltStorageHeader::with_time(ecu, seconds, microseconds);
        let frame = DltMessage {
            storage_header,
            standard_header: DltStandardHeader::new(true, 0, total_len),
            extended_header: Some(DltExtendedHeader::new(apid, ctid, 1)),
            payload,
        };
        proof {
            let model = verbose_message(ecu, apid, ctid, text@, seconds, microseconds);
            assert(model.storage_header.pattern@ =~= storage_pattern());
            assert(frame.storage_header.pattern =~= model.storage_header.pattern);
            assert(frame@.extended_wire().len() == 10);
            assert(verbose_payload(text@).len() == text@.len() + 7);
            assert(frame@ == model);
        }
        frame
    }

    /// The verbose log frame for `message`, stamped with the wall clock.
    pub fn new_verbose(ecu: EcuId, apid: AppId, ctid: ContextId, message: &str) -> (frame: Self)
        ensures
            frame@ == verbose_message(
                ecu,
                apid,
                ctid,
                message.spec_bytes(),
                frame.storage_header.seconds,
                frame.storage_header.microseconds,
            ),
            frame.storage_header.microseconds < 1_000_000,
            exists|elapsed: Result<Duration, SystemTimeError>|
                (frame.storage_header.seconds, frame.storage_header.microseconds) == stamp_of(
                    #[trigger] reading_of(elapsed),
                ),
            message.spec_bytes().len() + 21 < 65536 ==> frame@.well_formed(),
    {
        let now = unix_time();
        let (seconds, microseconds) = stamp(now);
        proof {
            let elapsed = choose|elapsed: Result<Duration, SystemTimeError>|
                now == #[trigger] reading_of(elapsed);
            assert((seconds, microseconds) == stamp_of(reading_of(elapsed)));
        }
        Self::new_verbose_at(ecu, apid, ctid, message, seconds, microseconds)
    }

    /// Encodes the frame.
    pub fn to_bytes(&self) -> (bytes: Vec<u8>)
        ensures
            bytes@ == self@.wire(),
    {
        let mut bytes: Vec<u8> = self.storage_header.to_bytes();
        let standard = self.standard_header.to_bytes();
        append_bytes(&mut bytes, standard.as_slice());
        match &self.extended_header {
            Some(extended) => {
                let extended_bytes = extended.to_bytes();
                append_bytes(&mut bytes, extended_bytes.as_slice());
            },
            None => {},
        }
        append_bytes(&mut bytes, self.payload.as_slice());
        assert(bytes@ =~= self@.wire());
        bytes
    }

    /// Decodes a frame, or says why `bytes` is none.
    pub fn decode(bytes: &[u8]) -> (decoded: Result<Self, DecodeError>)
        ensures
            match decoded {
                Ok(frame) => decode_frame(bytes@) == Ok::<DltMessageView, DecodeError>(frame@),
                Err(error) => decode_frame(bytes@) == Err::<DltMessageView, DecodeError>(error),
            },
    {
        let n = bytes.len();
        if n < 20 {
            return Err(DecodeError::FrameTooShort);
        }
        if bytes[0] != 0x44 || bytes[1] != 0x4c || bytes[2] != 0x54 || bytes[3] != 0x01 {
            assert(bytes@.subrange(0, 4) != storage_pattern()) by {
                assert(bytes@.subrange(0, 4)[0] == bytes@[0]);
                assert(bytes@.subrange(0, 4)[1] == bytes@[1]);
                assert(bytes@.subrange(0, 4)[2] == bytes@[2]);
                assert(bytes@.subrange(0, 4)[3] == bytes@[3]);
            }
            return Err(DecodeError::BadMagic);
        }
        assert(bytes@.subrange(0, 4) =~= storage_pattern());
        let has_extended = bytes[16] % 2 == 1;
        if has_extended && n < 30 {
            return Err(DecodeError::FrameTooShort);
        }
        let declared: usize = read_u16_le(bytes[18], bytes[19]) as usize;
        if n < 16 + declared {
            return Err(DecodeError::FrameTooShort);
        }
        let storage = DltStorageHeader::from_bytes(vstd::slice::slice_subrange(bytes, 0, 16));
        let standard = DltStandardHeader::from_bytes(vstd::slice::slice_subrange(bytes, 16, 20));
        let extended = if has_extended {
            DltExtendedHeader::from_bytes(vstd::slice::slice_subrange(bytes, 20, 30))
        } else {
            None
        };
        let start: usize = if has_extended { 30 } else { 20 };
        let mut payload: Vec<u8> = Vec::new();
        append_bytes(&mut payload, vstd::slice::slice_subrange(bytes, start, n));
        match (storage, standard) {
            (Some(storage_header), Some(standard_header)) => {
                assert(bytes@.subrange(16, 20)[0] == bytes@[16]);
                Ok(
                    DltMessage {
                        storage_header,
                        standard_header,
                        extended_header: extended,
                        payload,
                    },
                )
            },
            _ => Err(DecodeError::FrameTooShort),
        }
    }

    /// Decodes a frame; `None` where `decode` gives an error.
    pub fn from_bytes(bytes: &[u8]) -> (decoded: Option<Self>)
        ensures
            match decoded {
                Some(frame) => decode_frame(bytes@) == Ok::<DltMessageView, DecodeError>(frame@),
                None => decode_frame(bytes@) is Err,
            },
    {
        match Self::decode(bytes) {
            Ok(frame) => Some(frame),
            Err(_) => None,
        }
    }

    /// The text of the string argument: what follows the first six bytes of
    /// the payload, decoded lossily and freed of trailing NUL characters;
    /// `None` where the payload has no seventh byte.
    pub fn extract_string_payload(&self) -> (text: Option<String>)
        ensures
            match text {
                Some(text) => self.payload@.len() > 6 && text@ == nul_trimmed_text(
                    self.payload@.skip(6),
                ),
                None => self.payload@.len() <= 6,
            },
    {
        if self.payload.len() > 6 {
            let body = vstd::slice::slice_subrange(self.payload.as_slice(), 6, self.payload.len());
            assert(body@ =~= self.payload@.skip(6));
            Some(text_of_padded(body))
        } else {
            None
        }
    }
}

/// A storage header is sixteen bytes on the wire and is read back from them
/// as it was.
pub proof fn lemma_storage_header_round_trip(header: DltStorageHeader)
    ensures
        header.wire().len() == 16,
        DltStorageHeader::parse(header.wire()) == header,
{
    let parsed = DltStorageHeader::parse(header.wire());
    lemma_u32_le_round_trip(header.seconds);
    lemma_u32_le_round_trip(header.microseconds);
    assert(parsed.pattern =~= header.pattern);
    assert(parsed.ecu.0 =~= header.ecu.0);
}

/// A standard header is four bytes on the wire and is read back from them as
/// it was.
pub proof fn lemma_standard_header_round_trip(header: DltStandardHeader)
    ensures
        header.wire().len() == 4,
        DltStandardHeader::parse(header.wire()) == header,
{
    lemma_u16_le_round_trip(header.len);
}

/// An extended header is ten bytes on the wire and is read back from them as
/// it was.
pub proof fn lemma_extended_header_round_trip(header: DltExtendedHeader)
    ensures
        header.wire().len() == 10,
        DltExtendedHeader::parse(header.wire()) == header,
{
    let parsed = DltExtendedHeader::parse(header.wire());
    assert(parsed.apid.0 =~= header.apid.0);
    assert(parsed.ctid.0 =~= header.ctid.0);
}

/// Frame round trip: decoding the bytes of a frame gives the frame back,
/// field by field, exactly where the storage pattern is in place, the header
/// type announces an extended header if and only if there is one, and the
/// length field declares no more than there is.
pub proof fn lemma_frame_round_trip(frame: DltMessageView)
    ensures
        decode_frame(frame.wire()) == Ok::<DltMessageView, DecodeError>(frame)
            <==> frame.decodes_back(),
{
    let bytes = frame.wire();
    let storage = frame.storage_header.wire();
    let standard = frame.standard_header.wire();
    let extended = frame.extended_wire();
    lemma_storage_header_round_trip(frame.storage_header);
    lemma_standard_header_round_trip(frame.standard_header);
    match frame.extended_header {
        Some(header) => {
            lemma_extended_header_round_trip(header);
        },
        None => {},
    }
    assert(bytes.len() == 20 + extended.len() + frame.payload.len());
    assert(bytes.subrange(0, 16) =~= storage);
    assert(bytes.subrange(16, 20) =~= standard);
    assert(bytes.subrange(0, 4) =~= frame.storage_header.pattern@);
    assert(bytes[16] == frame.standard_header.htyp);
    assert(bytes[18] == u16_le(frame.standard_header.len)[0]);
    assert(bytes[19] == u16_le(frame.standard_header.len)[1]);
    lemma_u16_le_round_trip(frame.standard_header.len);
    if frame.extended_header is Some {
        assert(bytes.subrange(20, 30) =~= extended);
        assert(bytes.subrange(30, bytes.len() as int) =~= frame.payload);
    } else {
        assert(bytes.subrange(20, bytes.len() as int) =~= frame.payload);
    }
    if decode_frame(bytes) == Ok::<DltMessageView, DecodeError>(frame) {
        if announces_extended(bytes[16]) {
            assert(frame.extended_header is Some);
        } else {
            assert(frame.extended_header is None);
        }
    }
}

/// A well-formed frame is decoded back from its own bytes.
pub proof fn lemma_well_formed_round_trip(frame: DltMessageView)
    requires
        frame.well_formed(),
    ensures
        decode_frame(frame.wire()) == Ok::<DltMessageView, DecodeError>(frame),
{
    lemma_frame_round_trip(frame);
}

/// Decoding loses nothing: a frame that was decoded from a buffer has that
/// buffer as its bytes on the wire.
pub proof fn lemma_decode_is_exact(bytes: Seq<u8>)
    requires
        decode_frame(bytes) is Ok,
    ensures
        decode_frame(bytes)->Ok_0.wire() == bytes,
{
    let frame = decode_frame(bytes)->Ok_0;
    lemma_u32_from_le_round_trip(bytes[4], bytes[5], bytes[6], bytes[7]);
    lemma_u32_from_le_round_trip(bytes[8], bytes[9], bytes[10], bytes[11]);
    lemma_u16_from_le_round_trip(bytes[18], bytes[19]);
    let storage = bytes.subrange(0, 16);
    let standard = bytes.subrange(16, 20);
    assert(frame.storage_header.pattern@ =~= storage.subrange(0, 4));
    assert(frame.storage_header.ecu.0@ =~= storage.subrange(12, 16));
    assert(u32_le(frame.storage_header.seconds) =~= storage.subrange(4, 8));
    assert(u32_le(frame.storage_header.microseconds) =~= storage.subrange(8, 12));
    assert(frame.storage_header.wire() =~= storage);
    assert(u16_le(frame.standard_header.len) =~= standard.subrange(2, 4));
    assert(frame.standard_header.wire() =~= standard);
    if announces_extended(bytes[16]) {
        let extended = bytes.subrange(20, 30);
        let header = frame.extended_header->Some_0;
        assert(header.apid.0@ =~= extended.subrange(2, 6));
        assert(header.ctid.0@ =~= extended.subrange(6, 10));
        assert(header.wire() =~= extended);
        assert(frame.wire() =~= bytes);
    } else {
        assert(frame.extended_wire() =~= Seq::<u8>::empty());
        assert(frame.wire() =~= bytes);
    }
}

/// Encoding text piece by piece gives the pieces' encodings one after the
/// other.
pub proof fn lemma_encode_utf8_concat(first: Seq<char>, second: Seq<char>)
    ensures
        encode_utf8(first + second) == encode_utf8(first) + encode_utf8(second),
    decreases first.len(),
{
    if first.len() == 0 {
        assert(first + second =~= second);
        assert(encode_utf8(first) + encode_utf8(second) =~= encode_utf8(second));
    } else {
        assert((first + second).drop_first() =~= first.drop_first() + second);
        lemma_encode_utf8_concat(first.drop_first(), second);
        assert(encode_utf8(first + second) =~= encode_utf8(first) + encode_utf8(second));
    }
}

/// Text round trip: the text of a verbose payload is the text that the
/// payload was built for, as long as that text does not end in a NUL
/// character (which reading the payload takes for padding). In particular
/// the empty text comes back as the empty text, from a payload whose string
/// is the one closing zero byte.
pub proof fn lemma_verbose_text_round_trip(text: Seq<char>)
    requires
        text.len() == 0 || text.last() != '\0',
    ensures
        verbose_payload(encode_utf8(text)).len() == encode_utf8(text).len() + 7,
        verbose_payload(encode_utf8(text)).skip(6) == encode_utf8(text) + seq![0u8],
        nul_trimmed_text(verbose_payload(encode_utf8(text)).skip(6)) == text,
{
    broadcast use vstd::utf8::group_utf8_lib;

    let bytes = encode_utf8(text);
    let body = bytes + seq![0u8];
    let closed = text + seq!['\0'];
    assert(verbose_payload(bytes).skip(6) =~= body);
    assert(is_ascii_chars(seq!['\0']));
    assert(encode_utf8(seq!['\0']) =~= seq![0u8]) by {
        is_ascii_chars_encode_utf8(seq!['\0']);
        assert(seq!['\0'][0] as u8 == 0u8);
    }
    lemma_encode_utf8_concat(text, seq!['\0']);
    assert(encode_utf8(closed) == body);
    assert(valid_utf8(body));
    assert(decode_utf8(body) == closed);
    assert(lossy_text(body) == closed);
    assert(closed.drop_last() =~= text);
    assert(trim_end(closed, '\0') == trim_end(text, '\0'));
    assert(trim_end(text, '\0') == text);
}

} // verus!
