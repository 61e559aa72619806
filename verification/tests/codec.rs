use dlt_user::protocol::{
    DecodeError, DltExtendedHeader, DltMessage, DltStandardHeader, DltStorageHeader,
};
use dlt_user::types::{AppId, ContextId, EcuId};

fn sample_frame(text: &str) -> DltMessage {
    DltMessage::new_verbose_at(
        EcuId::new("ECU1"),
        AppId::new("LOG"),
        ContextId::new("TEST"),
        text,
        0x0102_0304,
        0x000a_0b0c,
    )
}

#[test]
fn captured_frame_decodes_to_what_was_encoded() {
    let frame = DltMessage::new_verbose(
        EcuId::new("ECU1"),
        AppId::new("LOG"),
        ContextId::new("TEST"),
        "0 Hello",
    );
    let bytes = frame.to_bytes();
    // 16 storage + 4 standard + 10 extended + 4 type + 2 length + 7 text + 1 zero
    assert_eq!(bytes.len(), 44);
    let decoded = DltMessage::decode(&bytes).expect("a frame");
    assert_eq!(decoded.storage_header.pattern, *b"DLT\x01");
    assert_eq!(decoded.storage_header.ecu, EcuId(*b"ECU1"));
    assert_eq!(decoded.storage_header.seconds, frame.storage_header.seconds);
    assert_eq!(decoded.storage_header.microseconds, frame.storage_header.microseconds);
    assert_eq!(decoded.standard_header.htyp, 0x35);
    assert_eq!(decoded.standard_header.mcnt, 0);
    assert_eq!(decoded.standard_header.len, 28);
    let extended = decoded.extended_header.expect("an extended header");
    assert_eq!(extended.msin, 0x01);
    assert_eq!(extended.noar, 1);
    assert_eq!(extended.apid, AppId(*b"LOG\0"));
    assert_eq!(extended.ctid, ContextId(*b"TEST"));
    assert_eq!(extended.apid.as_str(), "LOG");
    assert_eq!(extended.ctid.as_str(), "TEST");
    assert_eq!(decoded.payload, frame.payload);
    assert_eq!(decoded.extract_string_payload(), Some("0 Hello".to_string()));
}

#[test]
fn frame_bytes_are_exact() {
    let bytes = sample_frame("Hi").to_bytes();
    let expected: Vec<u8> = vec![
        0x44, 0x4c, 0x54, 0x01, // pattern
        0x04, 0x03, 0x02, 0x01, // seconds
        0x0c, 0x0b, 0x0a, 0x00, // microseconds
        0x45, 0x43, 0x55, 0x31, // ECU1
        0x35, 0x00, 23, 0x00, // htyp, mcnt, len
        0x01, 0x01, // msin, noar
        0x4c, 0x4f, 0x47, 0x00, // LOG
        0x54, 0x45, 0x53, 0x54, // TEST
        0x00, 0x00, 0x00, 0x21, // string type
        0x03, 0x00, // length with the closing zero
        0x48, 0x69, 0x00, // Hi
    ];
    assert_eq!(bytes, expected);
}

#[test]
fn frame_round_trip_field_by_field() {
    let frame = sample_frame("round trip \u{e9}\u{4e16}");
    let decoded = DltMessage::from_bytes(&frame.to_bytes()).expect("a frame");
    assert_eq!(decoded.storage_header.pattern, frame.storage_header.pattern);
    assert_eq!(decoded.storage_header.seconds, 0x0102_0304);
    assert_eq!(decoded.storage_header.microseconds, 0x000a_0b0c);
    assert_eq!(decoded.storage_header.ecu, frame.storage_header.ecu);
    assert_eq!(decoded.standard_header.htyp, frame.standard_header.htyp);
    assert_eq!(decoded.standard_header.mcnt, frame.standard_header.mcnt);
    assert_eq!(decoded.standard_header.len, frame.standard_header.len);
    let (got, want) = (decoded.extended_header.unwrap(), frame.extended_header.unwrap());
    assert_eq!((got.msin, got.noar), (want.msin, want.noar));
    assert_eq!((got.apid, got.ctid), (want.apid, want.ctid));
    assert_eq!(decoded.payload, frame.payload);
    assert_eq!(decoded.to_bytes(), frame.to_bytes());
}

#[test]
fn empty_payload_is_one_zero_byte() {
    let frame = sample_frame("");
    assert_eq!(frame.payload, vec![0x00, 0x00, 0x00, 0x21, 0x01, 0x00, 0x00]);
    assert_eq!(&frame.payload[6..], &[0u8]);
    let decoded = DltMessage::decode(&frame.to_bytes()).unwrap();
    assert_eq!(decoded.extract_string_payload(), Some(String::new()));
}

#[test]
fn payload_without_a_seventh_byte_has_no_text() {
    let mut frame = sample_frame("x");
    frame.payload.truncate(6);
    assert_eq!(frame.extract_string_payload(), None);
    frame.payload.clear();
    assert_eq!(frame.extract_string_payload(), None);
}

#[test]
fn ill_formed_text_is_shown_with_replacement_characters() {
    let mut frame = sample_frame("");
    frame.payload = vec![0, 0, 0, 0x21, 4, 0, b'a', 0xff, b'b', 0];
    assert_eq!(frame.extract_string_payload(), Some("a\u{fffd}b".to_string()));
}

#[test]
fn trailing_zero_bytes_of_the_text_are_all_trimmed() {
    let mut frame = sample_frame("");
    frame.payload = vec![0, 0, 0, 0x21, 5, 0, b'a', 0, b'b', 0, 0, 0];
    assert_eq!(frame.extract_string_payload(), Some("a\0b".to_string()));
}

#[test]
fn short_buffers_are_too_short() {
    assert_eq!(DltMessage::decode(&[]).err(), Some(DecodeError::FrameTooShort));
    assert_eq!(DltMessage::decode(&[0x44, 0x4c, 0x54]).err(), Some(DecodeError::FrameTooShort));
    let bytes = sample_frame("abc").to_bytes();
    assert_eq!(DltMessage::decode(&bytes[..19]).err(), Some(DecodeError::FrameTooShort));
    // the extended header is announced but not all there
    assert_eq!(DltMessage::decode(&bytes[..29]).err(), Some(DecodeError::FrameTooShort));
    // the length field declares more than there is
    assert_eq!(
        DltMessage::decode(&bytes[..bytes.len() - 1]).err(),
        Some(DecodeError::FrameTooShort)
    );
    assert!(DltMessage::from_bytes(&bytes[..bytes.len() - 1]).is_none());
    assert!(DltMessage::decode(&bytes).is_ok());
}

#[test]
fn wrong_pattern_is_bad_magic() {
    let mut bytes = sample_frame("abc").to_bytes();
    bytes[3] = 0x02;
    assert_eq!(DltMessage::decode(&bytes).err(), Some(DecodeError::BadMagic));
    assert!(DltMessage::from_bytes(&bytes).is_none());
    // the pattern is judged before the lengths that follow the headers
    assert_eq!(DltMessage::decode(&bytes[..25]).err(), Some(DecodeError::BadMagic));
    // but not before the buffer holds two headers
    assert_eq!(DltMessage::decode(&bytes[..19]).err(), Some(DecodeError::FrameTooShort));
}

#[test]
fn bytes_after_the_declared_length_belong_to_the_payload() {
    let mut bytes = sample_frame("abc").to_bytes();
    bytes.push(0x7e);
    let decoded = DltMessage::decode(&bytes).unwrap();
    assert_eq!(decoded.payload.len(), 4 + 2 + 3 + 1 + 1);
    assert_eq!(decoded.payload.last(), Some(&0x7e));
    assert_eq!(decoded.to_bytes(), bytes);
}

#[test]
fn decoding_loses_nothing() {
    let mut bytes: Vec<u8> = vec![0x44, 0x4c, 0x54, 0x01];
    bytes.extend((0..60u8).map(|i| i.wrapping_mul(37).wrapping_add(11)));
    // no extended header, and a declared length that the buffer holds
    bytes[16] = 0x20;
    bytes[18] = 40;
    bytes[19] = 0;
    let plain = DltMessage::decode(&bytes).unwrap();
    assert!(plain.extended_header.is_none());
    assert_eq!(plain.payload.len(), 44);
    assert_eq!(plain.to_bytes(), bytes);
    bytes[16] = 0x35;
    let extended = DltMessage::decode(&bytes).unwrap();
    assert!(extended.extended_header.is_some());
    assert_eq!(extended.payload.len(), 34);
    assert_eq!(extended.to_bytes(), bytes);
}

#[test]
fn storage_header_bytes() {
    let header = DltStorageHeader::with_time(EcuId::new("E"), 1, 0x0100);
    assert_eq!(header.pattern, [0x44, 0x4c, 0x54, 0x01]);
    assert_eq!(
        header.to_bytes(),
        vec![0x44, 0x4c, 0x54, 0x01, 1, 0, 0, 0, 0, 1, 0, 0, b'E', 0, 0, 0]
    );
    let back = DltStorageHeader::from_bytes(&header.to_bytes()).unwrap();
    assert_eq!((back.pattern, back.ecu), (header.pattern, header.ecu));
    assert_eq!((back.seconds, back.microseconds), (1, 0x0100));
    assert!(DltStorageHeader::from_bytes(&header.to_bytes()[..15]).is_none());
    let odd = DltStorageHeader::from_bytes(&[0xaa; 16]).unwrap();
    assert_eq!(odd.pattern, [0xaa; 4]);
    assert_eq!(odd.seconds, 0xaaaa_aaaa);
}

#[test]
fn storage_header_is_stamped_by_the_clock() {
    let header = DltStorageHeader::new(EcuId::new("ECU1"));
    assert_eq!(header.pattern, *b"DLT\x01");
    assert_eq!(header.ecu, EcuId(*b"ECU1"));
    assert!(header.microseconds < 1_000_000);
    // later than the first of January 2020
    assert!(header.seconds > 1_577_836_800);
}

#[test]
fn standard_header_bytes() {
    let with = DltStandardHeader::new(true, 7, 0x1234);
    assert_eq!((with.htyp, with.mcnt, with.len), (0x35, 7, 0x1234));
    assert_eq!(with.to_bytes(), vec![0x35, 7, 0x34, 0x12]);
    let without = DltStandardHeader::new(false, 0, 4);
    assert_eq!(without.htyp, 0x21);
    assert_eq!(without.to_bytes(), vec![0x21, 0, 4, 0]);
    let back = DltStandardHeader::from_bytes(&[0x35, 9, 0xff, 0xff]).unwrap();
    assert_eq!((back.htyp, back.mcnt, back.len), (0x35, 9, 0xffff));
    assert!(DltStandardHeader::from_bytes(&[0x35, 9, 0xff]).is_none());
}

#[test]
fn extended_header_bytes() {
    let header = DltExtendedHeader::new(AppId::new("AB"), ContextId::new("CDEFG"), 3);
    assert_eq!((header.msin, header.noar), (0x01, 3));
    assert_eq!(header.to_bytes(), vec![0x01, 3, b'A', b'B', 0, 0, b'C', b'D', b'E', b'F']);
    let back = DltExtendedHeader::from_bytes(&header.to_bytes()).unwrap();
    assert_eq!((back.msin, back.noar, back.apid, back.ctid), (1, 3, header.apid, header.ctid));
    assert!(DltExtendedHeader::from_bytes(&header.to_bytes()[..9]).is_none());
}

#[test]
fn header_type_without_extended_header_still_announces_one() {
    let frame = DltMessage {
        storage_header: DltStorageHeader::with_time(EcuId::new("ECU1"), 0, 0),
        standard_header: DltStandardHeader::new(false, 0, 4 + 12),
        extended_header: None,
        payload: vec![9; 12],
    };
    let decoded = DltMessage::decode(&frame.to_bytes()).unwrap();
    // 0x21 has its lowest bit set: the first ten payload bytes are read as a header
    assert!(decoded.extended_header.is_some());
    assert_eq!(decoded.payload, vec![9, 9]);
}

#[test]
fn frame_without_extended_bit_decodes_without_extended_header() {
    let frame = DltMessage {
        storage_header: DltStorageHeader::with_time(EcuId::new("ECU1"), 5, 6),
        standard_header: DltStandardHeader { htyp: 0x20, mcnt: 1, len: 4 + 3 },
        extended_header: None,
        payload: vec![1, 2, 3],
    };
    let bytes = frame.to_bytes();
    assert_eq!(bytes.len(), 23);
    let decoded = DltMessage::decode(&bytes).unwrap();
    assert!(decoded.extended_header.is_none());
    assert_eq!(decoded.payload, vec![1, 2, 3]);
    assert_eq!(decoded.standard_header.htyp, 0x20);
}

#[test]
fn length_fields_are_reduced_to_sixteen_bits() {
    let text = "x".repeat(65_535);
    let frame = sample_frame(&text);
    assert_eq!(frame.payload.len(), 65_535 + 7);
    assert_eq!(&frame.payload[4..6], &[0, 0]);
    assert_eq!(frame.standard_header.len, ((65_535u32 + 21) % 65_536) as u16);
    let fits = sample_frame(&"y".repeat(65_514));
    assert_eq!(fits.standard_header.len, 65_535);
    assert_eq!(&fits.payload[4..6], &[0xeb, 0xff]);
}
