use dlt_user::types::{AppId, ContextId, EcuId, LogLevel, MessageType};

#[test]
fn short_ids_are_padded_with_zero_bytes() {
    assert_eq!(AppId::new("").0, [0, 0, 0, 0]);
    assert_eq!(AppId::new("A").0, [b'A', 0, 0, 0]);
    assert_eq!(ContextId::new("AB").0, [b'A', b'B', 0, 0]);
    assert_eq!(EcuId::new("ABC").0, [b'A', b'B', b'C', 0]);
}

#[test]
fn long_ids_are_cut_at_four_bytes() {
    assert_eq!(AppId::new("ABCD").0, *b"ABCD");
    assert_eq!(AppId::new("ABCDE").0, *b"ABCD");
    assert_eq!(ContextId::new("CONTEXT").0, *b"CONT");
    assert_eq!(EcuId::new("ECU12345").0, *b"ECU1");
}

#[test]
fn ids_are_cut_by_bytes_not_by_characters() {
    // U+00E9 takes two bytes, U+4E16 three
    assert_eq!(AppId::new("a\u{e9}\u{4e16}").0, [b'a', 0xc3, 0xa9, 0xe4]);
}

#[test]
fn id_text_drops_the_padding() {
    assert_eq!(AppId::new("LOG").as_str(), "LOG");
    assert_eq!(ContextId::new("TEST").as_str(), "TEST");
    assert_eq!(AppId::new("").as_str(), "");
    assert_eq!(ContextId(*b"A\0B\0").as_str(), "A\0B");
    assert_eq!(AppId([0, 0, b'Z', 0]).as_str(), "\0\0Z");
}

#[test]
fn id_text_of_ill_formed_bytes_has_replacement_characters() {
    assert_eq!(AppId([b'a', 0xc3, 0, 0]).as_str(), "a\u{fffd}");
    assert_eq!(ContextId([0xff, b'b', 0xfe, b'c']).as_str(), "\u{fffd}b\u{fffd}c");
    assert_eq!(AppId([b'a', 0xc3, 0xa9, 0xe4]).as_str(), "a\u{e9}\u{fffd}");
}

#[test]
fn ids_compare_byte_by_byte() {
    assert_eq!(AppId::new("LOG"), AppId(*b"LOG\0"));
    assert_ne!(AppId::new("LOG"), AppId(*b"LOG "));
    assert_eq!(ContextId::new("TESTING"), ContextId::new("TEST"));
    assert_ne!(EcuId::new("ECU1"), EcuId::new("ECU2"));
}

#[test]
fn levels_have_numbers_and_names() {
    let all = [
        (LogLevel::Fatal, 1, "FATAL"),
        (LogLevel::Error, 2, "ERROR"),
        (LogLevel::Warn, 3, "WARN"),
        (LogLevel::Info, 4, "INFO"),
        (LogLevel::Debug, 5, "DEBUG"),
        (LogLevel::Verbose, 6, "VERBOSE"),
    ];
    for (level, number, name) in all {
        assert_eq!(level.as_u8(), number);
        assert_eq!(level.to_string(), name);
    }
    assert!(LogLevel::Fatal < LogLevel::Error);
    assert!(LogLevel::Debug < LogLevel::Verbose);
}

#[test]
fn message_types_are_distinct() {
    assert_ne!(MessageType::Log, MessageType::Control);
    assert_eq!(MessageType::AppTrace, MessageType::AppTrace);
    assert_ne!(MessageType::NwTrace, MessageType::AppTrace);
}
