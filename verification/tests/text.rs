use dlt_user::bytes::{
    append_bytes, array4_at, push_u16_le, push_u32_le, read_u16_le, read_u32_le,
};
use dlt_user::clock::{epoch_reading, stamp, unix_time};
use dlt_user::config::BufferConfig;
use dlt_user::ring::OverflowMode;
use dlt_user::text::{
    decimal_len, push_decimal, push_decimal_padded, push_left_aligned, push_repeated,
    push_signed_decimal, text_of_padded,
};
use dlt_user::types::id_from_bytes;
use dlt_user::user::{dlt_buffer_stats_lines, dlt_set_overflow_mode, DltContext, DltUserState};
use dlt_user::DltLogLevel;
use std::time::{Duration, UNIX_EPOCH};

fn decimal(number: u64) -> String {
    let mut out = String::from(">");
    push_decimal(&mut out, number);
    out
}

#[test]
fn decimal_digits() {
    assert_eq!(decimal(0), ">0");
    assert_eq!(decimal(7), ">7");
    assert_eq!(decimal(10), ">10");
    assert_eq!(decimal(1_234_567_890), ">1234567890");
    assert_eq!(decimal(u64::MAX), ">18446744073709551615");
    for number in [0u64, 9, 10, 99, 100, 65_535, 4_294_967_295, u64::MAX] {
        assert_eq!(decimal_len(number), number.to_string().len());
    }
}

#[test]
fn signed_decimal_digits() {
    for number in [0i64, 1, -1, 42, -42, i32::MIN as i64, i32::MAX as i64, i64::MIN, i64::MAX] {
        let mut out = String::new();
        push_signed_decimal(&mut out, number);
        assert_eq!(out, number.to_string());
    }
}

#[test]
fn padded_decimal_digits() {
    let cases: [(u64, usize, &str, &str); 8] = [
        (42, 6, "0", "000042"),
        (42, 10, " ", "        42"),
        (0, 3, "0", "000"),
        (255, 3, "0", "255"),
        (1000, 3, "0", "1000"),
        (5, 0, "0", "5"),
        (5, 1, " ", "5"),
        (123_456, 6, "0", "123456"),
    ];
    for (number, width, fill, expected) in cases {
        let mut out = String::new();
        push_decimal_padded(&mut out, number, width, fill);
        assert_eq!(out, expected);
    }
}

#[test]
fn left_aligned_text_counts_characters() {
    let cases: [(&str, usize, &str); 6] = [
        ("LOG", 4, "LOG "),
        ("", 4, "    "),
        ("TEST", 4, "TEST"),
        ("LONGER", 4, "LONGER"),
        ("\u{e9}", 4, "\u{e9}   "),
        ("a\u{fffd}", 4, "a\u{fffd}  "),
    ];
    for (text, width, expected) in cases {
        let mut out = String::from("|");
        push_left_aligned(&mut out, text, width);
        assert_eq!(out, format!("|{}", expected));
    }
    let mut out = String::from("x");
    push_repeated(&mut out, "-", 3);
    push_repeated(&mut out, "+", 0);
    assert_eq!(out, "x---");
}

#[test]
fn padded_field_as_text() {
    assert_eq!(text_of_padded(b"ECU1"), "ECU1");
    assert_eq!(text_of_padded(b"E\0\0\0"), "E");
    assert_eq!(text_of_padded(b"\0\0"), "");
    assert_eq!(text_of_padded(b""), "");
    assert_eq!(text_of_padded(b"a\0b"), "a\0b");
    assert_eq!(text_of_padded(&[0xe4, 0xb8, 0x96, 0]), "\u{4e16}");
    assert_eq!(text_of_padded(&[0xe4, 0xb8, 0, 0]), "\u{fffd}");
}

#[test]
fn little_endian_integers() {
    let mut out: Vec<u8> = vec![9];
    push_u16_le(&mut out, 0x1234);
    push_u32_le(&mut out, 0x89ab_cdef);
    push_u16_le(&mut out, 0);
    push_u32_le(&mut out, u32::MAX);
    assert_eq!(out, vec![9, 0x34, 0x12, 0xef, 0xcd, 0xab, 0x89, 0, 0, 0xff, 0xff, 0xff, 0xff]);
    assert_eq!(read_u16_le(0x34, 0x12), 0x1234);
    assert_eq!(read_u16_le(0xff, 0xff), u16::MAX);
    assert_eq!(read_u32_le(0xef, 0xcd, 0xab, 0x89), 0x89ab_cdef);
    assert_eq!(read_u32_le(0, 0, 0, 0x80), 0x8000_0000);
    for value in [0u32, 1, 255, 256, 65_535, 65_536, 16_777_215, 16_777_216, u32::MAX] {
        let mut bytes = Vec::new();
        push_u32_le(&mut bytes, value);
        assert_eq!(bytes, value.to_le_bytes().to_vec());
        assert_eq!(read_u32_le(bytes[0], bytes[1], bytes[2], bytes[3]), value);
    }
    for value in [0u16, 1, 255, 256, 0x7fff, u16::MAX] {
        let mut bytes = Vec::new();
        push_u16_le(&mut bytes, value);
        assert_eq!(bytes, value.to_le_bytes().to_vec());
    }
}

#[test]
fn byte_helpers() {
    let mut out: Vec<u8> = vec![1, 2];
    append_bytes(&mut out, &[3, 4, 5]);
    append_bytes(&mut out, &[]);
    assert_eq!(out, vec![1, 2, 3, 4, 5]);
    assert_eq!(array4_at(&out, 0), [1, 2, 3, 4]);
    assert_eq!(array4_at(&out, 1), [2, 3, 4, 5]);
    assert_eq!(id_from_bytes(&out), [1, 2, 3, 4]);
    assert_eq!(id_from_bytes(&out[..2]), [1, 2, 0, 0]);
    assert_eq!(id_from_bytes(&[]), [0, 0, 0, 0]);
}

#[test]
fn clock_reads_a_plausible_time() {
    let (seconds, microseconds) = unix_time();
    assert!(microseconds < 1_000_000);
    assert!(seconds > 1_577_836_800);
    let (later, _) = unix_time();
    assert!(later >= seconds);
}

#[test]
fn statistics_as_lines() {
    let mut state = DltUserState::new(&BufferConfig {
        num_buffers: 2,
        buffer_sizes: vec![2, 4],
        batch_size: 16,
        overflow_mode: OverflowMode::DropNewest,
    });
    let context = DltContext::new("LOG", "TEST", "", "");
    for i in 0..5 {
        let _ = context.log_to_buffer(&mut state, DltLogLevel::Info, i, "m", Some(0));
    }
    let _ = context.log_to_buffer(&mut state, DltLogLevel::Info, 0, "m", Some(1));
    assert_eq!(
        dlt_buffer_stats_lines(&state),
        vec![
            "DLT Buffer Statistics (mode=DropNewest):",
            "  Buffer 0: enqueued=5, dropped=3, sent=0",
            "  Buffer 1: enqueued=1, dropped=0, sent=0",
        ]
    );
    assert_eq!(dlt_set_overflow_mode(&mut state, 2), Ok(()));
    assert_eq!(dlt_buffer_stats_lines(&state)[0], "DLT Buffer Statistics (mode=BlockWithTimeout):");
    assert_eq!(dlt_set_overflow_mode(&mut state, 0), Ok(()));
    assert_eq!(dlt_buffer_stats_lines(&state)[0], "DLT Buffer Statistics (mode=Overwrite):");
}

#[test]
fn reading_of_the_time_since_the_epoch() {
    assert_eq!(epoch_reading(Ok(Duration::new(5, 7_000))), (5, 7));
    assert_eq!(epoch_reading(Ok(Duration::new(0, 999))), (0, 0));
    assert_eq!(epoch_reading(Ok(Duration::new(u64::MAX, 999_999_999))), (u64::MAX, 999_999));
    let later = UNIX_EPOCH + Duration::from_secs(5);
    assert_eq!(epoch_reading(UNIX_EPOCH.duration_since(later)), (0, 0));
    assert_eq!(epoch_reading(later.duration_since(UNIX_EPOCH)), (5, 0));
}

#[test]
fn stamp_reduces_the_seconds_to_thirty_two_bits() {
    assert_eq!(stamp((0, 0)), (0, 0));
    assert_eq!(stamp((1_700_000_000, 999_999)), (1_700_000_000, 999_999));
    assert_eq!(stamp((u32::MAX as u64, 1)), (u32::MAX, 1));
    assert_eq!(stamp((u32::MAX as u64 + 1, 2)), (0, 2));
    assert_eq!(stamp((0x1_0000_0005, 3)), (5, 3));
    assert_eq!(stamp((u64::MAX, 4)), (u32::MAX, 4));
}
