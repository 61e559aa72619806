use dlt_user::envelope::{DltLogLevel, LogEnvelope};
use dlt_user::lockless::{LocklessBuffer, MAX_BUFFER_CAPACITY};
use dlt_user::protocol::DltMessage;
use dlt_user::ring::{BufferStats, EmitError, OverflowMode, RingBuffer};
use dlt_user::types::{AppId, ContextId, EcuId};

fn ring_envelope(text: &str) -> LogEnvelope {
    LogEnvelope {
        message: DltMessage::new_verbose_at(
            EcuId::new("ECU1"),
            AppId::new("RING"),
            ContextId::new("TEST"),
            text,
            1,
            2,
        ),
        level: DltLogLevel::Info,
        buffer_id: 0,
        local_print: false,
        app_id: AppId::new("RING"),
        ctx_id: ContextId::new("TEST"),
    }
}

fn ring_text(envelope: &LogEnvelope) -> String {
    envelope.message.extract_string_payload().unwrap()
}

fn ring_texts(batch: &[LogEnvelope]) -> Vec<String> {
    batch.iter().map(ring_text).collect()
}

#[test]
fn lockless_buffer_is_first_in_first_out() {
    let mut buffer = LocklessBuffer::new(3);
    assert_eq!(buffer.capacity(), 3);
    assert_eq!(buffer.len(), 0);
    assert!(buffer.pop().is_none());
    assert!(buffer.push(ring_envelope("a")).is_ok());
    assert!(buffer.push(ring_envelope("b")).is_ok());
    assert_eq!(buffer.len(), 2);
    assert_eq!(ring_text(&buffer.pop().unwrap()), "a");
    assert!(buffer.push(ring_envelope("c")).is_ok());
    assert_eq!(ring_text(&buffer.pop().unwrap()), "b");
    assert_eq!(ring_text(&buffer.pop().unwrap()), "c");
    assert!(buffer.pop().is_none());
    assert_eq!(buffer.capacity(), 3);
}

#[test]
fn full_lockless_buffer_hands_the_item_back() {
    let mut buffer = LocklessBuffer::new(2);
    assert!(buffer.push(ring_envelope("a")).is_ok());
    assert!(buffer.push(ring_envelope("b")).is_ok());
    let back = buffer.push(ring_envelope("c")).unwrap_err();
    assert_eq!(ring_text(&back), "c");
    assert_eq!(buffer.len(), 2);
    assert_eq!(ring_text(&buffer.pop().unwrap()), "a");
    assert_eq!(ring_text(&buffer.pop().unwrap()), "b");
}

#[test]
fn force_push_displaces_the_oldest() {
    let mut buffer = LocklessBuffer::new(2);
    assert!(buffer.force_push(ring_envelope("a")).is_none());
    assert!(buffer.force_push(ring_envelope("b")).is_none());
    let out = buffer.force_push(ring_envelope("c")).expect("the oldest");
    assert_eq!(ring_text(&out), "a");
    assert_eq!(buffer.len(), 2);
    let out = buffer.force_push(ring_envelope("d")).expect("the oldest");
    assert_eq!(ring_text(&out), "b");
    assert_eq!(ring_text(&buffer.pop().unwrap()), "c");
    assert_eq!(ring_text(&buffer.pop().unwrap()), "d");
    assert!(buffer.pop().is_none());
}

#[test]
fn largest_capacity_is_at_least_the_default() {
    assert!(MAX_BUFFER_CAPACITY >= 8192);
    let buffer = LocklessBuffer::new(8192);
    assert_eq!(buffer.capacity(), 8192);
}

#[test]
fn slots_of_the_largest_capacity_fit_into_memory_addresses() {
    // a slot is an envelope and a stamp of the size of an index
    let slot = std::mem::size_of::<LogEnvelope>() + 2 * std::mem::size_of::<usize>();
    assert!(slot < 128, "{} bytes", slot);
    assert_eq!(MAX_BUFFER_CAPACITY, usize::MAX / 256);
    assert!(MAX_BUFFER_CAPACITY.checked_mul(128).unwrap() <= isize::MAX as usize);
    assert!((MAX_BUFFER_CAPACITY + 1).checked_next_power_of_two().is_some());
}

#[test]
fn overflow_mode_bytes() {
    assert_eq!(OverflowMode::from_u8(0), OverflowMode::Overwrite);
    assert_eq!(OverflowMode::from_u8(1), OverflowMode::DropNewest);
    assert_eq!(OverflowMode::from_u8(2), OverflowMode::BlockWithTimeout);
    assert_eq!(OverflowMode::from_u8(3), OverflowMode::Overwrite);
    assert_eq!(OverflowMode::from_u8(255), OverflowMode::Overwrite);
    assert_eq!(OverflowMode::Overwrite.as_u8(), 0);
    assert_eq!(OverflowMode::DropNewest.as_u8(), 1);
    assert_eq!(OverflowMode::BlockWithTimeout.as_u8(), 2);
}

#[test]
fn fresh_ring_is_empty_and_open() {
    let ring = RingBuffer::new(5);
    assert_eq!(ring.capacity(), 5);
    assert_eq!(ring.len(), 0);
    assert!(!ring.is_closed());
    assert!(ring.has_room());
    assert_eq!(ring.stats(), BufferStats { enqueued: 0, dropped: 0, lost: 0, sent: 0, in_hand: 0 });
    assert_eq!(BufferStats::new(), ring.stats());
}

#[test]
fn overwrite_keeps_the_most_recent() {
    let mut ring = RingBuffer::new(8);
    for i in 0..16 {
        let outcome = ring.enqueue(OverflowMode::Overwrite, ring_envelope(&format!("msg {}", i)));
        if i < 8 {
            assert_eq!(outcome, Ok(()));
        } else {
            assert_eq!(outcome, Err(EmitError::RingFull));
        }
        assert!(ring.len() <= 8);
    }
    let stats = ring.stats();
    assert_eq!((stats.enqueued, stats.dropped, stats.sent), (16, 8, 0));
    assert_eq!(ring.len(), 8);
    let first = ring.take_batch(4);
    assert_eq!(ring_texts(&first), vec!["msg 8", "msg 9", "msg 10", "msg 11"]);
    ring.mark_sent(first.len());
    let second = ring.take_batch(4);
    assert_eq!(ring_texts(&second), vec!["msg 12", "msg 13", "msg 14", "msg 15"]);
    ring.mark_sent(second.len());
    let stats = ring.stats();
    assert_eq!(stats.sent + ring.len() as u64, 8);
    assert_eq!(stats.enqueued, stats.sent + stats.dropped + stats.lost + ring.len() as u64);
}

#[test]
fn drop_newest_keeps_the_first() {
    let mut ring = RingBuffer::new(4);
    for i in 0..10 {
        let outcome = ring.enqueue(OverflowMode::DropNewest, ring_envelope(&format!("m{}", i)));
        assert_eq!(outcome, if i < 4 { Ok(()) } else { Err(EmitError::RingFull) });
    }
    let stats = ring.stats();
    assert_eq!((stats.enqueued, stats.dropped), (10, 6));
    let batch = ring.take_batch(16);
    assert_eq!(ring_texts(&batch), vec!["m0", "m1", "m2", "m3"]);
    assert_eq!(ring.stats().in_hand, 4);
    ring.mark_sent(4);
    let stats = ring.stats();
    assert_eq!((stats.enqueued, stats.dropped, stats.sent, stats.in_hand), (10, 6, 4, 0));
}

#[test]
fn block_with_timeout_drops_the_arrival_that_finds_no_room() {
    let mut ring = RingBuffer::new(2);
    assert_eq!(ring.enqueue(OverflowMode::BlockWithTimeout, ring_envelope("a")), Ok(()));
    assert!(ring.has_room());
    assert_eq!(ring.enqueue(OverflowMode::BlockWithTimeout, ring_envelope("b")), Ok(()));
    assert!(!ring.has_room());
    assert_eq!(
        ring.enqueue(OverflowMode::BlockWithTimeout, ring_envelope("c")),
        Err(EmitError::RingTimeout)
    );
    let stats = ring.stats();
    assert_eq!((stats.enqueued, stats.dropped), (3, 1));
    assert_eq!(ring_texts(&ring.take_batch(8)), vec!["a", "b"]);
}

#[test]
fn capacity_one_with_overwrite_holds_the_latest() {
    let mut ring = RingBuffer::new(1);
    assert_eq!(ring.enqueue(OverflowMode::Overwrite, ring_envelope("first")), Ok(()));
    assert_eq!(ring.len(), 1);
    for i in 0..5 {
        let outcome = ring.enqueue(OverflowMode::Overwrite, ring_envelope(&format!("n{}", i)));
        assert_eq!(outcome, Err(EmitError::RingFull));
        assert_eq!(ring.len(), 1);
        assert_eq!(ring.stats().dropped, i + 1);
    }
    assert_eq!(ring.stats().enqueued, 6);
    assert_eq!(ring_texts(&ring.take_batch(4)), vec!["n4"]);
}

#[test]
fn mode_change_leaves_residents_in_order() {
    let mut ring = RingBuffer::new(3);
    assert!(ring.enqueue(OverflowMode::DropNewest, ring_envelope("a")).is_ok());
    assert!(ring.enqueue(OverflowMode::Overwrite, ring_envelope("b")).is_ok());
    assert!(ring.enqueue(OverflowMode::BlockWithTimeout, ring_envelope("c")).is_ok());
    let full = Err(EmitError::RingFull);
    assert_eq!(ring.enqueue(OverflowMode::DropNewest, ring_envelope("d")), full);
    assert_eq!(ring.enqueue(OverflowMode::Overwrite, ring_envelope("e")), full);
    assert_eq!(
        ring.enqueue(OverflowMode::BlockWithTimeout, ring_envelope("f")),
        Err(EmitError::RingTimeout)
    );
    assert_eq!(ring_texts(&ring.take_batch(0)), vec!["b"]);
    assert_eq!(ring_texts(&ring.take_batch(5)), vec!["c", "e"]);
    let stats = ring.stats();
    assert_eq!((stats.enqueued, stats.dropped, stats.in_hand), (6, 3, 3));
}

#[test]
fn try_recv_takes_one_into_the_hand() {
    let mut ring = RingBuffer::new(2);
    assert!(ring.try_recv().is_none());
    assert_eq!(ring.stats().in_hand, 0);
    assert!(ring.enqueue(OverflowMode::DropNewest, ring_envelope("a")).is_ok());
    assert_eq!(ring_text(&ring.try_recv().unwrap()), "a");
    assert_eq!(ring.stats().in_hand, 1);
    assert!(ring.try_recv().is_none());
    ring.mark_lost(1);
    let stats = ring.stats();
    assert_eq!((stats.enqueued, stats.lost, stats.sent, stats.in_hand), (1, 1, 0, 0));
}

#[test]
fn batch_is_at_most_the_batch_size_and_at_least_one() {
    let mut ring = RingBuffer::new(10);
    for i in 0..7 {
        assert!(ring.enqueue(OverflowMode::DropNewest, ring_envelope(&format!("{}", i))).is_ok());
    }
    assert_eq!(ring.take_batch(3).len(), 3);
    assert_eq!(ring.take_batch(0).len(), 1);
    assert_eq!(ring.take_batch(1).len(), 1);
    assert_eq!(ring.take_batch(usize::MAX).len(), 2);
    assert_eq!(ring.take_batch(4).len(), 0);
    assert_eq!(ring.stats().in_hand, 7);
}

#[test]
fn closed_ring_turns_arrivals_away_and_keeps_residents() {
    let mut ring = RingBuffer::new(2);
    assert!(ring.enqueue(OverflowMode::Overwrite, ring_envelope("kept")).is_ok());
    ring.close();
    assert!(ring.is_closed());
    let modes = [OverflowMode::Overwrite, OverflowMode::DropNewest, OverflowMode::BlockWithTimeout];
    for mode in modes {
        assert_eq!(ring.enqueue(mode, ring_envelope("late")), Err(EmitError::RingClosed));
    }
    let stats = ring.stats();
    assert_eq!((stats.enqueued, stats.dropped), (1, 0));
    assert_eq!(ring_texts(&ring.take_batch(4)), vec!["kept"]);
}

#[test]
fn counters_balance_after_a_mixed_run() {
    let mut ring = RingBuffer::new(5);
    let modes = [OverflowMode::Overwrite, OverflowMode::DropNewest, OverflowMode::BlockWithTimeout];
    let mut arrivals = 0u64;
    for round in 0..40usize {
        for k in 0..(round % 7) {
            let _ = ring.enqueue(modes[(round + k) % 3], ring_envelope("x"));
            arrivals += 1;
            assert!(ring.len() <= ring.capacity());
        }
        let batch = ring.take_batch(round % 4);
        if round % 3 == 0 {
            ring.mark_lost(batch.len());
        } else {
            ring.mark_sent(batch.len());
        }
        let stats = ring.stats();
        assert_eq!(stats.in_hand, 0);
        assert_eq!(stats.enqueued, arrivals);
        assert_eq!(stats.enqueued, stats.sent + stats.dropped + stats.lost + ring.len() as u64);
    }
}
