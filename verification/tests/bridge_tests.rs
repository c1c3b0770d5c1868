use omniarb::envelope::{EncodingError, MalformedEventError, SignalEnvelope, SignalKind};
use omniarb::payload::decode_route_payload;
use omniarb::queue::{OverflowPolicy, PushOutcome, RouteQueue};
use omniarb::prefilter::Route;
use omniarb::signal_bridge::{bridge_init, bridge_send_signal, Delivery, SignalBridge};

fn numbered(n: i64) -> Route {
    Route { hops: vec![format!("hop{}", n)], estimated_profit: n, token_path: Vec::new() }
}

#[test]
fn new_bridge_starts_at_zero() {
    let bridge = SignalBridge::new();
    assert_eq!(bridge.signal_count, 0);
    assert_eq!(bridge.expected_inbound, 0);
}

#[test]
fn receive_signal_gives_the_acknowledgement_text() {
    assert_eq!(SignalBridge::new().receive_signal(), "SIGNAL_RECEIVED");
}

#[test]
fn send_signal_numbers_and_counts() {
    let mut bridge = SignalBridge::new();
    let first = bridge.send_signal("ROUTE_FOUND").unwrap();
    assert_eq!(first.kind, SignalKind::RouteAccepted);
    assert_eq!(first.sequence, 0);
    let mut expected = vec![0, 0, 0, 1, 0, 0, 0, 11];
    expected.extend_from_slice(b"ROUTE_FOUND");
    expected.extend_from_slice(&[0, 0, 0, 0]);
    assert_eq!(first.payload, expected);
    assert_eq!(bridge.signal_count, 1);
    let second = bridge.send_signal("né").unwrap();
    assert_eq!(second.sequence, 1);
    assert_eq!(second.payload, vec![0, 0, 0, 1, 0, 0, 0, 3, b'n', 0xC3, 0xA9, 0, 0, 0, 0]);
    assert_eq!(bridge.signal_count, 2);
    assert_eq!(bridge.last_sent_at, 0);
}

#[test]
fn text_signal_decodes_as_a_route_of_one_hop() {
    let mut bridge = SignalBridge::starting_at(9);
    for text in ["GO", "", "päir → ok"] {
        let envelope = bridge.send_signal(text).unwrap();
        assert_eq!(decode_route_payload(&envelope.payload), Ok((vec![text.to_string()], Vec::new())));
        let bytes = envelope.encode().unwrap();
        assert_eq!(SignalEnvelope::decode(&bytes), Ok(envelope));
    }
    assert_eq!(bridge.signal_count, 12);
}

#[test]
fn thousand_sends_are_unique_and_contiguous() {
    let mut bridge = SignalBridge::starting_at(5_000);
    let mut seen: Vec<u64> = Vec::new();
    for i in 0..1000u64 {
        let envelope = bridge.send(SignalKind::RouteAccepted, vec![(i % 256) as u8], i).unwrap();
        seen.push(envelope.sequence);
    }
    seen.sort();
    let expected: Vec<u64> = (5_000..6_000).collect();
    assert_eq!(seen, expected);
    assert_eq!(bridge.signal_count, 6_000);
    assert_eq!(bridge.last_sent_at, 999);
}

#[test]
fn exhausted_counter_refuses_and_keeps_the_bridge() {
    let mut bridge = SignalBridge::starting_at(u64::MAX - 1);
    assert_eq!(bridge.send(SignalKind::ExecutionAck, Vec::new(), 4).unwrap().sequence, u64::MAX - 1);
    assert_eq!(bridge.send(SignalKind::ExecutionAck, Vec::new(), 9), Err(EncodingError::SequenceExhausted));
    assert_eq!(bridge.signal_count, u64::MAX);
    assert_eq!(bridge.last_sent_at, 4);
    assert_eq!(bridge.send_signal("x"), Err(EncodingError::SequenceExhausted));
}

#[test]
fn gaps_and_duplicates_are_told_apart() {
    let mut bridge = SignalBridge::new();
    assert_eq!(bridge.note_inbound(0), Delivery::InOrder);
    assert_eq!(bridge.note_inbound(1), Delivery::InOrder);
    assert_eq!(bridge.note_inbound(5), Delivery::SequenceGapDetected { expected: 2, got: 5 });
    assert_eq!(bridge.expected_inbound, 6);
    assert_eq!(bridge.note_inbound(3), Delivery::Duplicate);
    assert_eq!(bridge.expected_inbound, 6);
    assert_eq!(bridge.note_inbound(6), Delivery::InOrder);
    assert_eq!(bridge.note_inbound(u64::MAX), Delivery::SequenceGapDetected { expected: 7, got: u64::MAX });
    assert_eq!(bridge.expected_inbound, u64::MAX);
}

#[test]
fn receive_decodes_and_notes_the_number() {
    let mut bridge = SignalBridge::new();
    let ack = SignalEnvelope { kind: SignalKind::ExecutionAck, payload: vec![1, 2, 3], sequence: 2 };
    let bytes = ack.encode().unwrap();
    assert_eq!(bridge.receive(&bytes), Ok((ack, Delivery::SequenceGapDetected { expected: 0, got: 2 })));
    assert_eq!(bridge.expected_inbound, 3);
    assert_eq!(bridge.receive(&[7, 7]), Err(MalformedEventError::Truncated));
    assert_eq!(bridge.expected_inbound, 3);
}

#[test]
fn heartbeat_comes_after_a_silent_interval() {
    let mut bridge = SignalBridge::new().with_heartbeat_interval(100);
    bridge.send(SignalKind::RouteAccepted, vec![1], 1_000).unwrap();
    assert_eq!(bridge.heartbeat(1_099), None);
    assert_eq!(bridge.heartbeat(900), None);
    let beat = bridge.heartbeat(1_100).unwrap();
    assert_eq!(beat, SignalEnvelope { kind: SignalKind::Heartbeat, payload: Vec::new(), sequence: 1 });
    assert_eq!(bridge.last_sent_at, 1_100);
    assert_eq!(bridge.heartbeat(1_150), None);
    assert_eq!(bridge.heartbeat(1_200).unwrap().sequence, 2);
}

#[test]
fn text_signal_from_bytes_falls_back_on_bad_utf8() {
    let mut bridge = SignalBridge::new();
    let good = bridge_send_signal(&mut bridge, b"GO").unwrap();
    assert_eq!(decode_route_payload(&good.payload), Ok((vec!["GO".to_string()], Vec::new())));
    assert_eq!(good.sequence, 0);
    let accented = bridge_send_signal(&mut bridge, &[0xC3, 0xA9]).unwrap();
    assert_eq!(accented.payload, vec![0, 0, 0, 1, 0, 0, 0, 2, 0xC3, 0xA9, 0, 0, 0, 0]);
    let bad = bridge_send_signal(&mut bridge, &[0xFF, 0xFE]).unwrap();
    assert_eq!(decode_route_payload(&bad.payload), Ok((vec!["INVALID_SIGNAL".to_string()], Vec::new())));
    assert_eq!(bad.kind, SignalKind::RouteAccepted);
}

#[test]
fn signals_sent_in_turn_get_rising_numbers() {
    let mut bridge = bridge_init();
    let first = bridge_send_signal(&mut bridge, b"one").unwrap();
    let second = bridge_send_signal(&mut bridge, b"two").unwrap();
    let third = bridge_send_signal(&mut bridge, &[0x80]).unwrap();
    assert_eq!((first.sequence, second.sequence, third.sequence), (0, 1, 2));
    assert_eq!(bridge.signal_count, 3);
}

#[test]
fn text_signal_on_an_exhausted_bridge_is_refused() {
    let mut bridge = SignalBridge::starting_at(u64::MAX);
    assert_eq!(bridge_send_signal(&mut bridge, b"late"), Err(EncodingError::SequenceExhausted));
    assert_eq!(bridge.signal_count, u64::MAX);
}

#[test]
fn bridge_init_gives_a_fresh_bridge() {
    let bridge = bridge_init();
    assert_eq!(bridge.signal_count, 0);
}

#[test]
fn flooded_drop_oldest_queue_keeps_the_newest_ten() {
    let mut queue = RouteQueue::new(10, OverflowPolicy::DropOldest);
    let mut gone: Vec<i64> = Vec::new();
    for n in 0..1000i64 {
        match queue.push(numbered(n)) {
            PushOutcome::Enqueued => assert!(n < 10),
            PushOutcome::DroppedOldest(route) => gone.push(route.estimated_profit),
            PushOutcome::Full(_) => panic!("a drop-oldest queue never blocks"),
        }
    }
    assert_eq!(gone, (0..990).collect::<Vec<i64>>());
    assert_eq!(queue.dropped(), 990);
    assert_eq!(queue.len(), 10);
    let mut left: Vec<i64> = Vec::new();
    loop {
        match queue.pop() {
            Some(route) => left.push(route.estimated_profit),
            None => break,
        }
    }
    assert_eq!(left, (990..1000).collect::<Vec<i64>>());
}

#[test]
fn blocking_queue_hands_the_route_back() {
    let mut queue = RouteQueue::new(2, OverflowPolicy::Block);
    assert_eq!(queue.capacity(), 2);
    assert_eq!(queue.policy(), OverflowPolicy::Block);
    assert!(matches!(queue.push(numbered(1)), PushOutcome::Enqueued));
    assert!(matches!(queue.push(numbered(2)), PushOutcome::Enqueued));
    match queue.push(numbered(3)) {
        PushOutcome::Full(route) => assert_eq!(route.estimated_profit, 3),
        _ => panic!("a full blocking queue hands the route back"),
    }
    assert_eq!(queue.dropped(), 0);
    assert_eq!(queue.pop().unwrap().estimated_profit, 1);
    assert!(matches!(queue.push(numbered(3)), PushOutcome::Enqueued));
    assert_eq!(queue.pop().unwrap().estimated_profit, 2);
    assert_eq!(queue.pop().unwrap().estimated_profit, 3);
    assert!(queue.pop().is_none());
}

#[test]
fn queue_without_room_drops_what_it_is_offered() {
    let mut queue = RouteQueue::new(0, OverflowPolicy::DropOldest);
    match queue.push(numbered(8)) {
        PushOutcome::DroppedOldest(route) => assert_eq!(route.estimated_profit, 8),
        _ => panic!("nothing fits a queue of capacity 0"),
    }
    assert_eq!(queue.len(), 0);
    assert_eq!(queue.dropped(), 1);
}
