use omniarb::envelope::{EncodingError, MalformedEventError, SignalEnvelope, SignalKind};
use omniarb::payload::{decode_route_payload, encode_route_payload};
use omniarb::wire::{push_be32, push_be64, read_be32, read_be64};

fn strings(items: &[&str]) -> Vec<String> {
    items.iter().map(|s| s.to_string()).collect()
}

#[test]
fn envelope_bytes_are_exact() {
    let envelope =
        SignalEnvelope { kind: SignalKind::RouteAccepted, payload: vec![0xAA, 0xBB], sequence: 0x0102_0304_0506_0708 };
    assert_eq!(envelope.encode(), Ok(vec![1, 1, 2, 3, 4, 5, 6, 7, 8, 0, 0, 0, 2, 0xAA, 0xBB]));
}

#[test]
fn each_kind_has_its_tag() {
    assert_eq!(SignalKind::RouteAccepted.tag(), 1);
    assert_eq!(SignalKind::ExecutionAck.tag(), 2);
    assert_eq!(SignalKind::ExecutionNack.tag(), 3);
    assert_eq!(SignalKind::Heartbeat.tag(), 4);
    assert_eq!(SignalKind::from_tag(0), None);
    assert_eq!(SignalKind::from_tag(5), None);
    for kind in [SignalKind::RouteAccepted, SignalKind::ExecutionAck, SignalKind::ExecutionNack, SignalKind::Heartbeat] {
        assert_eq!(SignalKind::from_tag(kind.tag()), Some(kind));
    }
}

#[test]
fn envelope_round_trip() {
    for kind in [SignalKind::RouteAccepted, SignalKind::ExecutionAck, SignalKind::ExecutionNack, SignalKind::Heartbeat] {
        for sequence in [0u64, 1, 255, 256, 1 << 40, u64::MAX] {
            let envelope = SignalEnvelope { kind, payload: vec![9, 8, 7, 0, 255], sequence };
            let bytes = envelope.encode().unwrap();
            assert_eq!(bytes.len(), 13 + 5);
            assert_eq!(SignalEnvelope::decode(&bytes), Ok(envelope));
        }
    }
}

#[test]
fn empty_payload_is_thirteen_bytes() {
    let envelope = SignalEnvelope { kind: SignalKind::Heartbeat, payload: Vec::new(), sequence: 3 };
    let bytes = envelope.encode().unwrap();
    assert_eq!(bytes, vec![4, 0, 0, 0, 0, 0, 0, 0, 3, 0, 0, 0, 0]);
    assert_eq!(SignalEnvelope::decode(&bytes), Ok(envelope));
}

#[test]
fn decode_refuses_malformed_buffers() {
    assert_eq!(SignalEnvelope::decode(&[]), Err(MalformedEventError::Truncated));
    assert_eq!(SignalEnvelope::decode(&[1, 0, 0, 0, 0, 0, 0, 0, 0, 0, 0, 0]), Err(MalformedEventError::Truncated));
    assert_eq!(
        SignalEnvelope::decode(&[0, 0, 0, 0, 0, 0, 0, 0, 0, 0, 0, 0, 0]),
        Err(MalformedEventError::UnknownKind)
    );
    assert_eq!(
        SignalEnvelope::decode(&[9, 0, 0, 0, 0, 0, 0, 0, 0, 0, 0, 0, 0]),
        Err(MalformedEventError::UnknownKind)
    );
    assert_eq!(
        SignalEnvelope::decode(&[2, 0, 0, 0, 0, 0, 0, 0, 0, 0, 0, 0, 2, 7]),
        Err(MalformedEventError::Truncated)
    );
    assert_eq!(
        SignalEnvelope::decode(&[2, 0, 0, 0, 0, 0, 0, 0, 0, 0, 0, 0, 1, 7, 8]),
        Err(MalformedEventError::TrailingBytes)
    );
}

#[test]
fn big_endian_helpers_are_exact() {
    let mut out = vec![0xEE];
    push_be32(&mut out, 0x0A0B_0C0D);
    push_be64(&mut out, 0x1122_3344_5566_7788);
    assert_eq!(out, vec![0xEE, 0x0A, 0x0B, 0x0C, 0x0D, 0x11, 0x22, 0x33, 0x44, 0x55, 0x66, 0x77, 0x88]);
    assert_eq!(read_be32(&out, 1), 0x0A0B_0C0D);
    assert_eq!(read_be64(&out, 5), 0x1122_3344_5566_7788);
}

#[test]
fn route_payload_bytes_are_exact() {
    let bytes = encode_route_payload(&strings(&["ab"]), &strings(&["X", "é"])).unwrap();
    assert_eq!(
        bytes,
        vec![0, 0, 0, 1, 0, 0, 0, 2, b'a', b'b', 0, 0, 0, 2, 0, 0, 0, 1, b'X', 0, 0, 0, 2, 0xC3, 0xA9]
    );
}

#[test]
fn route_payload_round_trip() {
    let hops = strings(&["uniswap-v3:0x88e6", "sushiswap:0x397f", "quickswap:päir"]);
    let token_path = strings(&["WETH", "USDC", "", "日本語", "WETH"]);
    let bytes = encode_route_payload(&hops, &token_path).unwrap();
    assert_eq!(decode_route_payload(&bytes), Ok((hops, token_path)));
}

#[test]
fn route_accepted_envelope_round_trip() {
    let hops = strings(&["a→b", "b→c", "c→a"]);
    let token_path = strings(&["A", "B", "C", "A"]);
    let payload = encode_route_payload(&hops, &token_path).unwrap();
    let envelope = SignalEnvelope { kind: SignalKind::RouteAccepted, payload: payload.clone(), sequence: 41 };
    let bytes = envelope.encode().unwrap();
    let back = SignalEnvelope::decode(&bytes).unwrap();
    assert_eq!(back.kind, SignalKind::RouteAccepted);
    assert_eq!(back.sequence, 41);
    assert_eq!(back.payload, payload);
    assert_eq!(decode_route_payload(&back.payload), Ok((hops, token_path)));
    assert_eq!(back.encode().unwrap(), bytes);
}

#[test]
fn empty_lists_round_trip() {
    let bytes = encode_route_payload(&Vec::new(), &Vec::new()).unwrap();
    assert_eq!(bytes, vec![0, 0, 0, 0, 0, 0, 0, 0]);
    assert_eq!(decode_route_payload(&bytes), Ok((Vec::new(), Vec::new())));
}

#[test]
fn payload_decode_refuses_malformed_buffers() {
    assert_eq!(decode_route_payload(&[]), Err(MalformedEventError::Truncated));
    assert_eq!(decode_route_payload(&[0, 0, 0, 0]), Err(MalformedEventError::Truncated));
    assert_eq!(decode_route_payload(&[0, 0, 0, 1, 0, 0, 0, 0]), Err(MalformedEventError::Truncated));
    assert_eq!(decode_route_payload(&[0, 0, 0, 1, 0, 0, 0, 3, b'a', b'b']), Err(MalformedEventError::Truncated));
    assert_eq!(
        decode_route_payload(&[0, 0, 0, 1, 0, 0, 0, 1, 0xFF, 0, 0, 0, 0]),
        Err(MalformedEventError::InvalidUtf8)
    );
    assert_eq!(
        decode_route_payload(&[0, 0, 0, 1, 0, 0, 0, 2, 0xC3, 0x28, 0, 0, 0, 0]),
        Err(MalformedEventError::InvalidUtf8)
    );
    assert_eq!(decode_route_payload(&[0, 0, 0, 0, 0, 0, 0, 0, 1]), Err(MalformedEventError::TrailingBytes));
    assert_eq!(decode_route_payload(&[0xFF, 0xFF, 0xFF, 0xFF]), Err(MalformedEventError::Truncated));
}

#[test]
fn encoding_errors_are_distinct() {
    assert_ne!(EncodingError::TooLong, EncodingError::SequenceExhausted);
}
