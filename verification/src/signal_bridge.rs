//! The signal bridge: numbers outgoing envelopes, watches the numbers of
//! incoming ones, and keeps the line alive with heartbeats.

use crate::envelope::{parsed_envelope, EncodingError, MalformedEventError, SignalEnvelope, SignalKind};
use crate::payload::{encode_route_payload, lemma_signal_payload_len, signal_payload, string_from_utf8, texts};
use crate::wire::copy_range;
use vstd::prelude::*;
use vstd::utf8::{decode_utf8, valid_utf8};

verus! {

/// How an incoming envelope stands to the ones before it.
#[derive(Clone, Copy, Debug, PartialEq, Eq, Structural)]
pub enum Delivery {
    /// It carries the number that was expected.
    InOrder,
    /// Its number skips ahead: the envelopes from `expected` up to, but not
    /// including, `got` have not arrived.
    SequenceGapDetected { expected: u64, got: u64 },
    /// Its number was seen already, or lies before one that was.
    Duplicate,
}

/// One end of the cross-process signal line.
pub struct SignalBridge {
    /// The number that the next outgoing envelope gets.
    pub signal_count: u64,
    /// The number that the next incoming envelope should carry.
    pub expected_inbound: u64,
    /// When the last envelope went out.
    pub last_sent_at: u64,
    /// How long the line may stay silent before a heartbeat is due.
    pub heartbeat_interval: u64,
}

/// The number expected after `sequence` has arrived.
pub open spec fn number_after(sequence: u64) -> u64 {
    if sequence == u64::MAX {
        u64::MAX
    } else {
        (sequence + 1) as u64
    }
}

/// How an envelope numbered `sequence` stands when `expected` is awaited.
pub open spec fn delivery_of(expected: u64, sequence: u64) -> Delivery {
    if sequence == expected {
        Delivery::InOrder
    } else if sequence > expected {
        Delivery::SequenceGapDetected { expected, got: sequence }
    } else {
        Delivery::Duplicate
    }
}

/// `sequences` are the numbers given by a run of successful sends on a
/// bridge whose counter stood at `initial`: each send gives the counter's
/// value and moves the counter on by one.
pub open spec fn sent_in_turn(initial: u64, sequences: Seq<u64>) -> bool
    decreases sequences.len(),
{
    if sequences.len() == 0 {
        true
    } else {
        &&& sent_in_turn(initial, sequences.drop_last())
        &&& sequences.last() == (if sequences.len() == 1 {
            initial as int
        } else {
            sequences[sequences.len() - 2] + 1
        })
    }
}

impl SignalBridge {
    /// A bridge whose first outgoing envelope gets number 0 and that sends
    /// no heartbeats until an interval is set.
    pub fn new() -> (result: Self)
        ensures
            result.signal_count == 0,
            result.expected_inbound == 0,
            result.last_sent_at == 0,
            result.heartbeat_interval == u64::MAX,
    {
        SignalBridge { signal_count: 0, expected_inbound: 0, last_sent_at: 0, heartbeat_interval: u64::MAX }
    }

    /// A bridge whose counter starts at `initial`.
    pub fn starting_at(initial: u64) -> (result: Self)
        ensures
            result.signal_count == initial,
            result.expected_inbound == 0,
            result.last_sent_at == 0,
            result.heartbeat_interval == u64::MAX,
    {
        SignalBridge { signal_count: initial, expected_inbound: 0, last_sent_at: 0, heartbeat_interval: u64::MAX }
    }

    /// Sets the heartbeat interval.
    pub fn with_heartbeat_interval(self, interval: u64) -> (result: Self)
        ensures
            result.heartbeat_interval == interval,
            result.signal_count == self.signal_count,
            result.expected_inbound == self.expected_inbound,
            result.last_sent_at == self.last_sent_at,
    {
        let mut result = self;
        result.heartbeat_interval = interval;
        result
    }

    /// Numbers an outgoing envelope. The envelope gets the counter's value,
    /// and the counter moves on by one. A payload too long for the wire, or
    /// a counter at its end, is refused and leaves the bridge as it was.
    pub fn send(&mut self, kind: SignalKind, payload: Vec<u8>, now: u64) -> (result: Result<
        SignalEnvelope,
        EncodingError,
    >)
        ensures
            match result {
                Ok(envelope) => {
                    &&& payload@.len() <= u32::MAX
                    &&& old(self).signal_count < u64::MAX
                    &&& envelope.kind == kind
                    &&& envelope.payload == payload
                    &&& envelope.sequence == old(self).signal_count
                    &&& final(self).signal_count == old(self).signal_count + 1
                    &&& final(self).last_sent_at == now
                    &&& final(self).expected_inbound == old(self).expected_inbound
                    &&& final(self).heartbeat_interval == old(self).heartbeat_interval
                },
                Err(e) => {
                    &&& *final(self) == *old(self)
                    &&& e == if payload@.len() > u32::MAX {
                        EncodingError::TooLong
                    } else {
                        EncodingError::SequenceExhausted
                    }
                    &&& (payload@.len() > u32::MAX || old(self).signal_count == u64::MAX)
                },
            },
    {
        if payload.len() > 0xffff_ffff {
            return Err(EncodingError::TooLong);
        }
        if self.signal_count == u64::MAX {
            return Err(EncodingError::SequenceExhausted);
        }
        let sequence: u64 = self.signal_count;
        self.signal_count = sequence + 1;
        self.last_sent_at = now;
        Ok(SignalEnvelope { kind, payload, sequence })
    }

    /// Sends a text signal, for a caller without a clock: a `RouteAccepted`
    /// envelope whose payload is that of a route with the text as its only
    /// hop and an empty token path. The time of the last send stays as it
    /// was. A text too long for the wire, or a counter at its end, is
    /// refused and leaves the bridge as it was.
    pub fn send_signal(&mut self, signal: &str) -> (result: Result<SignalEnvelope, EncodingError>)
        ensures
            match result {
                Ok(envelope) => {
                    &&& signal_payload(signal@).len() <= u32::MAX
                    &&& old(self).signal_count < u64::MAX
                    &&& envelope.kind == SignalKind::RouteAccepted
                    &&& envelope.payload@ == signal_payload(signal@)
                    &&& envelope.sequence == old(self).signal_count
                    &&& final(self).signal_count == old(self).signal_count + 1
                    &&& final(self).last_sent_at == old(self).last_sent_at
                    &&& final(self).expected_inbound == old(self).expected_inbound
                    &&& final(self).heartbeat_interval == old(self).heartbeat_interval
                },
                Err(e) => {
                    &&& *final(self) == *old(self)
                    &&& e == if signal_payload(signal@).len() > u32::MAX {
                        EncodingError::TooLong
                    } else {
                        EncodingError::SequenceExhausted
                    }
                    &&& (signal_payload(signal@).len() > u32::MAX || old(self).signal_count == u64::MAX)
                },
            },
    {
        let mut hops: Vec<String> = Vec::new();
        hops.push(signal.to_owned());
        let token_path: Vec<String> = Vec::new();
        proof {
            assert(texts(hops@) =~= seq![signal@]);
            assert(texts(token_path@) =~= Seq::<Seq<char>>::empty());
            lemma_signal_payload_len(signal@);
        }
        let payload = match encode_route_payload(&hops, &token_path) {
            Ok(payload) => payload,
            Err(e) => {
                return Err(e);
            },
        };
        let at: u64 = self.last_sent_at;
        self.send(SignalKind::RouteAccepted, payload, at)
    }

    /// The acknowledgement text of the line.
    pub fn receive_signal(&self) -> (result: String)
        ensures
            result@ == "SIGNAL_RECEIVED"@,
    {
        "SIGNAL_RECEIVED".to_owned()
    }

    /// Takes note of an incoming envelope's number and says how it stands
    /// to the ones before it. A gap or a duplicate is information for the
    /// caller, no failure. The number awaited next never moves back.
    pub fn note_inbound(&mut self, sequence: u64) -> (delivery: Delivery)
        ensures
            delivery == delivery_of(old(self).expected_inbound, sequence),
            final(self).expected_inbound == if sequence >= old(self).expected_inbound {
                number_after(sequence)
            } else {
                old(self).expected_inbound
            },
            final(self).expected_inbound >= old(self).expected_inbound,
            final(self).signal_count == old(self).signal_count,
            final(self).last_sent_at == old(self).last_sent_at,
            final(self).heartbeat_interval == old(self).heartbeat_interval,
    {
        let expected: u64 = self.expected_inbound;
        if sequence < expected {
            return Delivery::Duplicate;
        }
        self.expected_inbound = if sequence == u64::MAX {
            u64::MAX
        } else {
            sequence + 1
        };
        if sequence == expected {
            Delivery::InOrder
        } else {
            Delivery::SequenceGapDetected { expected, got: sequence }
        }
    }

    /// Takes one incoming buffer: decodes the envelope in it and notes its
    /// number. Bytes that are no envelope leave the bridge as it was.
    pub fn receive(&mut self, bytes: &[u8]) -> (result: Result<(SignalEnvelope, Delivery), MalformedEventError>)
        ensures
            match result {
                Ok((envelope, delivery)) => {
                    &&& parsed_envelope(bytes@) == Ok::<_, MalformedEventError>(
                        (envelope.kind, envelope.sequence, envelope.payload@),
                    )
                    &&& delivery == delivery_of(old(self).expected_inbound, envelope.sequence)
                    &&& final(self).expected_inbound == if envelope.sequence >= old(self).expected_inbound {
                        number_after(envelope.sequence)
                    } else {
                        old(self).expected_inbound
                    }
                    &&& final(self).signal_count == old(self).signal_count
                    &&& final(self).last_sent_at == old(self).last_sent_at
                    &&& final(self).heartbeat_interval == old(self).heartbeat_interval
                },
                Err(e) => parsed_envelope(bytes@) == Err::<(SignalKind, u64, Seq<u8>), _>(e) && *final(self) == *old(
                    self,
                ),
            },
    {
        match SignalEnvelope::decode(bytes) {
            Ok(envelope) => {
                let delivery = self.note_inbound(envelope.sequence);
                Ok((envelope, delivery))
            },
            Err(e) => Err(e),
        }
    }

    /// Whether the line has been silent for a whole interval at `now`.
    pub open spec fn heartbeat_due(&self, now: u64) -> bool {
        now >= self.last_sent_at && now - self.last_sent_at >= self.heartbeat_interval
    }

    /// Emits a heartbeat if one is due and a number is left for it: an
    /// envelope of kind `Heartbeat` with an empty payload, numbered like any
    /// other. Otherwise the bridge stays as it was.
    pub fn heartbeat(&mut self, now: u64) -> (result: Option<SignalEnvelope>)
        ensures
            result is Some <==> old(self).heartbeat_due(now) && old(self).signal_count < u64::MAX,
            match result {
                Some(envelope) => {
                    &&& envelope.kind == SignalKind::Heartbeat
                    &&& envelope.payload@.len() == 0
                    &&& envelope.sequence == old(self).signal_count
                    &&& final(self).signal_count == old(self).signal_count + 1
                    &&& final(self).last_sent_at == now
                    &&& final(self).expected_inbound == old(self).expected_inbound
                    &&& final(self).heartbeat_interval == old(self).heartbeat_interval
                },
                None => *final(self) == *old(self),
            },
    {
        if now >= self.last_sent_at && now - self.last_sent_at >= self.heartbeat_interval {
            match self.send(SignalKind::Heartbeat, Vec::new(), now) {
                Ok(envelope) => Some(envelope),
                Err(_) => None,
            }
        } else {
            None
        }
    }
}

/// A fresh bridge on the heap, for a caller that keeps it behind a handle.
pub fn bridge_init() -> (bridge: Box<SignalBridge>)
    ensures
        bridge.signal_count == 0,
        bridge.expected_inbound == 0,
        bridge.last_sent_at == 0,
        bridge.heartbeat_interval == u64::MAX,
{
    Box::new(SignalBridge::new())
}

/// The text that signal bytes stand for: what they spell in UTF-8, or
/// `INVALID_SIGNAL` where they spell nothing.
pub open spec fn signal_text(signal: Seq<u8>) -> Seq<char> {
    if valid_utf8(signal) {
        decode_utf8(signal)
    } else {
        "INVALID_SIGNAL"@
    }
}

/// Sends one text signal, given as bytes, over the caller's bridge: the
/// envelope gets the bridge's next number and carries the payload of the
/// signal's text, as `send_signal` writes it.
pub fn bridge_send_signal(bridge: &mut SignalBridge, signal: &[u8]) -> (result: Result<
    SignalEnvelope,
    EncodingError,
>)
    ensures
        match result {
            Ok(envelope) => {
                &&& signal_payload(signal_text(signal@)).len() <= u32::MAX
                &&& old(bridge).signal_count < u64::MAX
                &&& envelope.kind == SignalKind::RouteAccepted
                &&& envelope.payload@ == signal_payload(signal_text(signal@))
                &&& envelope.sequence == old(bridge).signal_count
                &&& final(bridge).signal_count == old(bridge).signal_count + 1
                &&& final(bridge).last_sent_at == old(bridge).last_sent_at
                &&& final(bridge).expected_inbound == old(bridge).expected_inbound
                &&& final(bridge).heartbeat_interval == old(bridge).heartbeat_interval
            },
            Err(e) => {
                &&& *final(bridge) == *old(bridge)
                &&& e == if signal_payload(signal_text(signal@)).len() > u32::MAX {
                    EncodingError::TooLong
                } else {
                    EncodingError::SequenceExhausted
                }
                &&& (signal_payload(signal_text(signal@)).len() > u32::MAX || old(bridge).signal_count
                    == u64::MAX)
            },
        },
{
    let raw = copy_range(signal, 0, signal.len());
    assert(raw@ =~= signal@);
    let text = match string_from_utf8(raw) {
        Some(text) => text,
        None => "INVALID_SIGNAL".to_owned(),
    };
    bridge.send_signal(text.as_str())
}

/// The numbers given by any run of successful sends are contiguous from the
/// counter's first value, and so no two of them are equal.
pub proof fn lemma_sequences_contiguous(initial: u64, sequences: Seq<u64>)
    requires
        sent_in_turn(initial, sequences),
    ensures
        forall|i: int| 0 <= i < sequences.len() ==> #[trigger] sequences[i] == initial + i,
        forall|i: int, j: int| 0 <= i < j < sequences.len() ==> sequences[i] != sequences[j],
    decreases sequences.len(),
{
    if sequences.len() > 0 {
        let earlier = sequences.drop_last();
        lemma_sequences_contiguous(initial, earlier);
        let last = sequences.len() - 1;
        if last > 0 {
            assert(earlier[last - 1] == sequences[last - 1]);
        }
        assert forall|i: int| 0 <= i < sequences.len() implies #[trigger] sequences[i] == initial + i by {
            if i < last {
                assert(earlier[i] == sequences[i]);
            }
        }
    }
}

} // verus!
