//! The signal envelope and its wire format: a 1-byte kind tag, the 8-byte
//! big-endian sequence number, the 4-byte big-endian payload length, then
//! the payload.

use crate::wire::{be32, be64, copy_range, from_be32, from_be64, push_be32, push_be64, push_bytes, read_be32, read_be64};
use crate::wire::{lemma_be32_round_trip, lemma_be64_round_trip, lemma_from_be32_round_trip, lemma_from_be64_round_trip};
use vstd::prelude::*;

verus! {

/// What an envelope carries.
#[derive(Clone, Copy, Debug, PartialEq, Eq, Structural)]
pub enum SignalKind {
    RouteAccepted,
    ExecutionAck,
    ExecutionNack,
    Heartbeat,
}

/// The unit of cross-process communication.
#[derive(Debug, PartialEq, Eq)]
pub struct SignalEnvelope {
    pub kind: SignalKind,
    pub payload: Vec<u8>,
    pub sequence: u64,
}

/// Why bytes that came in are not an envelope or a route payload.
#[derive(Clone, Copy, Debug, PartialEq, Eq, Structural)]
pub enum MalformedEventError {
    /// The bytes end before the field that they announce.
    Truncated,
    /// The kind tag names no kind.
    UnknownKind,
    /// Bytes are left over after the last field.
    TrailingBytes,
    /// A string is not UTF-8.
    InvalidUtf8,
}

/// Why a value cannot be written in the wire format.
#[derive(Clone, Copy, Debug, PartialEq, Eq, Structural)]
pub enum EncodingError {
    /// A length or a count does not fit its four bytes.
    TooLong,
    /// No sequence number is left to give.
    SequenceExhausted,
}

/// Bytes before the payload: tag, sequence number and payload length.
pub const HEADER_LEN: usize = 13;

/// The tag byte of a kind.
pub open spec fn tag_of(kind: SignalKind) -> u8 {
    match kind {
        SignalKind::RouteAccepted => 1,
        SignalKind::ExecutionAck => 2,
        SignalKind::ExecutionNack => 3,
        SignalKind::Heartbeat => 4,
    }
}

/// The kind that a tag byte names, if any.
pub open spec fn kind_of_tag(tag: u8) -> Option<SignalKind> {
    if tag == 1 {
        Some(SignalKind::RouteAccepted)
    } else if tag == 2 {
        Some(SignalKind::ExecutionAck)
    } else if tag == 3 {
        Some(SignalKind::ExecutionNack)
    } else if tag == 4 {
        Some(SignalKind::Heartbeat)
    } else {
        None
    }
}

/// The wire form of an envelope whose payload fits its length field.
pub open spec fn envelope_bytes(kind: SignalKind, sequence: u64, payload: Seq<u8>) -> Seq<u8> {
    seq![tag_of(kind)] + be64(sequence) + be32(payload.len() as u32) + payload
}

/// What a buffer holds, read as exactly one envelope.
pub open spec fn parsed_envelope(bytes: Seq<u8>) -> Result<(SignalKind, u64, Seq<u8>), MalformedEventError> {
    if bytes.len() < HEADER_LEN {
        Err(MalformedEventError::Truncated)
    } else if kind_of_tag(bytes[0]) is None {
        Err(MalformedEventError::UnknownKind)
    } else if bytes.len() - HEADER_LEN < from_be32(bytes.subrange(9, 13)) {
        Err(MalformedEventError::Truncated)
    } else if bytes.len() - HEADER_LEN > from_be32(bytes.subrange(9, 13)) {
        Err(MalformedEventError::TrailingBytes)
    } else {
        Ok(
            (
                kind_of_tag(bytes[0])->Some_0,
                from_be64(bytes.subrange(1, 9)),
                bytes.subrange(HEADER_LEN as int, bytes.len() as int),
            ),
        )
    }
}

impl SignalKind {
    /// The tag byte of this kind.
    pub fn tag(self) -> (tag: u8)
        ensures
            tag == tag_of(self),
    {
        match self {
            SignalKind::RouteAccepted => 1,
            SignalKind::ExecutionAck => 2,
            SignalKind::ExecutionNack => 3,
            SignalKind::Heartbeat => 4,
        }
    }

    /// The kind that a tag byte names.
    pub fn from_tag(tag: u8) -> (kind: Option<SignalKind>)
        ensures
            kind == kind_of_tag(tag),
    {
        if tag == 1 {
            Some(SignalKind::RouteAccepted)
        } else if tag == 2 {
            Some(SignalKind::ExecutionAck)
        } else if tag == 3 {
            Some(SignalKind::ExecutionNack)
        } else if tag == 4 {
            Some(SignalKind::Heartbeat)
        } else {
            None
        }
    }
}

impl SignalEnvelope {
    /// Writes the envelope in the wire format. Only a payload too long for
    /// the length field is refused.
    pub fn encode(&self) -> (result: Result<Vec<u8>, EncodingError>)
        ensures
            match result {
                Ok(bytes) => self.payload@.len() <= u32::MAX && bytes@ == envelope_bytes(
                    self.kind,
                    self.sequence,
                    self.payload@,
                ),
                Err(e) => self.payload@.len() > u32::MAX && e == EncodingError::TooLong,
            },
    {
        if self.payload.len() > 0xffff_ffff {
            return Err(EncodingError::TooLong);
        }
        let mut out: Vec<u8> = Vec::new();
        out.push(self.kind.tag());
        push_be64(&mut out, self.sequence);
        push_be32(&mut out, self.payload.len() as u32);
        push_bytes(&mut out, self.payload.as_slice());
        Ok(out)
    }

    /// Reads a buffer that holds exactly one envelope.
    pub fn decode(bytes: &[u8]) -> (result: Result<SignalEnvelope, MalformedEventError>)
        ensures
            match result {
                Ok(envelope) => parsed_envelope(bytes@) == Ok::<_, MalformedEventError>(
                    (envelope.kind, envelope.sequence, envelope.payload@),
                ),
                Err(e) => parsed_envelope(bytes@) == Err::<(SignalKind, u64, Seq<u8>), _>(e),
            },
    {
        let len: usize = bytes.len();
        if len < HEADER_LEN {
            return Err(MalformedEventError::Truncated);
        }
        let kind = match SignalKind::from_tag(bytes[0]) {
            Some(kind) => kind,
            None => {
                return Err(MalformedEventError::UnknownKind);
            },
        };
        let sequence: u64 = read_be64(bytes, 1);
        let announced: u32 = read_be32(bytes, 9);
        let have: usize = len - HEADER_LEN;
        if have < announced as usize {
            return Err(MalformedEventError::Truncated);
        }
        if have > announced as usize {
            return Err(MalformedEventError::TrailingBytes);
        }
        let payload = copy_range(bytes, HEADER_LEN, len);
        Ok(SignalEnvelope { kind, payload, sequence })
    }
}

/// Decoding the wire form of an envelope gives back its kind, its sequence
/// number and its payload, byte for byte.
pub proof fn lemma_envelope_round_trip(kind: SignalKind, sequence: u64, payload: Seq<u8>)
    requires
        payload.len() <= u32::MAX,
    ensures
        parsed_envelope(envelope_bytes(kind, sequence, payload)) == Ok::<_, MalformedEventError>(
            (kind, sequence, payload),
        ),
{
    let bytes = envelope_bytes(kind, sequence, payload);
    lemma_be64_round_trip(sequence);
    lemma_be32_round_trip(payload.len() as u32);
    assert(bytes.len() == HEADER_LEN + payload.len());
    assert(bytes[0] == tag_of(kind));
    assert(bytes.subrange(1, 9) =~= be64(sequence));
    assert(bytes.subrange(9, 13) =~= be32(payload.len() as u32));
    assert(bytes.subrange(HEADER_LEN as int, bytes.len() as int) =~= payload);
}

/// The wire form is canonical: a buffer that decodes to an envelope is the
/// wire form of that envelope.
pub proof fn lemma_envelope_bytes_unique(bytes: Seq<u8>)
    requires
        parsed_envelope(bytes) is Ok,
    ensures
        ({
            let (kind, sequence, payload) = parsed_envelope(bytes)->Ok_0;
            payload.len() <= u32::MAX && envelope_bytes(kind, sequence, payload) == bytes
        }),
{
    let (kind, sequence, payload) = parsed_envelope(bytes)->Ok_0;
    lemma_from_be64_round_trip(bytes.subrange(1, 9));
    lemma_from_be32_round_trip(bytes.subrange(9, 13));
    assert(tag_of(kind) == bytes[0]);
    assert(envelope_bytes(kind, sequence, payload) =~= bytes);
}

} // verus!
