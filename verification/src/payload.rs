//! The payload of a `RouteAccepted` envelope: the route's hops, then its
//! token path. Each list is a 4-byte big-endian count followed by its
//! strings; each string is a 4-byte big-endian byte length followed by its
//! UTF-8 bytes.

use crate::envelope::{envelope_bytes, lemma_envelope_round_trip, parsed_envelope};
use crate::envelope::{EncodingError, MalformedEventError, SignalKind};
use crate::wire::{be32, copy_range, from_be32, push_be32, push_bytes, read_be32};
use crate::wire::{lemma_be32_round_trip, lemma_from_be32_round_trip};
use vstd::prelude::*;
use vstd::utf8::{decode_utf8, encode_utf8, valid_utf8};
use vstd::utf8::{decode_utf8_encode_utf8, encode_utf8_decode_utf8, encode_utf8_valid_utf8};

verus! {

/// The texts of a list of strings.
pub open spec fn texts(list: Seq<String>) -> Seq<Seq<char>> {
    Seq::new(list.len(), |i: int| list[i]@)
}

/// One string on the wire.
pub open spec fn string_bytes(text: Seq<char>) -> Seq<u8> {
    be32(encode_utf8(text).len() as u32) + encode_utf8(text)
}

/// The strings of a list on the wire, one after the other.
pub open spec fn strings_bytes(list: Seq<Seq<char>>) -> Seq<u8>
    decreases list.len(),
{
    if list.len() == 0 {
        Seq::empty()
    } else {
        string_bytes(list[0]) + strings_bytes(list.drop_first())
    }
}

/// A list on the wire: its count, then its strings.
pub open spec fn list_bytes(list: Seq<Seq<char>>) -> Seq<u8> {
    be32(list.len() as u32) + strings_bytes(list)
}

/// The payload of a route.
pub open spec fn payload_bytes(hops: Seq<Seq<char>>, token_path: Seq<Seq<char>>) -> Seq<u8> {
    list_bytes(hops) + list_bytes(token_path)
}

/// The payload of a text signal: a route whose only hop is the text and
/// whose token path is empty.
pub open spec fn signal_payload(text: Seq<char>) -> Seq<u8> {
    payload_bytes(seq![text], Seq::empty())
}

/// A list can be written when its count and the length of each of its
/// strings fit four bytes.
pub open spec fn encodable(list: Seq<Seq<char>>) -> bool {
    &&& list.len() <= u32::MAX
    &&& forall|i: int| 0 <= i < list.len() ==> encode_utf8(#[trigger] list[i]).len() <= u32::MAX
}

/// Reads `count` strings from the front of `bytes`: the strings and the
/// bytes that follow them.
pub open spec fn parsed_strings(bytes: Seq<u8>, count: nat) -> Result<
    (Seq<Seq<char>>, Seq<u8>),
    MalformedEventError,
>
    decreases count,
{
    if count == 0 {
        Ok((Seq::empty(), bytes))
    } else if bytes.len() < 4 {
        Err(MalformedEventError::Truncated)
    } else {
        let n = from_be32(bytes.subrange(0, 4)) as int;
        if bytes.len() - 4 < n {
            Err(MalformedEventError::Truncated)
        } else if !valid_utf8(bytes.subrange(4, 4 + n)) {
            Err(MalformedEventError::InvalidUtf8)
        } else {
            match parsed_strings(bytes.subrange(4 + n, bytes.len() as int), (count - 1) as nat) {
                Ok((tail, rest)) => Ok((seq![decode_utf8(bytes.subrange(4, 4 + n))] + tail, rest)),
                Err(e) => Err(e),
            }
        }
    }
}

/// Reads a list from the front of `bytes`: its strings and the bytes that
/// follow it.
pub open spec fn parsed_list(bytes: Seq<u8>) -> Result<(Seq<Seq<char>>, Seq<u8>), MalformedEventError> {
    if bytes.len() < 4 {
        Err(MalformedEventError::Truncated)
    } else {
        parsed_strings(bytes.subrange(4, bytes.len() as int), from_be32(bytes.subrange(0, 4)) as nat)
    }
}

/// What a payload holds: the hops and the token path.
pub open spec fn parsed_payload(bytes: Seq<u8>) -> Result<(Seq<Seq<char>>, Seq<Seq<char>>), MalformedEventError> {
    match parsed_list(bytes) {
        Err(e) => Err(e),
        Ok((hops, rest)) => match parsed_list(rest) {
            Err(e) => Err(e),
            Ok((token_path, end)) => if end.len() == 0 {
                Ok((hops, token_path))
            } else {
                Err(MalformedEventError::TrailingBytes)
            },
        },
    }
}

/// `String::from_utf8` of std: the string that the bytes spell, which exists
/// exactly when they are well-formed UTF-8.
#[verifier::external_body]
pub(crate) fn string_from_utf8(bytes: Vec<u8>) -> (result: Option<String>)
    ensures
        result is Some <==> valid_utf8(bytes@),
        result matches Some(s) ==> s@ == decode_utf8(bytes@),
{
    match String::from_utf8(bytes) {
        Ok(s) => Some(s),
        Err(_) => None,
    }
}

proof fn lemma_strings_bytes_push(list: Seq<Seq<char>>, text: Seq<char>)
    ensures
        strings_bytes(list.push(text)) == strings_bytes(list) + string_bytes(text),
    decreases list.len(),
{
    if list.len() == 0 {
        assert(list.push(text).drop_first() =~= Seq::<Seq<char>>::empty());
        assert(strings_bytes(list.push(text).drop_first()) =~= Seq::<u8>::empty());
        assert(strings_bytes(list.push(text)) =~= string_bytes(text));
        assert(strings_bytes(list) + string_bytes(text) =~= string_bytes(text));
    } else {
        assert(list.push(text).drop_first() =~= list.drop_first().push(text));
        lemma_strings_bytes_push(list.drop_first(), text);
        assert(strings_bytes(list.push(text)) =~= strings_bytes(list) + string_bytes(text));
    }
}

/// Appends a list. Refused when its count or one of its strings is too long
/// for its length field; `out` then holds part of the list.
fn push_list(out: &mut Vec<u8>, list: &Vec<String>) -> (result: Result<(), EncodingError>)
    ensures
        result is Ok <==> encodable(texts(list@)),
        result is Ok ==> final(out)@ == old(out)@ + list_bytes(texts(list@)),
        result matches Err(e) ==> e == EncodingError::TooLong,
{
    let ghost all = texts(list@);
    if list.len() > 0xffff_ffff {
        return Err(EncodingError::TooLong);
    }
    push_be32(out, list.len() as u32);
    let mut i: usize = 0;
    while i < list.len()
        invariant
            i <= list@.len(),
            all == texts(list@),
            all.len() <= u32::MAX,
            forall|j: int| 0 <= j < i ==> encode_utf8(#[trigger] all[j]).len() <= u32::MAX,
            out@ == old(out)@ + be32(all.len() as u32) + strings_bytes(all.take(i as int)),
        decreases list@.len() - i,
    {
        let bytes = list[i].as_str().as_bytes();
        assert(bytes@ == encode_utf8(all[i as int]));
        if bytes.len() > 0xffff_ffff {
            return Err(EncodingError::TooLong);
        }
        let ghost before = out@;
        push_be32(out, bytes.len() as u32);
        push_bytes(out, bytes);
        proof {
            lemma_strings_bytes_push(all.take(i as int), all[i as int]);
            assert(all.take(i as int).push(all[i as int]) =~= all.take(i + 1));
            assert(out@ =~= old(out)@ + be32(all.len() as u32) + strings_bytes(all.take(i + 1)));
        }
        i += 1;
    }
    proof {
        assert(all.take(i as int) =~= all);
        assert(out@ =~= old(out)@ + list_bytes(all));
    }
    Ok(())
}

/// Writes the payload of a route with these hops and this token path.
/// Refused exactly when a count or a string does not fit its length field.
pub fn encode_route_payload(hops: &Vec<String>, token_path: &Vec<String>) -> (result: Result<
    Vec<u8>,
    EncodingError,
>)
    ensures
        match result {
            Ok(bytes) => encodable(texts(hops@)) && encodable(texts(token_path@)) && bytes@ == payload_bytes(
                texts(hops@),
                texts(token_path@),
            ),
            Err(e) => !(encodable(texts(hops@)) && encodable(texts(token_path@))) && e
                == EncodingError::TooLong,
        },
{
    let mut out: Vec<u8> = Vec::new();
    match push_list(&mut out, hops) {
        Ok(()) => {},
        Err(e) => {
            return Err(e);
        },
    }
    match push_list(&mut out, token_path) {
        Ok(()) => {},
        Err(e) => {
            return Err(e);
        },
    }
    assert(out@ =~= payload_bytes(texts(hops@), texts(token_path@)));
    Ok(out)
}

/// Reads the list that starts at `at`: its strings and where it ends.
fn read_list(bytes: &[u8], at: usize) -> (result: Result<(Vec<String>, usize), MalformedEventError>)
    requires
        at <= bytes@.len(),
    ensures
        match result {
            Ok((list, end)) => at <= end <= bytes@.len() && parsed_list(
                bytes@.subrange(at as int, bytes@.len() as int),
            ) == Ok::<_, MalformedEventError>((texts(list@), bytes@.subrange(end as int, bytes@.len() as int))),
            Err(e) => parsed_list(bytes@.subrange(at as int, bytes@.len() as int)) == Err::<
                (Seq<Seq<char>>, Seq<u8>),
                _,
            >(e),
        },
{
    let len: usize = bytes.len();
    let ghost whole = bytes@.subrange(at as int, len as int);
    if len - at < 4 {
        return Err(MalformedEventError::Truncated);
    }
    assert(whole.subrange(0, 4) =~= bytes@.subrange(at as int, at + 4));
    let count: u32 = read_be32(bytes, at);
    let mut pos: usize = at + 4;
    let mut list: Vec<String> = Vec::new();
    let mut done: u32 = 0;
    assert(whole.subrange(4, whole.len() as int) =~= bytes@.subrange(pos as int, len as int));
    assert(texts(list@) =~= Seq::<Seq<char>>::empty());
    while done < count
        invariant
            len == bytes@.len(),
            whole == bytes@.subrange(at as int, len as int),
            at + 4 <= pos <= len,
            done <= count,
            parsed_list(whole) == parsed_strings(whole.subrange(4, whole.len() as int), count as nat),
            parsed_strings(whole.subrange(4, whole.len() as int), count as nat) == (match parsed_strings(
                bytes@.subrange(pos as int, len as int),
                (count - done) as nat,
            ) {
                Ok((tail, rest)) => Ok::<_, MalformedEventError>((texts(list@) + tail, rest)),
                Err(e) => Err(e),
            }),
        decreases count - done,
    {
        let ghost here = bytes@.subrange(pos as int, len as int);
        let ghost left = (count - done) as nat;
        let ghost so_far = texts(list@);
        if len - pos < 4 {
            return Err(MalformedEventError::Truncated);
        }
        assert(here.subrange(0, 4) =~= bytes@.subrange(pos as int, pos + 4));
        let n: u32 = read_be32(bytes, pos);
        if len - pos - 4 < n as usize {
            return Err(MalformedEventError::Truncated);
        }
        let start: usize = pos + 4;
        let stop: usize = start + n as usize;
        let raw = copy_range(bytes, start, stop);
        assert(here.subrange(4, 4 + n) =~= raw@);
        let text = match string_from_utf8(raw) {
            Some(text) => text,
            None => {
                return Err(MalformedEventError::InvalidUtf8);
            },
        };
        list.push(text);
        pos = stop;
        done += 1;
        proof {
            let next = bytes@.subrange(pos as int, len as int);
            assert(here.subrange(4 + n, here.len() as int) =~= next);
            assert(texts(list@) =~= so_far.push(text@));
            match parsed_strings(next, (left - 1) as nat) {
                Ok((tail, rest)) => {
                    assert(so_far + (seq![text@] + tail) =~= texts(list@) + tail);
                },
                Err(e) => {},
            }
        }
    }
    proof {
        assert(texts(list@) + Seq::<Seq<char>>::empty() =~= texts(list@));
    }
    Ok((list, pos))
}

/// Reads a payload: the hops and the token path that it holds.
pub fn decode_route_payload(bytes: &[u8]) -> (result: Result<(Vec<String>, Vec<String>), MalformedEventError>)
    ensures
        match result {
            Ok((hops, token_path)) => parsed_payload(bytes@) == Ok::<_, MalformedEventError>(
                (texts(hops@), texts(token_path@)),
            ),
            Err(e) => parsed_payload(bytes@) == Err::<(Seq<Seq<char>>, Seq<Seq<char>>), _>(e),
        },
{
    assert(bytes@.subrange(0, bytes@.len() as int) =~= bytes@);
    let (hops, mid) = match read_list(bytes, 0) {
        Ok(found) => found,
        Err(e) => {
            return Err(e);
        },
    };
    let (token_path, end) = match read_list(bytes, mid) {
        Ok(found) => found,
        Err(e) => {
            return Err(e);
        },
    };
    if end != bytes.len() {
        return Err(MalformedEventError::TrailingBytes);
    }
    Ok((hops, token_path))
}

proof fn lemma_strings_round_trip(list: Seq<Seq<char>>, rest: Seq<u8>)
    requires
        encodable(list),
    ensures
        parsed_strings(strings_bytes(list) + rest, list.len()) == Ok::<_, MalformedEventError>((list, rest)),
    decreases list.len(),
{
    let bytes = strings_bytes(list) + rest;
    if list.len() == 0 {
        assert(bytes =~= rest);
        assert(list =~= Seq::<Seq<char>>::empty());
    } else {
        let text = list[0];
        let body = encode_utf8(text);
        let tail = list.drop_first();
        lemma_be32_round_trip(body.len() as u32);
        encode_utf8_valid_utf8(text);
        encode_utf8_decode_utf8(text);
        assert(bytes.subrange(0, 4) =~= be32(body.len() as u32));
        let n = from_be32(bytes.subrange(0, 4)) as int;
        assert(n == body.len());
        assert(bytes.subrange(4, 4 + n) =~= body);
        assert(bytes.subrange(4 + n, bytes.len() as int) =~= strings_bytes(tail) + rest);
        assert(encodable(tail)) by {
            assert forall|i: int| 0 <= i < tail.len() implies encode_utf8(#[trigger] tail[i]).len() <= u32::MAX by {
                assert(tail[i] == list[i + 1]);
            }
        }
        lemma_strings_round_trip(tail, rest);
        assert(seq![text] + tail =~= list);
    }
}

proof fn lemma_list_round_trip(list: Seq<Seq<char>>, rest: Seq<u8>)
    requires
        encodable(list),
    ensures
        parsed_list(list_bytes(list) + rest) == Ok::<_, MalformedEventError>((list, rest)),
{
    let bytes = list_bytes(list) + rest;
    lemma_be32_round_trip(list.len() as u32);
    assert(bytes.subrange(0, 4) =~= be32(list.len() as u32));
    assert(bytes.subrange(4, bytes.len() as int) =~= strings_bytes(list) + rest);
    lemma_strings_round_trip(list, rest);
}

/// Decoding the payload of a route gives back its hops and its token path,
/// string for string.
pub proof fn lemma_payload_round_trip(hops: Seq<Seq<char>>, token_path: Seq<Seq<char>>)
    requires
        encodable(hops),
        encodable(token_path),
    ensures
        parsed_payload(payload_bytes(hops, token_path)) == Ok::<_, MalformedEventError>((hops, token_path)),
{
    lemma_list_round_trip(hops, list_bytes(token_path));
    lemma_list_round_trip(token_path, Seq::empty());
    assert(list_bytes(token_path) + Seq::<u8>::empty() =~= list_bytes(token_path));
}

/// The payload of a text signal is the text's UTF-8 bytes and twelve bytes
/// of framing, and can be written exactly when the text's length fits its
/// length field.
pub proof fn lemma_signal_payload_len(text: Seq<char>)
    ensures
        signal_payload(text).len() == encode_utf8(text).len() + 12,
        encodable(seq![text]) <==> encode_utf8(text).len() <= u32::MAX,
        encodable(Seq::<Seq<char>>::empty()),
{
    let one = seq![text];
    assert(one[0] == text);
    assert(one.drop_first() =~= Seq::<Seq<char>>::empty());
    assert(strings_bytes(one.drop_first()) =~= Seq::<u8>::empty());
    assert(strings_bytes(one) =~= string_bytes(text));
    assert(strings_bytes(Seq::<Seq<char>>::empty()) =~= Seq::<u8>::empty());
}

/// A text signal arrives whole: decoding its payload gives back the text as
/// the only hop, and no token.
pub proof fn lemma_signal_round_trip(text: Seq<char>)
    requires
        encode_utf8(text).len() <= u32::MAX,
    ensures
        parsed_payload(signal_payload(text)) == Ok::<_, MalformedEventError>(
            (seq![text], Seq::<Seq<char>>::empty()),
        ),
{
    lemma_signal_payload_len(text);
    lemma_payload_round_trip(seq![text], Seq::empty());
}

/// A route sent in a `RouteAccepted` envelope arrives whole: decoding the
/// envelope's wire form gives back the payload byte for byte, and decoding
/// that payload gives back the hops and the token path.
pub proof fn lemma_route_envelope_round_trip(sequence: u64, hops: Seq<Seq<char>>, token_path: Seq<Seq<char>>)
    requires
        encodable(hops),
        encodable(token_path),
        payload_bytes(hops, token_path).len() <= u32::MAX,
    ensures
        parsed_envelope(
            envelope_bytes(SignalKind::RouteAccepted, sequence, payload_bytes(hops, token_path)),
        ) == Ok::<_, MalformedEventError>(
            (SignalKind::RouteAccepted, sequence, payload_bytes(hops, token_path)),
        ),
        parsed_payload(payload_bytes(hops, token_path)) == Ok::<_, MalformedEventError>((hops, token_path)),
{
    lemma_envelope_round_trip(SignalKind::RouteAccepted, sequence, payload_bytes(hops, token_path));
    lemma_payload_round_trip(hops, token_path);
}

proof fn lemma_strings_unique(bytes: Seq<u8>, count: nat)
    requires
        parsed_strings(bytes, count) is Ok,
    ensures
        ({
            let (list, rest) = parsed_strings(bytes, count)->Ok_0;
            &&& list.len() == count
            &&& forall|i: int| 0 <= i < list.len() ==> encode_utf8(#[trigger] list[i]).len() <= u32::MAX
            &&& strings_bytes(list) + rest == bytes
        }),
    decreases count,
{
    let (list, rest) = parsed_strings(bytes, count)->Ok_0;
    if count == 0 {
        assert(strings_bytes(list) + rest =~= bytes);
    } else {
        assert(bytes.len() >= 4);
        let n = from_be32(bytes.subrange(0, 4)) as int;
        assert(bytes.len() - 4 >= n);
        let body = bytes.subrange(4, 4 + n);
        assert(valid_utf8(body));
        let after = bytes.subrange(4 + n, bytes.len() as int);
        assert(parsed_strings(after, (count - 1) as nat) is Ok);
        lemma_strings_unique(after, (count - 1) as nat);
        let (tail, end) = parsed_strings(after, (count - 1) as nat)->Ok_0;
        assert(list == seq![decode_utf8(body)] + tail);
        assert(list.drop_first() =~= tail);
        decode_utf8_encode_utf8(body);
        lemma_from_be32_round_trip(bytes.subrange(0, 4));
        assert(string_bytes(list[0]) =~= bytes.subrange(0, 4 + n));
        assert forall|i: int| 0 <= i < list.len() implies encode_utf8(#[trigger] list[i]).len() <= u32::MAX by {
            if i > 0 {
                assert(list[i] == tail[i - 1]);
            }
        }
        assert(rest == end);
        assert(strings_bytes(list) == string_bytes(list[0]) + strings_bytes(tail));
        assert(bytes.subrange(0, 4 + n) + after =~= bytes);
        assert(strings_bytes(list) + rest =~= bytes.subrange(0, 4 + n) + (strings_bytes(tail) + end));
    }
}

proof fn lemma_list_unique(bytes: Seq<u8>)
    requires
        parsed_list(bytes) is Ok,
    ensures
        ({
            let (list, rest) = parsed_list(bytes)->Ok_0;
            encodable(list) && list_bytes(list) + rest == bytes
        }),
{
    let (list, rest) = parsed_list(bytes)->Ok_0;
    assert(bytes.len() >= 4);
    let count = from_be32(bytes.subrange(0, 4));
    let body = bytes.subrange(4, bytes.len() as int);
    lemma_strings_unique(body, count as nat);
    lemma_from_be32_round_trip(bytes.subrange(0, 4));
    assert(list.len() as u32 == count);
    assert(bytes.subrange(0, 4) + body =~= bytes);
    assert(list_bytes(list) + rest =~= bytes.subrange(0, 4) + (strings_bytes(list) + rest));
}

/// The payload format is canonical: bytes that decode to a route are the
/// payload of that route.
pub proof fn lemma_payload_bytes_unique(bytes: Seq<u8>)
    requires
        parsed_payload(bytes) is Ok,
    ensures
        ({
            let (hops, token_path) = parsed_payload(bytes)->Ok_0;
            encodable(hops) && encodable(token_path) && payload_bytes(hops, token_path) == bytes
        }),
{
    let (hops, rest) = parsed_list(bytes)->Ok_0;
    lemma_list_unique(bytes);
    lemma_list_unique(rest);
    let (token_path, end) = parsed_list(rest)->Ok_0;
    assert(list_bytes(token_path) + end =~= list_bytes(token_path));
}

} // verus!
