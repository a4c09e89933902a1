//! The binary form of the envelope.
//!
//! Every envelope starts with a tag byte. Integers are big-endian; byte
//! strings are preceded by their length as a 64-bit integer. There is no
//! padding, and nothing may follow an envelope.

use vstd::prelude::*;
use crate::error::Error;
use crate::message::{
    ConnectionId, ConnectionMessage, ConnectionMessageView, Message, MessageView, PeerId,
    SubstreamId, SubstreamKind, SubstreamMessage, SubstreamMessageType, SubstreamMessageView,
    TransportMessage, TransportMessageView,
};

verus! {

pub const TAG_REQUEST: u8 = 0x01;

pub const TAG_RESPONSE: u8 = 0x02;

pub const TAG_TRANSPORT: u8 = 0x03;

pub const KIND_OPEN_REQUEST: u8 = 0x10;

pub const KIND_OPEN_RESPONSE: u8 = 0x11;

pub const KIND_DATA: u8 = 0x12;

pub const KIND_CLOSE: u8 = 0x13;

/// The eight bytes of a 64-bit integer, highest first.
pub open spec fn be_u64(x: u64) -> Seq<u8> {
    seq![
        (x >> 56) as u8,
        (x >> 48) as u8,
        (x >> 40) as u8,
        (x >> 32) as u8,
        (x >> 24) as u8,
        (x >> 16) as u8,
        (x >> 8) as u8,
        x as u8,
    ]
}

/// The integer that eight bytes stand for, highest first.
pub open spec fn u64_from_be(s: Seq<u8>) -> u64 {
    (s[0] as u64) << 56 | (s[1] as u64) << 48 | (s[2] as u64) << 40 | (s[3] as u64) << 32 | (
    s[4] as u64) << 24 | (s[5] as u64) << 16 | (s[6] as u64) << 8 | (s[7] as u64)
}

/// The sixteen bytes of a 128-bit integer, highest first.
pub open spec fn be_u128(x: u128) -> Seq<u8> {
    be_u64((x >> 64) as u64) + be_u64(x as u64)
}

/// The integer that sixteen bytes stand for, highest first.
pub open spec fn u128_from_be(s: Seq<u8>) -> u128 {
    (u64_from_be(s.subrange(0, 8)) as u128) << 64 | (u64_from_be(s.subrange(8, 16)) as u128)
}

/// A byte string behind its length.
pub open spec fn prefixed(s: Seq<u8>) -> Seq<u8> {
    be_u64(s.len() as u64) + s
}

/// The binary form of a substream message kind.
pub open spec fn encode_kind(k: SubstreamKind) -> Seq<u8> {
    match k {
        SubstreamKind::OpenRequest => seq![KIND_OPEN_REQUEST],
        SubstreamKind::OpenResponse => seq![KIND_OPEN_RESPONSE],
        SubstreamKind::Data(d) => seq![KIND_DATA] + prefixed(d),
        SubstreamKind::Close => seq![KIND_CLOSE],
    }
}

/// The binary form of an envelope.
pub open spec fn spec_encode(m: MessageView) -> Seq<u8> {
    match m {
        MessageView::ConnectionRequest(c) => seq![TAG_REQUEST] + prefixed(c.peer_id) + be_u128(c.id),
        MessageView::ConnectionResponse(c) => seq![TAG_RESPONSE] + prefixed(c.peer_id) + be_u128(
            c.id,
        ),
        MessageView::TransportMessage(t) => seq![TAG_TRANSPORT] + be_u128(t.id) + be_u64(t.nonce)
            + be_u64(t.message.substream_id) + encode_kind(t.message.kind),
    }
}

/// Every byte string of the envelope is short enough for its length to be written down.
pub open spec fn encodable(m: MessageView) -> bool {
    match m {
        MessageView::ConnectionRequest(c) => c.peer_id.len() <= u64::MAX,
        MessageView::ConnectionResponse(c) => c.peer_id.len() <= u64::MAX,
        MessageView::TransportMessage(t) => match t.message.kind {
            SubstreamKind::Data(d) => d.len() <= u64::MAX,
            _ => true,
        },
    }
}

/// The body of a request or a response that the bytes behind the tag hold.
pub open spec fn decode_connection(b: Seq<u8>) -> Option<ConnectionMessageView> {
    if b.len() < 9 {
        None
    } else {
        let n = u64_from_be(b.subrange(1, 9)) as int;
        if b.len() != 25 + n {
            None
        } else {
            Some(
                ConnectionMessageView {
                    peer_id: b.subrange(9, 9 + n),
                    id: u128_from_be(b.subrange(9 + n, 25 + n)),
                },
            )
        }
    }
}

/// The substream message kind that the bytes from place 33 on hold.
pub open spec fn decode_kind(b: Seq<u8>) -> Option<SubstreamKind> {
    if b.len() < 34 {
        None
    } else if b[33] == KIND_OPEN_REQUEST && b.len() == 34 {
        Some(SubstreamKind::OpenRequest)
    } else if b[33] == KIND_OPEN_RESPONSE && b.len() == 34 {
        Some(SubstreamKind::OpenResponse)
    } else if b[33] == KIND_CLOSE && b.len() == 34 {
        Some(SubstreamKind::Close)
    } else if b[33] == KIND_DATA && b.len() >= 42 && b.len() == 42 + u64_from_be(b.subrange(34, 42)) {
        Some(SubstreamKind::Data(b.subrange(42, b.len() as int)))
    } else {
        None
    }
}

/// The envelope whose binary form the bytes are, if they are one.
pub open spec fn spec_decode(b: Seq<u8>) -> Option<MessageView> {
    if b.len() < 1 {
        None
    } else if b[0] == TAG_REQUEST {
        match decode_connection(b) {
            Some(c) => Some(MessageView::ConnectionRequest(c)),
            None => None,
        }
    } else if b[0] == TAG_RESPONSE {
        match decode_connection(b) {
            Some(c) => Some(MessageView::ConnectionResponse(c)),
            None => None,
        }
    } else if b[0] == TAG_TRANSPORT {
        match decode_kind(b) {
            Some(kind) => Some(
                MessageView::TransportMessage(
                    TransportMessageView {
                        id: u128_from_be(b.subrange(1, 17)),
                        nonce: u64_from_be(b.subrange(17, 25)),
                        message: SubstreamMessageView {
                            substream_id: u64_from_be(b.subrange(25, 33)),
                            kind,
                        },
                    },
                ),
            ),
            None => None,
        }
    } else {
        None
    }
}

/// Eight bytes written for an integer read back as that integer.
pub proof fn lemma_u64_round_trip(x: u64)
    ensures
        be_u64(x).len() == 8,
        u64_from_be(be_u64(x)) == x,
{
    assert(((x >> 56) as u8 as u64) << 56 | ((x >> 48) as u8 as u64) << 48 | ((x >> 40) as u8 as u64)
        << 40 | ((x >> 32) as u8 as u64) << 32 | ((x >> 24) as u8 as u64) << 24 | ((x >> 16) as u8 as u64)
        << 16 | ((x >> 8) as u8 as u64) << 8 | (x as u8 as u64) == x) by (bit_vector);
}

/// Sixteen bytes written for an integer read back as that integer.
pub proof fn lemma_u128_round_trip(x: u128)
    ensures
        be_u128(x).len() == 16,
        u128_from_be(be_u128(x)) == x,
{
    let hi = (x >> 64) as u64;
    let lo = x as u64;
    lemma_u64_round_trip(hi);
    lemma_u64_round_trip(lo);
    assert(be_u128(x).subrange(0, 8) =~= be_u64(hi));
    assert(be_u128(x).subrange(8, 16) =~= be_u64(lo));
    assert((((x >> 64) as u64) as u128) << 64 | ((x as u64) as u128) == x) by (bit_vector);
}

/// Eight bytes read as an integer are written back as those bytes.
pub proof fn lemma_u64_bytes_round_trip(s: Seq<u8>)
    requires
        s.len() == 8,
    ensures
        be_u64(u64_from_be(s)) == s,
{
    let (b0, b1, b2, b3, b4, b5, b6, b7) = (s[0], s[1], s[2], s[3], s[4], s[5], s[6], s[7]);
    let x = u64_from_be(s);
    assert(x == (b0 as u64) << 56 | (b1 as u64) << 48 | (b2 as u64) << 40 | (b3 as u64) << 32 | (
    b4 as u64) << 24 | (b5 as u64) << 16 | (b6 as u64) << 8 | (b7 as u64));
    assert((x >> 56) as u8 == b0 && (x >> 48) as u8 == b1 && (x >> 40) as u8 == b2 && (x >> 32) as u8
        == b3 && (x >> 24) as u8 == b4 && (x >> 16) as u8 == b5 && (x >> 8) as u8 == b6 && x as u8
        == b7) by (bit_vector)
        requires
            x == (b0 as u64) << 56 | (b1 as u64) << 48 | (b2 as u64) << 40 | (b3 as u64) << 32 | (
            b4 as u64) << 24 | (b5 as u64) << 16 | (b6 as u64) << 8 | (b7 as u64),
    ;
    assert(be_u64(x) =~= s);
}

/// Sixteen bytes read as an integer are written back as those bytes.
pub proof fn lemma_u128_bytes_round_trip(s: Seq<u8>)
    requires
        s.len() == 16,
    ensures
        be_u128(u128_from_be(s)) == s,
{
    let hi = u64_from_be(s.subrange(0, 8));
    let lo = u64_from_be(s.subrange(8, 16));
    let x = u128_from_be(s);
    assert((x >> 64) as u64 == hi && x as u64 == lo) by (bit_vector)
        requires
            x == (hi as u128) << 64 | (lo as u128),
    ;
    lemma_u64_bytes_round_trip(s.subrange(0, 8));
    lemma_u64_bytes_round_trip(s.subrange(8, 16));
    assert(be_u128(x) =~= s);
}

/// Encoding undoes decoding: bytes that are read as an envelope are exactly
/// the binary form of that envelope. So no envelope has two binary forms.
pub proof fn lemma_encode_decode(b: Seq<u8>)
    requires
        spec_decode(b) is Some,
    ensures
        encodable(spec_decode(b)->Some_0),
        spec_encode(spec_decode(b)->Some_0) == b,
{
    let m = spec_decode(b)->Some_0;
    if b[0] == TAG_REQUEST || b[0] == TAG_RESPONSE {
        let c = decode_connection(b)->Some_0;
        let n = u64_from_be(b.subrange(1, 9)) as int;
        lemma_u64_bytes_round_trip(b.subrange(1, 9));
        lemma_u128_bytes_round_trip(b.subrange(9 + n, 25 + n));
        assert(spec_encode(m) =~= b);
    } else {
        lemma_u128_bytes_round_trip(b.subrange(1, 17));
        lemma_u64_bytes_round_trip(b.subrange(17, 25));
        lemma_u64_bytes_round_trip(b.subrange(25, 33));
        let head = seq![TAG_TRANSPORT] + b.subrange(1, 17) + b.subrange(17, 25) + b.subrange(25, 33);
        assert(head =~= b.subrange(0, 33));
        let kind = decode_kind(b)->Some_0;
        match kind {
            SubstreamKind::Data(d) => {
                lemma_u64_bytes_round_trip(b.subrange(34, 42));
                assert(encode_kind(kind) =~= b.subrange(33, b.len() as int));
            },
            _ => {
                assert(encode_kind(kind) =~= b.subrange(33, b.len() as int));
            },
        }
        assert(b.subrange(0, 33) + b.subrange(33, b.len() as int) =~= b);
    }
}

/// Decoding undoes encoding: the binary form of an envelope is read back as
/// that envelope, whatever its variant and however long its byte strings.
pub proof fn lemma_decode_encode(m: MessageView)
    requires
        encodable(m),
    ensures
        spec_decode(spec_encode(m)) == Some(m),
{
    let b = spec_encode(m);
    match m {
        MessageView::ConnectionRequest(c) => {
            lemma_connection_round_trip(TAG_REQUEST, c);
        },
        MessageView::ConnectionResponse(c) => {
            lemma_connection_round_trip(TAG_RESPONSE, c);
        },
        MessageView::TransportMessage(t) => {
            lemma_u128_round_trip(t.id);
            lemma_u64_round_trip(t.nonce);
            lemma_u64_round_trip(t.message.substream_id);
            assert(b.subrange(1, 17) =~= be_u128(t.id));
            assert(b.subrange(17, 25) =~= be_u64(t.nonce));
            assert(b.subrange(25, 33) =~= be_u64(t.message.substream_id));
            match t.message.kind {
                SubstreamKind::Data(d) => {
                    lemma_u64_round_trip(d.len() as u64);
                    assert(b.subrange(34, 42) =~= be_u64(d.len() as u64));
                    assert(b.subrange(42, b.len() as int) =~= d);
                },
                _ => {},
            }
        },
    }
}

proof fn lemma_connection_round_trip(tag: u8, c: ConnectionMessageView)
    requires
        c.peer_id.len() <= u64::MAX,
    ensures
        decode_connection(seq![tag] + prefixed(c.peer_id) + be_u128(c.id)) == Some(c),
        (seq![tag] + prefixed(c.peer_id) + be_u128(c.id))[0] == tag,
{
    let b = seq![tag] + prefixed(c.peer_id) + be_u128(c.id);
    let n = c.peer_id.len() as int;
    lemma_u64_round_trip(c.peer_id.len() as u64);
    lemma_u128_round_trip(c.id);
    assert(b.subrange(1, 9) =~= be_u64(c.peer_id.len() as u64));
    assert(b.subrange(9, 9 + n) =~= c.peer_id);
    assert(b.subrange(9 + n, 25 + n) =~= be_u128(c.id));
}

fn push_u64(out: &mut Vec<u8>, x: u64)
    ensures
        final(out)@ == old(out)@ + be_u64(x),
{
    out.push(#[verifier::truncate] ((x >> 56) as u8));
    out.push(#[verifier::truncate] ((x >> 48) as u8));
    out.push(#[verifier::truncate] ((x >> 40) as u8));
    out.push(#[verifier::truncate] ((x >> 32) as u8));
    out.push(#[verifier::truncate] ((x >> 24) as u8));
    out.push(#[verifier::truncate] ((x >> 16) as u8));
    out.push(#[verifier::truncate] ((x >> 8) as u8));
    out.push(#[verifier::truncate] (x as u8));
    assert(out@ =~= old(out)@ + be_u64(x));
}

fn push_u128(out: &mut Vec<u8>, x: u128)
    ensures
        final(out)@ == old(out)@ + be_u128(x),
{
    push_u64(out, #[verifier::truncate] ((x >> 64) as u64));
    push_u64(out, #[verifier::truncate] (x as u64));
    assert(out@ =~= old(out)@ + be_u128(x));
}

fn push_bytes(out: &mut Vec<u8>, bytes: &Vec<u8>)
    ensures
        final(out)@ == old(out)@ + bytes@,
{
    let mut i: usize = 0;
    while i < bytes.len()
        invariant
            i <= bytes.len(),
            out@ == old(out)@ + bytes@.take(i as int),
        decreases bytes.len() - i,
    {
        out.push(bytes[i]);
        i = i + 1;
        assert(out@ =~= old(out)@ + bytes@.take(i as int));
    }
    assert(bytes@.take(i as int) =~= bytes@);
}

fn push_prefixed(out: &mut Vec<u8>, bytes: &Vec<u8>)
    ensures
        final(out)@ == old(out)@ + prefixed(bytes@),
        bytes@.len() <= u64::MAX,
{
    push_u64(out, bytes.len() as u64);
    push_bytes(out, bytes);
    assert(out@ =~= old(out)@ + prefixed(bytes@));
}

/// Writes an envelope in its binary form.
pub fn encode(msg: &Message) -> (out: Vec<u8>)
    ensures
        out@ == spec_encode(msg@),
        encodable(msg@),
{
    let mut out: Vec<u8> = Vec::new();
    match msg {
        Message::ConnectionRequest(c) => {
            out.push(TAG_REQUEST);
            push_prefixed(&mut out, &c.peer_id.bytes);
            push_u128(&mut out, c.id.0);
            assert(out@ =~= spec_encode(msg@));
        },
        Message::ConnectionResponse(c) => {
            out.push(TAG_RESPONSE);
            push_prefixed(&mut out, &c.peer_id.bytes);
            push_u128(&mut out, c.id.0);
            assert(out@ =~= spec_encode(msg@));
        },
        Message::TransportMessage(t) => {
            out.push(TAG_TRANSPORT);
            push_u128(&mut out, t.id.0);
            push_u64(&mut out, t.nonce);
            push_u64(&mut out, t.message.substream_id.0);
            match &t.message.message_type {
                SubstreamMessageType::OpenRequest => {
                    out.push(KIND_OPEN_REQUEST);
                },
                SubstreamMessageType::OpenResponse => {
                    out.push(KIND_OPEN_RESPONSE);
                },
                SubstreamMessageType::Data(d) => {
                    out.push(KIND_DATA);
                    push_prefixed(&mut out, d);
                },
                SubstreamMessageType::Close => {
                    out.push(KIND_CLOSE);
                },
            }
            assert(out@ =~= spec_encode(msg@));
        },
    }
    out
}

fn read_u64(bytes: &[u8], at: usize) -> (x: u64)
    requires
        at + 8 <= bytes@.len(),
    ensures
        x == u64_from_be(bytes@.subrange(at as int, at + 8)),
{
    (bytes[at] as u64) << 56 | (bytes[at + 1] as u64) << 48 | (bytes[at + 2] as u64) << 40 | (bytes[at
        + 3] as u64) << 32 | (bytes[at + 4] as u64) << 24 | (bytes[at + 5] as u64) << 16 | (bytes[at
        + 6] as u64) << 8 | (bytes[at + 7] as u64)
}

fn read_u128(bytes: &[u8], at: usize) -> (x: u128)
    requires
        at + 16 <= bytes@.len(),
    ensures
        x == u128_from_be(bytes@.subrange(at as int, at + 16)),
{
    let len = bytes.len();
    assert(at + 16 <= len);
    let hi = read_u64(bytes, at);
    let lo = read_u64(bytes, at + 8);
    let ghost s = bytes@.subrange(at as int, at + 16);
    assert(s.subrange(0, 8) =~= bytes@.subrange(at as int, at + 8));
    assert(s.subrange(8, 16) =~= bytes@.subrange(at + 8, at + 16));
    (hi as u128) << 64 | (lo as u128)
}

fn read_bytes(bytes: &[u8], from: usize, to: usize) -> (out: Vec<u8>)
    requires
        from <= to <= bytes@.len(),
    ensures
        out@ == bytes@.subrange(from as int, to as int),
{
    let mut out: Vec<u8> = Vec::new();
    let mut i: usize = from;
    while i < to
        invariant
            from <= i <= to <= bytes@.len(),
            out@ == bytes@.subrange(from as int, i as int),
        decreases to - i,
    {
        out.push(bytes[i]);
        i = i + 1;
        assert(out@ =~= bytes@.subrange(from as int, i as int));
    }
    out
}

fn decode_connection_message(bytes: &[u8]) -> (r: Option<ConnectionMessage>)
    ensures
        match r {
            Some(c) => decode_connection(bytes@) == Some(c@),
            None => decode_connection(bytes@) is None,
        },
{
    let len = bytes.len();
    if len < 25 {
        return None;
    }
    let n = read_u64(bytes, 1);
    if n != (len - 25) as u64 {
        return None;
    }
    let end = len - 16;
    let peer_id = PeerId::from_bytes(read_bytes(bytes, 9, end));
    let id = ConnectionId(read_u128(bytes, end));
    Some(ConnectionMessage { peer_id, id })
}

/// Reads an envelope from its binary form. Bytes that are not the binary
/// form of an envelope are refused: an unknown tag, a body that is too
/// short, or anything behind the envelope.
pub fn decode(bytes: &[u8]) -> (r: Result<Message, Error>)
    ensures
        match r {
            Ok(m) => spec_decode(bytes@) == Some(m@),
            Err(e) => spec_decode(bytes@) is None && e == Error::Codec,
        },
{
    let len = bytes.len();
    if len < 1 {
        return Err(Error::Codec);
    }
    let tag = bytes[0];
    if tag == TAG_REQUEST {
        match decode_connection_message(bytes) {
            Some(c) => Ok(Message::ConnectionRequest(c)),
            None => Err(Error::Codec),
        }
    } else if tag == TAG_RESPONSE {
        match decode_connection_message(bytes) {
            Some(c) => Ok(Message::ConnectionResponse(c)),
            None => Err(Error::Codec),
        }
    } else if tag == TAG_TRANSPORT {
        if len < 34 {
            return Err(Error::Codec);
        }
        let id = ConnectionId(read_u128(bytes, 1));
        let nonce = read_u64(bytes, 17);
        let substream_id = SubstreamId(read_u64(bytes, 25));
        let kind = bytes[33];
        let message_type = if kind == KIND_OPEN_REQUEST && len == 34 {
            SubstreamMessageType::OpenRequest
        } else if kind == KIND_OPEN_RESPONSE && len == 34 {
            SubstreamMessageType::OpenResponse
        } else if kind == KIND_CLOSE && len == 34 {
            SubstreamMessageType::Close
        } else if kind == KIND_DATA && len >= 42 {
            let n = read_u64(bytes, 34);
            if n != (len - 42) as u64 {
                return Err(Error::Codec);
            }
            SubstreamMessageType::Data(read_bytes(bytes, 42, len))
        } else {
            return Err(Error::Codec);
        };
        Ok(
            Message::TransportMessage(
                TransportMessage { nonce, message: SubstreamMessage { substream_id, message_type }, id },
            ),
        )
    } else {
        Err(Error::Codec)
    }
}

} // verus!
