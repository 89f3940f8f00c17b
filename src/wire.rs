//! The binary form of the envelopes.
//!
//! The layout is protobuf's: an envelope holds at most one length-delimited
//! field, number 1 for an echo payload and number 2 for an addition; an echo
//! payload holds its text as field 1, an addition its integers as varint
//! fields 1 and 2. As protobuf does, a field whose value is zero or empty is
//! left out. Only this shortest form is accepted when reading, so that every
//! byte string that decodes is the encoding of exactly what it decodes to.
//!
//! There is no framing: one encoded envelope is expected per read.
use vstd::prelude::*;
use vstd::slice::slice_subrange;
use vstd::utf8::*;

use crate::message::client_message;
use crate::message::server_message;
use crate::message::{
    AddRequest, AddResponse, ClientMessage, EchoMessage, Request, Response, ServerMessage,
};
use crate::varint::{
    lemma_varint_len, lemma_varint_unique, parse_varint, varint_at, varint_bytes, write_varint,
};

verus! {

broadcast use {encode_utf8_valid_utf8, encode_utf8_decode_utf8, decode_utf8_encode_utf8};

/// Bytes that are not the encoding of any envelope.
#[derive(Clone, Copy, Debug, PartialEq, Eq)]
pub struct DecodeError;

/// A signed 32-bit integer as a varint field carries it: sign-extended to
/// 64 bits.
pub open spec fn int_wire(v: i32) -> u64 {
    if v >= 0 {
        v as u64
    } else {
        (v + 0x1_0000_0000_0000_0000int) as u64
    }
}

/// A varint field with key byte `key`, left out when the value is zero.
pub open spec fn int_field(key: u8, v: i32) -> Seq<u8> {
    if v == 0 {
        seq![]
    } else {
        seq![key] + varint_bytes(int_wire(v))
    }
}

/// A length-delimited field with key byte `key`.
pub open spec fn len_field(key: u8, body: Seq<u8>) -> Seq<u8> {
    seq![key] + varint_bytes(body.len() as u64) + body
}

/// The body of an echo payload: the text as field 1, left out when empty.
pub open spec fn echo_body(c: Seq<char>) -> Seq<u8> {
    if c.len() == 0 {
        seq![]
    } else {
        len_field(0x0A, encode_utf8(c))
    }
}

/// The body of an addition payload: the operands as fields 1 and 2.
pub open spec fn add_body(a: i32, b: i32) -> Seq<u8> {
    int_field(0x08, a) + int_field(0x10, b)
}

/// `s` holds the field `int_field(key, v)` from index `pos` on.
pub open spec fn int_field_at(s: Seq<u8>, pos: int, key: u8, v: i32) -> bool {
    &&& 0 <= pos
    &&& pos + int_field(key, v).len() <= s.len()
    &&& s.subrange(pos, pos + int_field(key, v).len()) == int_field(key, v)
}

/// The encoding of a request envelope.
pub open spec fn request_bytes(m: Option<Request>) -> Seq<u8> {
    match m {
        None => seq![],
        Some(Request::Echo(c)) => len_field(0x0A, echo_body(c)),
        Some(Request::Add(a, b)) => len_field(0x12, add_body(a, b)),
    }
}

/// The encoding of a response envelope.
pub open spec fn response_bytes(m: Option<Response>) -> Seq<u8> {
    match m {
        None => seq![],
        Some(Response::Echo(c)) => len_field(0x0A, echo_body(c)),
        Some(Response::Add(r)) => len_field(0x12, int_field(0x08, r)),
    }
}

/// Relies on std::str::from_utf8: it accepts exactly the well-formed UTF-8
/// byte strings and gives the text that those bytes encode.
#[verifier::external_body]
fn utf8_text(bytes: &[u8]) -> (r: Option<&str>)
    ensures
        r.is_some() == valid_utf8(bytes@),
        r.is_some() ==> r.unwrap()@ == decode_utf8(bytes@),
{
    std::str::from_utf8(bytes).ok()
}

fn int_to_wire(v: i32) -> (r: u64)
    ensures
        r == int_wire(v),
{
    if v >= 0 {
        v as u64
    } else {
        let m = -(v + 1);
        u64::MAX - (m as u64)
    }
}

fn int_from_wire(w: u64) -> (r: Option<i32>)
    ensures
        r matches Some(v) ==> int_wire(v) == w,
        forall|v: i32| #[trigger] int_wire(v) == w ==> r == Some(v),
{
    if w <= 0x7fff_ffff {
        Some(w as i32)
    } else if w >= 0xffff_ffff_8000_0000 {
        let d = (u64::MAX - w) as i32;
        Some(-d - 1)
    } else {
        None
    }
}

fn push_bytes(buf: &mut Vec<u8>, bytes: &[u8])
    ensures
        final(buf)@ == old(buf)@ + bytes@,
{
    let mut i: usize = 0;
    while i < bytes.len()
        invariant
            i <= bytes@.len(),
            buf@ == old(buf)@ + bytes@.subrange(0, i as int),
        decreases bytes@.len() - i,
    {
        buf.push(bytes[i]);
        i = i + 1;
        assert(buf@ =~= old(buf)@ + bytes@.subrange(0, i as int));
    }
    assert(bytes@.subrange(0, i as int) =~= bytes@);
}

fn push_int_field(buf: &mut Vec<u8>, key: u8, v: i32)
    ensures
        final(buf)@ == old(buf)@ + int_field(key, v),
{
    if v != 0 {
        buf.push(key);
        write_varint(int_to_wire(v), buf);
        assert(buf@ =~= old(buf)@ + int_field(key, v));
    } else {
        assert(buf@ =~= old(buf)@ + int_field(key, v));
    }
}

fn push_len_field(buf: &mut Vec<u8>, key: u8, body: &[u8])
    ensures
        final(buf)@ == old(buf)@ + len_field(key, body@),
{
    buf.push(key);
    write_varint(body.len() as u64, buf);
    push_bytes(buf, body);
    assert(buf@ =~= old(buf)@ + len_field(key, body@));
}

fn echo_body_bytes(content: &String) -> (r: Vec<u8>)
    ensures
        r@ == echo_body(content@),
{
    let text = content.as_str();
    let mut r: Vec<u8> = Vec::new();
    if !text.is_empty() {
        push_len_field(&mut r, 0x0A, text.as_bytes());
    }
    assert(r@ =~= echo_body(content@));
    r
}

/// Encodes a request envelope.
pub fn encode_request(m: &ClientMessage) -> (r: Vec<u8>)
    ensures
        r@ == request_bytes(m@),
{
    let mut r: Vec<u8> = Vec::new();
    match &m.message {
        None => {},
        Some(client_message::Message::EchoMessage(e)) => {
            let body = echo_body_bytes(&e.content);
            push_len_field(&mut r, 0x0A, body.as_slice());
        },
        Some(client_message::Message::AddRequest(q)) => {
            let mut body: Vec<u8> = Vec::new();
            push_int_field(&mut body, 0x08, q.a);
            push_int_field(&mut body, 0x10, q.b);
            push_len_field(&mut r, 0x12, body.as_slice());
        },
    }
    assert(r@ =~= request_bytes(m@));
    r
}

/// Encodes a response envelope.
pub fn encode_response(m: &ServerMessage) -> (r: Vec<u8>)
    ensures
        r@ == response_bytes(m@),
{
    let mut r: Vec<u8> = Vec::new();
    match &m.message {
        None => {},
        Some(server_message::Message::EchoMessage(e)) => {
            let body = echo_body_bytes(&e.content);
            push_len_field(&mut r, 0x0A, body.as_slice());
        },
        Some(server_message::Message::AddResponse(s)) => {
            let mut body: Vec<u8> = Vec::new();
            push_int_field(&mut body, 0x08, s.result);
            push_len_field(&mut r, 0x12, body.as_slice());
        },
    }
    assert(r@ =~= response_bytes(m@));
    r
}

/// Reads the envelope's one field: its key byte and where its body starts.
fn parse_frame(b: &[u8]) -> (r: Option<(u8, usize)>)
    requires
        b@.len() > 0,
    ensures
        r matches Some((key, start)) ==> 1 <= start <= b@.len() && b@ == len_field(
            key,
            b@.subrange(start as int, b@.len() as int),
        ),
        forall|key: u8, body: Seq<u8>| #[trigger]
            len_field(key, body) == b@ ==> r == Some((key, (b@.len() - body.len()) as usize))
                && b@.subrange(b@.len() - body.len(), b@.len() as int) == body,
{
    let key = b[0];
    proof {
        assert forall|k: u8, body: Seq<u8>| #[trigger] len_field(k, body) == b@ implies k == key
            && varint_at(b@, 1, body.len() as u64) && b@.subrange(
            b@.len() - body.len(),
            b@.len() as int,
        ) == body by {
            let vb = varint_bytes(body.len() as u64);
            assert(b@[0] == len_field(k, body)[0]);
            assert(b@.subrange(1, 1 + vb.len() as int) =~= vb);
            assert(b@.subrange(b@.len() - body.len(), b@.len() as int) =~= body);
        }
    }
    match parse_varint(b, 1) {
        None => None,
        Some((n, start)) => {
            if n != (b.len() - start) as u64 {
                return None;
            }
            proof {
                lemma_varint_len(n);
                let body = b@.subrange(start as int, b@.len() as int);
                assert(b@ =~= len_field(key, body));
                assert forall|k: u8, body2: Seq<u8>| #[trigger] len_field(k, body2) == b@ implies (
                b@.len() - body2.len()) == start by {
                    assert(varint_at(b@, 1, body2.len() as u64));
                }
            }
            Some((key, start))
        },
    }
}

/// Reads an echo payload's body, which fills `b` from `start` on.
fn parse_echo_body(b: &[u8], start: usize) -> (r: Option<String>)
    requires
        start <= b@.len(),
    ensures
        r matches Some(s) ==> echo_body(s@) == b@.subrange(start as int, b@.len() as int),
        forall|c: Seq<char>| #[trigger]
            echo_body(c) == b@.subrange(start as int, b@.len() as int) ==> (r matches Some(s) && s@
                == c),
{
    let ghost sub = b@.subrange(start as int, b@.len() as int);
    if start == b.len() {
        proof {
            assert forall|c: Seq<char>| #[trigger] echo_body(c) == sub implies c.len() == 0 by {
                if c.len() != 0 {
                    assert(echo_body(c).len() > 0);
                }
            }
        }
        assert(sub =~= seq![]);
        let s = String::new();
        assert(s@ =~= Seq::<char>::empty());
        return Some(s);
    }
    proof {
        assert forall|c: Seq<char>| #[trigger] echo_body(c) == sub implies c.len() != 0 && b@[start as int] == 0x0A
            && varint_at(b@, start + 1, encode_utf8(c).len() as u64) && start + 1 + varint_bytes(
            encode_utf8(c).len() as u64,
        ).len() + encode_utf8(c).len() == b@.len() && b@.subrange(
            b@.len() - encode_utf8(c).len(),
            b@.len() as int,
        ) == encode_utf8(c) by {
            if c.len() == 0 {
                assert(sub.len() > 0);
            }
            let u = encode_utf8(c);
            let vb = varint_bytes(u.len() as u64);
            assert(sub =~= seq![0x0Au8] + vb + u);
            assert(b@[start as int] == sub[0]);
            assert(sub.subrange(1, 1 + vb.len() as int) =~= vb);
            assert(b@.subrange(start + 1, start + 1 + vb.len() as int) =~= sub.subrange(
                1,
                1 + vb.len() as int,
            ));
            assert(sub.subrange(sub.len() - u.len(), sub.len() as int) =~= u);
            assert(b@.subrange(b@.len() - u.len(), b@.len() as int) =~= sub.subrange(
                sub.len() - u.len(),
                sub.len() as int,
            ));
        }
    }
    if b[start] != 0x0A {
        return None;
    }
    match parse_varint(b, start + 1) {
        None => None,
        Some((n, p)) => {
            if n == 0 || n != (b.len() - p) as u64 {
                return None;
            }
            let bytes = slice_subrange(b, p, b.len());
            match utf8_text(bytes) {
                None => None,
                Some(text) => {
                    let s = text.to_owned();
                    proof {
                        lemma_varint_len(n);
                        assert(encode_utf8(s@) == bytes@);
                        if s@.len() == 0 {
                            assert(encode_utf8(s@) =~= Seq::<u8>::empty());
                        }
                        assert(sub =~= len_field(0x0A, bytes@));
                        assert forall|c: Seq<char>| #[trigger] echo_body(c) == sub implies s@ == c by {
                            assert(varint_at(b@, start + 1, encode_utf8(c).len() as u64));
                            assert(bytes@ =~= encode_utf8(c));
                        }
                    }
                    Some(s)
                },
            }
        },
    }
}

/// Reads the varint field with key byte `key` at `pos`, or a zero where the
/// next byte is not that key.
fn read_int_field(b: &[u8], pos: usize, key: u8) -> (r: Option<(i32, usize)>)
    requires
        pos <= b@.len(),
    ensures
        r matches Some((v, end)) ==> end == pos + int_field(key, v).len() && int_field_at(
            b@,
            pos as int,
            key,
            v,
        ),
        forall|v: i32|
            v != 0 && #[trigger] int_field_at(b@, pos as int, key, v) ==> r == Some(
                (v, (pos + int_field(key, v).len()) as usize),
            ),
        pos == b@.len() || b@[pos as int] != key ==> r == Some((0i32, pos)),
{
    if pos == b.len() || b[pos] != key {
        assert(b@.subrange(pos as int, pos as int) =~= int_field(key, 0));
        proof {
            assert forall|v: i32| v != 0 && #[trigger] int_field_at(b@, pos as int, key, v) implies false by {
                assert(b@[pos as int] == int_field(key, v)[0]);
            }
        }
        return Some((0, pos));
    }
    proof {
        assert forall|v: i32| v != 0 && #[trigger] int_field_at(b@, pos as int, key, v) implies varint_at(
            b@,
            pos + 1,
            int_wire(v),
        ) by {
            let vb = varint_bytes(int_wire(v));
            let f = int_field(key, v);
            assert(f.subrange(1, 1 + vb.len() as int) =~= vb);
            assert(b@.subrange(pos as int, pos + f.len()) == f);
            assert(b@.subrange(pos + 1, pos + 1 + vb.len()) =~= int_field(key, v).subrange(
                1,
                1 + vb.len() as int,
            ));
        }
    }
    match parse_varint(b, pos + 1) {
        None => None,
        Some((w, end)) => {
            match int_from_wire(w) {
                None => None,
                Some(v) => {
                    if v == 0 {
                        return None;
                    }
                    proof {
                        assert(b@.subrange(pos as int, end as int) =~= int_field(key, v));
                        assert forall|u: i32| u != 0 && #[trigger] int_field_at(b@, pos as int, key, u) implies u
                            == v by {
                            assert(varint_at(b@, pos + 1, int_wire(u)));
                        }
                    }
                    Some((v, end))
                },
            }
        },
    }
}

/// Reads an addition payload's body, which fills `b` from `start` on.
fn parse_add_body(b: &[u8], start: usize) -> (r: Option<(i32, i32)>)
    requires
        start <= b@.len(),
    ensures
        r matches Some((x, y)) ==> add_body(x, y) == b@.subrange(start as int, b@.len() as int),
        forall|x: i32, y: i32| #[trigger]
            add_body(x, y) == b@.subrange(start as int, b@.len() as int) ==> r == Some((x, y)),
{
    let ghost sub = b@.subrange(start as int, b@.len() as int);
    proof {
        assert forall|x: i32, y: i32| #[trigger] add_body(x, y) == sub implies (x != 0 ==> int_field_at(
            b@,
            start as int,
            0x08,
            x,
        )) && (x == 0 ==> start == b@.len() || b@[start as int] != 0x08) by {
            let f = int_field(0x08, x);
            assert(sub.len() == f.len() + int_field(0x10, y).len());
            assert(sub.subrange(0, f.len() as int) =~= f);
            assert(b@.subrange(start as int, start + f.len()) =~= sub.subrange(0, f.len() as int));
            if x == 0 && start < b@.len() {
                assert(b@[start as int] == sub[0]);
                assert(sub =~= int_field(0x10, y));
            }
        }
    }
    let (x, p) = match read_int_field(b, start, 0x08) {
        None => { return None; },
        Some(f) => f,
    };
    proof {
        assert forall|x1: i32, y: i32| #[trigger] add_body(x1, y) == sub implies x1 == x && (y != 0
            ==> int_field_at(b@, p as int, 0x10, y)) && (y == 0 ==> p == b@.len()) by {
            let f = int_field(0x08, x1);
            let g = int_field(0x10, y);
            assert(sub.subrange(f.len() as int, sub.len() as int) =~= g);
            assert(b@.subrange(p as int, p + g.len()) =~= sub.subrange(
                f.len() as int,
                sub.len() as int,
            ));
        }
    }
    let (y, q) = match read_int_field(b, p, 0x10) {
        None => { return None; },
        Some(f) => f,
    };
    proof {
        assert forall|x1: i32, y1: i32| #[trigger] add_body(x1, y1) == sub implies y1 == y && q
            == b@.len() by {
            let f = int_field(0x08, x1);
            let g = int_field(0x10, y1);
            assert(sub.len() == f.len() + g.len());
            if y1 != 0 {
                assert(int_field_at(b@, p as int, 0x10, y1));
            }
        }
    }
    if q != b.len() {
        return None;
    }
    proof {
        assert(sub =~= b@.subrange(start as int, p as int) + b@.subrange(p as int, q as int));
    }
    Some((x, y))
}

/// Reads an addition response's body, which fills `b` from `start` on.
fn parse_result_body(b: &[u8], start: usize) -> (r: Option<i32>)
    requires
        start <= b@.len(),
    ensures
        r matches Some(x) ==> int_field(0x08, x) == b@.subrange(start as int, b@.len() as int),
        forall|x: i32| #[trigger]
            int_field(0x08, x) == b@.subrange(start as int, b@.len() as int) ==> r == Some(x),
{
    let ghost sub = b@.subrange(start as int, b@.len() as int);
    proof {
        assert forall|x: i32| #[trigger] int_field(0x08, x) == sub implies (x != 0 ==> int_field_at(
            b@,
            start as int,
            0x08,
            x,
        )) && (x == 0 ==> start == b@.len()) by {
            assert(b@.subrange(start as int, start + sub.len()) =~= sub);
        }
    }
    let (x, p) = match read_int_field(b, start, 0x08) {
        None => { return None; },
        Some(f) => f,
    };
    if p != b.len() {
        return None;
    }
    Some(x)
}

/// Decodes a request envelope. It succeeds exactly on the encodings of
/// request envelopes, and gives back the envelope that was encoded.
pub fn decode_request(b: &[u8]) -> (r: Result<ClientMessage, DecodeError>)
    ensures
        r matches Ok(m) ==> request_bytes(m@) == b@,
        forall|m: Option<Request>| #[trigger] request_bytes(m) == b@ ==> (r matches Ok(x) && x@ == m),
{
    if b.len() == 0 {
        proof {
            assert forall|m: Option<Request>| #[trigger] request_bytes(m) == b@ implies m is None by {
                if m is Some {
                    assert(request_bytes(m).len() > 0);
                }
            }
        }
        assert(b@ =~= request_bytes(None));
        return Ok(ClientMessage { message: None });
    }
    let (key, start) = match parse_frame(b) {
        None => { return Err(DecodeError); },
        Some(f) => f,
    };
    let ghost body = b@.subrange(start as int, b@.len() as int);
    proof {
        assert forall|m: Option<Request>| #[trigger] request_bytes(m) == b@ implies match m {
            Some(Request::Echo(c)) => key == 0x0A && echo_body(c) == body,
            Some(Request::Add(x, y)) => key == 0x12 && add_body(x, y) == body,
            None => false,
        } by {
            match m {
                Some(Request::Echo(c)) => {
                    assert(len_field(0x0A, echo_body(c)) == b@);
                },
                Some(Request::Add(x, y)) => {
                    assert(len_field(0x12, add_body(x, y)) == b@);
                },
                None => {},
            }
        }
    }
    if key == 0x0A {
        match parse_echo_body(b, start) {
            None => Err(DecodeError),
            Some(content) => {
                let m = ClientMessage {
                    message: Some(client_message::Message::EchoMessage(EchoMessage { content })),
                };
                Ok(m)
            },
        }
    } else if key == 0x12 {
        match parse_add_body(b, start) {
            None => Err(DecodeError),
            Some((x, y)) => {
                let m = ClientMessage {
                    message: Some(client_message::Message::AddRequest(AddRequest { a: x, b: y })),
                };
                Ok(m)
            },
        }
    } else {
        Err(DecodeError)
    }
}

/// Decodes a response envelope. It succeeds exactly on the encodings of
/// response envelopes, and gives back the envelope that was encoded.
pub fn decode_response(b: &[u8]) -> (r: Result<ServerMessage, DecodeError>)
    ensures
        r matches Ok(m) ==> response_bytes(m@) == b@,
        forall|m: Option<Response>| #[trigger] response_bytes(m) == b@ ==> (r matches Ok(x) && x@ == m),
{
    if b.len() == 0 {
        proof {
            assert forall|m: Option<Response>| #[trigger] response_bytes(m) == b@ implies m is None by {
                if m is Some {
                    assert(response_bytes(m).len() > 0);
                }
            }
        }
        assert(b@ =~= response_bytes(None));
        return Ok(ServerMessage { message: None });
    }
    let (key, start) = match parse_frame(b) {
        None => { return Err(DecodeError); },
        Some(f) => f,
    };
    let ghost body = b@.subrange(start as int, b@.len() as int);
    proof {
        assert forall|m: Option<Response>| #[trigger] response_bytes(m) == b@ implies match m {
            Some(Response::Echo(c)) => key == 0x0A && echo_body(c) == body,
            Some(Response::Add(x)) => key == 0x12 && int_field(0x08, x) == body,
            None => false,
        } by {
            match m {
                Some(Response::Echo(c)) => {
                    assert(len_field(0x0A, echo_body(c)) == b@);
                },
                Some(Response::Add(x)) => {
                    assert(len_field(0x12, int_field(0x08, x)) == b@);
                },
                None => {},
            }
        }
    }
    if key == 0x0A {
        match parse_echo_body(b, start) {
            None => Err(DecodeError),
            Some(content) => {
                let m = ServerMessage {
                    message: Some(server_message::Message::EchoMessage(EchoMessage { content })),
                };
                Ok(m)
            },
        }
    } else if key == 0x12 {
        match parse_result_body(b, start) {
            None => Err(DecodeError),
            Some(x) => {
                let m = ServerMessage {
                    message: Some(server_message::Message::AddResponse(AddResponse { result: x })),
                };
                Ok(m)
            },
        }
    } else {
        Err(DecodeError)
    }
}

/// A request that a program can hold: an echo's text takes at most
/// `isize::MAX` bytes in UTF-8.
pub open spec fn request_fits(m: Option<Request>) -> bool {
    match m {
        Some(Request::Echo(c)) => encode_utf8(c).len() <= isize::MAX,
        _ => true,
    }
}

/// A response that a program can hold: an echo's text takes at most
/// `isize::MAX` bytes in UTF-8.
pub open spec fn response_fits(m: Option<Response>) -> bool {
    match m {
        Some(Response::Echo(c)) => encode_utf8(c).len() <= isize::MAX,
        _ => true,
    }
}

proof fn lemma_len_field_unique(k1: u8, b1: Seq<u8>, k2: u8, b2: Seq<u8>)
    requires
        len_field(k1, b1) == len_field(k2, b2),
        b1.len() <= u64::MAX,
        b2.len() <= u64::MAX,
    ensures
        k1 == k2,
        b1 == b2,
{
    let s = len_field(k1, b1);
    let v1 = varint_bytes(b1.len() as u64);
    let v2 = varint_bytes(b2.len() as u64);
    assert(s[0] == k1);
    assert(len_field(k2, b2)[0] == k2);
    let t = s.skip(1);
    assert(t =~= v1 + b1);
    assert(t =~= v2 + b2);
    assert(t.subrange(0, v1.len() as int) =~= v1);
    assert(t.subrange(0, v2.len() as int) =~= v2);
    lemma_varint_unique(t, b1.len() as u64, b2.len() as u64);
    assert(b1 =~= t.skip(v1.len() as int));
    assert(b2 =~= t.skip(v2.len() as int));
}

proof fn lemma_echo_body_len(c: Seq<char>)
    requires
        encode_utf8(c).len() <= isize::MAX,
    ensures
        echo_body(c).len() <= u64::MAX,
        c.len() == 0 <==> echo_body(c).len() == 0,
{
    lemma_varint_len(encode_utf8(c).len() as u64);
    if c.len() != 0 {
        assert(decode_utf8(encode_utf8(c)) == c);
        if encode_utf8(c).len() == 0 {
            assert(encode_utf8(c) =~= Seq::<u8>::empty());
        }
    }
}

proof fn lemma_echo_body_unique(c1: Seq<char>, c2: Seq<char>)
    requires
        echo_body(c1) == echo_body(c2),
        encode_utf8(c1).len() <= isize::MAX,
        encode_utf8(c2).len() <= isize::MAX,
    ensures
        c1 == c2,
{
    lemma_echo_body_len(c1);
    lemma_echo_body_len(c2);
    if c1.len() == 0 || c2.len() == 0 {
        assert(c1 =~= c2);
    } else {
        lemma_len_field_unique(0x0A, encode_utf8(c1), 0x0A, encode_utf8(c2));
        assert(decode_utf8(encode_utf8(c1)) == c1);
        assert(decode_utf8(encode_utf8(c2)) == c2);
    }
}

proof fn lemma_int_field_unique(k: u8, a1: i32, r1: Seq<u8>, a2: i32, r2: Seq<u8>)
    requires
        int_field(k, a1) + r1 == int_field(k, a2) + r2,
        r1.len() == 0 || r1[0] != k,
        r2.len() == 0 || r2[0] != k,
    ensures
        a1 == a2,
        r1 == r2,
{
    let s = int_field(k, a1) + r1;
    let f1 = int_field(k, a1);
    let f2 = int_field(k, a2);
    if a1 != 0 && a2 != 0 {
        let t = s.skip(1);
        let w1 = varint_bytes(int_wire(a1));
        let w2 = varint_bytes(int_wire(a2));
        assert(t =~= w1 + r1);
        assert(t =~= w2 + r2);
        assert(t.subrange(0, w1.len() as int) =~= w1);
        assert(t.subrange(0, w2.len() as int) =~= w2);
        lemma_varint_unique(t, int_wire(a1), int_wire(a2));
        assert(r1 =~= t.skip(w1.len() as int));
        assert(r2 =~= t.skip(w2.len() as int));
    } else if a1 != 0 {
        assert(s[0] == k);
        assert(s =~= r2);
    } else if a2 != 0 {
        assert(s[0] == r1[0]);
        assert((int_field(k, a2) + r2)[0] == k);
    } else {
        assert(r1 =~= s);
        assert(r2 =~= int_field(k, a2) + r2);
    }
}

proof fn lemma_add_body_unique(a1: i32, b1: i32, a2: i32, b2: i32)
    requires
        add_body(a1, b1) == add_body(a2, b2),
    ensures
        a1 == a2,
        b1 == b2,
{
    let g1 = int_field(0x10, b1);
    let g2 = int_field(0x10, b2);
    lemma_int_field_unique(0x08, a1, g1, a2, g2);
    assert(g1 =~= g1 + Seq::<u8>::empty());
    assert(g2 =~= g2 + Seq::<u8>::empty());
    lemma_int_field_unique(0x10, b1, Seq::<u8>::empty(), b2, Seq::<u8>::empty());
}

/// The wire form is unambiguous: two requests that a program can hold never
/// share an encoding. So where `decode_request` reads the encoding of a
/// request, the one request whose encoding that is comes back.
pub proof fn lemma_request_bytes_unique(m1: Option<Request>, m2: Option<Request>)
    requires
        request_fits(m1),
        request_fits(m2),
        request_bytes(m1) == request_bytes(m2),
    ensures
        m1 == m2,
{
    match (m1, m2) {
        (None, None) => {},
        (Some(_), None) => {
            assert(request_bytes(m1).len() > 0);
        },
        (None, Some(_)) => {
            assert(request_bytes(m2).len() > 0);
        },
        (Some(q1), Some(q2)) => {
            let (k1, body1) = match q1 {
                Request::Echo(c) => (0x0Au8, echo_body(c)),
                Request::Add(a, b) => (0x12u8, add_body(a, b)),
            };
            let (k2, body2) = match q2 {
                Request::Echo(c) => (0x0Au8, echo_body(c)),
                Request::Add(a, b) => (0x12u8, add_body(a, b)),
            };
            if let Request::Echo(c) = q1 {
                lemma_echo_body_len(c);
            }
            if let Request::Echo(c) = q2 {
                lemma_echo_body_len(c);
            }
            if let Request::Add(a, b) = q1 {
                lemma_varint_len(int_wire(a));
                lemma_varint_len(int_wire(b));
            }
            if let Request::Add(a, b) = q2 {
                lemma_varint_len(int_wire(a));
                lemma_varint_len(int_wire(b));
            }
            lemma_len_field_unique(k1, body1, k2, body2);
            match (q1, q2) {
                (Request::Echo(c1), Request::Echo(c2)) => {
                    lemma_echo_body_unique(c1, c2);
                },
                (Request::Add(a1, b1), Request::Add(a2, b2)) => {
                    lemma_add_body_unique(a1, b1, a2, b2);
                },
                _ => {},
            }
        },
    }
}

/// The same holds of responses: two responses that a program can hold never
/// share an encoding.
pub proof fn lemma_response_bytes_unique(m1: Option<Response>, m2: Option<Response>)
    requires
        response_fits(m1),
        response_fits(m2),
        response_bytes(m1) == response_bytes(m2),
    ensures
        m1 == m2,
{
    match (m1, m2) {
        (None, None) => {},
        (Some(_), None) => {
            assert(response_bytes(m1).len() > 0);
        },
        (None, Some(_)) => {
            assert(response_bytes(m2).len() > 0);
        },
        (Some(q1), Some(q2)) => {
            let (k1, body1) = match q1 {
                Response::Echo(c) => (0x0Au8, echo_body(c)),
                Response::Add(x) => (0x12u8, int_field(0x08, x)),
            };
            let (k2, body2) = match q2 {
                Response::Echo(c) => (0x0Au8, echo_body(c)),
                Response::Add(x) => (0x12u8, int_field(0x08, x)),
            };
            if let Response::Echo(c) = q1 {
                lemma_echo_body_len(c);
            }
            if let Response::Echo(c) = q2 {
                lemma_echo_body_len(c);
            }
            if let Response::Add(x) = q1 {
                lemma_varint_len(int_wire(x));
            }
            if let Response::Add(x) = q2 {
                lemma_varint_len(int_wire(x));
            }
            lemma_len_field_unique(k1, body1, k2, body2);
            match (q1, q2) {
                (Response::Echo(c1), Response::Echo(c2)) => {
                    lemma_echo_body_unique(c1, c2);
                },
                (Response::Add(x1), Response::Add(x2)) => {
                    assert(int_field(0x08, x1) =~= int_field(0x08, x1) + Seq::<u8>::empty());
                    assert(int_field(0x08, x2) =~= int_field(0x08, x2) + Seq::<u8>::empty());
                    lemma_int_field_unique(0x08, x1, Seq::<u8>::empty(), x2, Seq::<u8>::empty());
                },
                _ => {},
            }
        },
    }
}

} // verus!
