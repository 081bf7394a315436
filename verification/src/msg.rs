//! The SPP message frame: the magic `SPP`, the identifier (by its mapped id
//! where the mapper knows it, else spelled out), and the payload.

use vstd::prelude::*;
use vstd::utf8::encode_utf8;
use bytes::{Bytes, BytesMut};
use std::io::Cursor;
use crate::bufs::{
    extend_from_slice, get_u16_be, get_u8, put_slice, put_u16_be, put_u8, remaining, reserve,
    unread, written,
};
use crate::mapper::{
    law_lookup_inverse, lookup_id, lookup_string, mapper_wf, MapperView, SppMapper,
};
use vstd::string::StringExecFns;
use crate::text::{decimal_nat, push_char, push_decimal};
use crate::wire::{be16, law_be16_bytes, lemma_be16_roundtrip, read_be16};

verus! {

/// The three bytes that open every message: `SPP`.
pub const MAGIC: [u8; 3] = [0x53, 0x50, 0x50];

const PK_STATE_STRING: u8 = 0x01;

const PK_STATE_INTEGER: u8 = 0x02;

/// A message: the identifier of what it is about, and its payload.
#[derive(Eq, PartialEq, Debug)]
pub struct SppMessage {
    pub identifier: String,
    pub payload: Vec<u8>,
}

/// A message with its identifier as `char`s and its payload as bytes.
pub struct MessageView {
    pub identifier: Seq<char>,
    pub payload: Seq<u8>,
}

impl View for SppMessage {
    type V = MessageView;

    open spec fn view(&self) -> MessageView {
        MessageView { identifier: self.identifier@, payload: self.payload@ }
    }
}

/// The bytes of a message, given what the mapper holds.
pub open spec fn encode_message(m: MessageView, v: MapperView) -> Seq<u8> {
    MAGIC@ + match lookup_string(v, m.identifier) {
        Some(id) => seq![0x02u8] + be16(id),
        None => seq![0x01u8] + be16((encode_utf8(m.identifier).len() % 65536) as u16)
            + encode_utf8(m.identifier),
    } + be16((m.payload.len() % 65536) as u16) + m.payload
}

/// Writes `pk` after what `ans` holds. An identifier that the mapper knows is
/// written as its id, any other one as its UTF-8 bytes; the lengths are
/// written modulo 2^16.
pub fn serialize(pk: &SppMessage, mapper: &SppMapper, ans: &mut BytesMut)
    requires
        mapper_wf(mapper@),
        written(*old(ans)).len() + encode_message(pk@, mapper@).len() <= usize::MAX,
    ensures
        written(*final(ans)) == written(*old(ans)) + encode_message(pk@, mapper@),
{
    let ghost start = written(*ans);
    extend_from_slice(ans, MAGIC.as_slice());
    match mapper.string_to_integer(pk.identifier.as_str()) {
        Some(id) => {
            reserve(ans, 1 + 2);
            put_u8(ans, PK_STATE_INTEGER);
            put_u16_be(ans, id);
        },
        None => {
            reserve(ans, 1);
            put_u8(ans, PK_STATE_STRING);
            let id = pk.identifier.as_str();
            reserve(ans, 2 + id.len());
            put_u16_be(ans, (id.len() % 65536) as u16);
            put_slice(ans, id.as_bytes());
        },
    }
    reserve(ans, 2);
    put_u16_be(ans, (pk.payload.len() % 65536) as u16);
    extend_from_slice(ans, pk.payload.as_slice());
    assert(written(*ans) =~= start + encode_message(pk@, mapper@));
}

/// Why a message could not be read.
#[derive(Debug, PartialEq, Eq, Clone, Copy)]
pub enum DeserializeError {
    NoState,
    Magic,
    Length { required: usize, actual: usize },
    WrongState { state: u8 },
    NoSuchId { id: u16 },
}

/// The text of an error, as its `Display` writes it.
pub open spec fn error_text(e: DeserializeError) -> Seq<char> {
    match e {
        DeserializeError::NoState => "no packet state"@,
        DeserializeError::Magic => "incorrect magic"@,
        DeserializeError::Length { required, actual } => "packet length: required "@
            + decimal_nat(required as nat) + ", got "@ + decimal_nat(actual as nat),
        DeserializeError::WrongState { state } => "illegal state : "@ + decimal_nat(state as nat),
        DeserializeError::NoSuchId { id } => "no such id : "@ + decimal_nat(id as nat),
    }
}

impl DeserializeError {
    /// The text of the error, in place of `Display`.
    pub fn message(&self) -> (s: String)
        ensures
            s@ == error_text(*self),
    {
        let mut s = String::new();
        match *self {
            DeserializeError::NoState => s.append("no packet state"),
            DeserializeError::Magic => s.append("incorrect magic"),
            DeserializeError::Length { required, actual } => {
                s.append("packet length: required ");
                push_decimal(&mut s, required as u64);
                s.append(", got ");
                push_decimal(&mut s, actual as u64);
            },
            DeserializeError::WrongState { state } => {
                s.append("illegal state : ");
                push_decimal(&mut s, state as u64);
            },
            DeserializeError::NoSuchId { id } => {
                s.append("no such id : ");
                push_decimal(&mut s, id as u64);
            },
        }
        assert(s@ =~= error_text(*self));
        s
    }
}

/// The bytes as characters, one per byte (each byte its own code point).
pub open spec fn latin1(b: Seq<u8>) -> Seq<char> {
    b.map_values(|x: u8| x as char)
}

/// The input opens with `SPP`.
pub open spec fn magic_ok(s: Seq<u8>) -> bool {
    s.len() >= 3 && s[0] == 0x53 && s[1] == 0x50 && s[2] == 0x50
}

/// How many bytes the magic check reads: none when fewer than three are
/// left, else up to and with the first byte that differs.
pub open spec fn magic_read(s: Seq<u8>) -> int {
    if s.len() < 3 {
        0
    } else if s[0] != 0x53 {
        1
    } else if s[1] != 0x50 {
        2
    } else {
        3
    }
}

/// The identifier read after the state byte: with the number of bytes read
/// from the start of the message when it is read, or the error with the
/// number of bytes read before it.
pub open spec fn decode_identifier(
    v: MapperView,
    state: u8,
    t: Seq<u8>,
) -> Result<(Seq<char>, int), (DeserializeError, int)> {
    if state == 0x01 {
        if t.len() < 2 {
            Err((DeserializeError::Length { required: 2, actual: t.len() as usize }, 4))
        } else {
            let len = read_be16(t);
            let u = t.skip(2);
            if u.len() < len {
                Err((DeserializeError::Length { required: len as usize, actual: u.len() as usize }, 6))
            } else {
                Ok((latin1(u.take(len as int)), 6 + len))
            }
        }
    } else if state == 0x02 {
        if t.len() < 2 {
            Err((DeserializeError::Length { required: 2, actual: t.len() as usize }, 4))
        } else {
            let id = read_be16(t);
            match lookup_id(v, id) {
                Some(x) => Ok((x, 6)),
                None => Err((DeserializeError::NoSuchId { id }, 6)),
            }
        }
    } else {
        Err((DeserializeError::WrongState { state }, 4))
    }
}

/// The message read from `s`, or the reason it cannot be read; with the
/// number of bytes read either way.
pub open spec fn decode_message(v: MapperView, s: Seq<u8>) -> (
    Result<MessageView, DeserializeError>,
    int,
) {
    if !magic_ok(s) {
        (Err(DeserializeError::Magic), magic_read(s))
    } else if s.len() < 4 {
        (Err(DeserializeError::NoState), 3)
    } else {
        match decode_identifier(v, s[3], s.skip(4)) {
            Err((e, n)) => (Err(e), n),
            Ok((identifier, n)) => {
                let w = s.skip(n);
                if w.len() < 2 {
                    (Err(DeserializeError::Length { required: 2, actual: w.len() as usize }), n)
                } else {
                    let len = read_be16(w);
                    let x = w.skip(2);
                    if x.len() < len {
                        (
                            Err(
                                DeserializeError::Length {
                                    required: len as usize,
                                    actual: x.len() as usize,
                                },
                            ),
                            n + 2,
                        )
                    } else {
                        (
                            Ok(MessageView { identifier, payload: x.take(len as int) }),
                            n + 2 + len,
                        )
                    }
                }
            },
        }
    }
}

pub open spec fn message_result_view(r: Result<SppMessage, DeserializeError>) -> Result<
    MessageView,
    DeserializeError,
> {
    match r {
        Ok(m) => Ok(m@),
        Err(e) => Err(e),
    }
}

/// Checks the `SPP` magic, reading up to the first byte that differs.
fn validate_magic(cur: &mut Cursor<Bytes>) -> (ok: bool)
    ensures
        ok == magic_ok(unread(*old(cur))),
        unread(*final(cur)) == unread(*old(cur)).skip(magic_read(unread(*old(cur)))),
{
    let ghost s = unread(*cur);
    if remaining(cur) < 3 {
        assert(s.skip(0) =~= s);
        return false;
    }
    let mut i: usize = 0;
    while i < 3
        invariant
            0 <= i <= 3,
            s.len() >= 3,
            s == unread(*old(cur)),
            unread(*cur) == s.skip(i as int),
            forall|j: int| 0 <= j < i ==> s[j] == MAGIC@[j],
        decreases 3 - i,
    {
        let b = get_u8(cur);
        if b != MAGIC[i] {
            assert(unread(*cur) =~= s.skip(i + 1));
            return false;
        }
        i = i + 1;
        assert(unread(*cur) =~= s.skip(i as int));
    }
    return true;
}

/// Reads a message from the cursor. An identifier spelled out is read one
/// byte per character; one given by id is looked up in the mapper.
pub fn deserialize(mapper: &SppMapper, cur: &mut Cursor<Bytes>) -> (r: Result<
    SppMessage,
    DeserializeError,
>)
    ensures
        message_result_view(r) == decode_message(mapper@, unread(*old(cur))).0,
        unread(*final(cur)) == unread(*old(cur)).skip(decode_message(mapper@, unread(*old(cur))).1),
{
    let ghost s = unread(*cur);
    if !validate_magic(cur) {
        return Err(DeserializeError::Magic);
    }
    if remaining(cur) < 1 {
        return Err(DeserializeError::NoState);
    }
    let state = get_u8(cur);
    assert(unread(*cur) =~= s.skip(4));
    let string_id: String;
    if state == PK_STATE_STRING {
        if remaining(cur) < 2 {
            return Err(DeserializeError::Length { required: 2, actual: remaining(cur) });
        }
        let len = get_u16_be(cur);
        assert(unread(*cur) =~= s.skip(6));
        if remaining(cur) < len as usize {
            return Err(DeserializeError::Length { required: len as usize, actual: remaining(cur) });
        }
        let ghost u = s.skip(6);
        let mut string = String::new();
        let mut i: u16 = 0;
        while i < len
            invariant
                i <= len,
                u.len() >= len,
                u == s.skip(6),
                unread(*cur) == u.skip(i as int),
                string@ == latin1(u.take(i as int)),
            decreases len - i,
        {
            let b = get_u8(cur);
            push_char(&mut string, b as char);
            assert(latin1(u.take(i + 1)) =~= latin1(u.take(i as int)).push(b as char));
            i = i + 1;
            assert(unread(*cur) =~= u.skip(i as int));
        }
        assert(unread(*cur) =~= s.skip(6 + len));
        string_id = string;
    } else if state == PK_STATE_INTEGER {
        if remaining(cur) < 2 {
            return Err(DeserializeError::Length { required: 2, actual: remaining(cur) });
        }
        let int_id = get_u16_be(cur);
        assert(unread(*cur) =~= s.skip(6));
        match mapper.integer_to_string(int_id) {
            Some(string) => {
                string_id = string.to_owned();
            },
            None => {
                return Err(DeserializeError::NoSuchId { id: int_id });
            },
        }
    } else {
        return Err(DeserializeError::WrongState { state });
    }
    let ghost n = decode_identifier(mapper@, state, s.skip(4))->Ok_0.1;
    assert(unread(*cur) == s.skip(n));
    if remaining(cur) < 2 {
        return Err(DeserializeError::Length { required: 2, actual: remaining(cur) });
    }
    let len = get_u16_be(cur);
    let ghost x = s.skip(n).skip(2);
    if remaining(cur) < len as usize {
        return Err(DeserializeError::Length { required: len as usize, actual: remaining(cur) });
    }
    let mut payload: Vec<u8> = Vec::with_capacity(len as usize);
    let mut i: u16 = 0;
    while i < len
        invariant
            i <= len,
            x.len() >= len,
            unread(*cur) == x.skip(i as int),
            payload@ == x.take(i as int),
        decreases len - i,
    {
        let b = get_u8(cur);
        payload.push(b);
        assert(x.take(i + 1) =~= x.take(i as int).push(b));
        i = i + 1;
        assert(unread(*cur) =~= x.skip(i as int));
    }
    assert(unread(*cur) =~= s.skip(n + 2 + len));
    Ok(SppMessage { identifier: string_id, payload })
}

/// The messages that read back as written: a payload shorter than 2^16
/// bytes, and an identifier that the mapper knows, or else one of ASCII
/// characters only (which are one byte each) shorter than 2^16.
pub open spec fn message_roundtrips(m: MessageView, v: MapperView) -> bool {
    &&& m.payload.len() < 65536
    &&& lookup_string(v, m.identifier) is None ==> {
        &&& vstd::utf8::is_ascii_chars(m.identifier)
        &&& m.identifier.len() < 65536
    }
}

proof fn lemma_latin1_ascii(c: Seq<char>)
    requires
        vstd::utf8::is_ascii_chars(c),
    ensures
        latin1(encode_utf8(c)) == c,
{
    vstd::utf8::is_ascii_chars_encode_utf8(c);
    let e = encode_utf8(c);
    assert forall|i: int| 0 <= i < c.len() implies latin1(e)[i] == c[i] by {
        assert(c[i] as u8 == e[i]);
        assert('\0' <= c[i] <= '\u{7f}');
        assert((c[i] as u8) as char == c[i]);
    }
    assert(latin1(e) =~= c);
}

/// A message written with a mapper is read back with the same mapper as the
/// same message, taking exactly its own bytes, whatever follows it.
pub proof fn law_message_roundtrip(m: MessageView, v: MapperView, rest: Seq<u8>)
    requires
        mapper_wf(v),
        message_roundtrips(m, v),
    ensures
        decode_message(v, encode_message(m, v) + rest) == (
            Ok::<MessageView, DeserializeError>(m),
            encode_message(m, v).len() as int,
        ),
{
    let head = match lookup_string(v, m.identifier) {
        Some(id) => seq![0x02u8] + be16(id),
        None => seq![0x01u8] + be16((encode_utf8(m.identifier).len() % 65536) as u16)
            + encode_utf8(m.identifier),
    };
    let tail = be16((m.payload.len() % 65536) as u16) + m.payload;
    let s = encode_message(m, v) + rest;
    assert(s =~= MAGIC@ + head + tail + rest);
    assert(magic_ok(s));
    let t = s.skip(4);
    let n: int = match lookup_string(v, m.identifier) {
        Some(id) => 6int,
        None => 6 + encode_utf8(m.identifier).len() as int,
    };
    match lookup_string(v, m.identifier) {
        Some(id) => {
            assert(t.take(2) =~= be16(id));
            lemma_be16_roundtrip(id, t);
            law_lookup_inverse(v, m.identifier, id);
        },
        None => {
            let e = encode_utf8(m.identifier);
            vstd::utf8::is_ascii_chars_encode_utf8(m.identifier);
            assert((e.len() % 65536) as u16 == e.len());
            assert(t.take(2) =~= be16(e.len() as u16));
            lemma_be16_roundtrip(e.len() as u16, t);
            assert(t.skip(2).take(e.len() as int) =~= e);
            lemma_latin1_ascii(m.identifier);
        },
    }
    assert(decode_identifier(v, s[3], t) == Ok::<(Seq<char>, int), (DeserializeError, int)>(
        (m.identifier, n),
    ));
    let w = s.skip(n);
    assert(w =~= tail + rest);
    assert((m.payload.len() % 65536) as u16 == m.payload.len());
    assert(w.take(2) =~= be16(m.payload.len() as u16));
    lemma_be16_roundtrip(m.payload.len() as u16, w);
    assert(w.skip(2).take(m.payload.len() as int) =~= m.payload);
    assert(encode_message(m, v).len() == n + 2 + m.payload.len());
}

/// How a message is laid out: `S` `P` `P`; then, for an identifier the
/// mapper knows, the state byte 2 and its id (high byte first), else the
/// state byte 1, the number of UTF-8 bytes of the identifier (high byte
/// first, modulo 2^16) and those bytes; then the payload length (high byte
/// first, modulo 2^16) and the payload.
pub proof fn law_message_layout(m: MessageView, v: MapperView)
    ensures
        ({
            let e = encode_message(m, v);
            let n: int = match lookup_string(v, m.identifier) {
                Some(id) => 6int,
                None => 6 + encode_utf8(m.identifier).len() as int,
            };
            &&& e.len() == n + 2 + m.payload.len()
            &&& e[0] == 0x53 && e[1] == 0x50 && e[2] == 0x50
            &&& match lookup_string(v, m.identifier) {
                Some(id) => e[3] == 2 && e[4] as int * 256 + e[5] as int == id as int,
                None => {
                    &&& e[3] == 1
                    &&& e[4] as int * 256 + e[5] as int == encode_utf8(m.identifier).len() % 65536
                    &&& e.subrange(6, n) == encode_utf8(m.identifier)
                },
            }
            &&& e[n] as int * 256 + e[n + 1] as int == m.payload.len() % 65536
            &&& e.subrange(n + 2, e.len() as int) == m.payload
        }),
{
    let e = encode_message(m, v);
    assert(MAGIC@ == seq![0x53u8, 0x50, 0x50]) by {
        assert(MAGIC@ =~= seq![0x53u8, 0x50, 0x50]);
    }
    let plen = (m.payload.len() % 65536) as u16;
    law_be16_bytes(plen);
    match lookup_string(v, m.identifier) {
        Some(id) => {
            law_be16_bytes(id);
            assert(e.subrange(8, e.len() as int) =~= m.payload);
        },
        None => {
            let u = encode_utf8(m.identifier);
            let l = (u.len() % 65536) as u16;
            law_be16_bytes(l);
            assert(e.subrange(6, 6 + u.len() as int) =~= u);
            assert(e.subrange(6 + u.len() as int + 2, e.len() as int) =~= m.payload);
        },
    }
}

/// A message whose first three bytes are not `S` `P` `P` is refused as
/// having the wrong magic.
pub proof fn law_message_magic(v: MapperView, s: Seq<u8>)
    requires
        s.len() < 3 || s[0] != 0x53 || s[1] != 0x50 || s[2] != 0x50,
    ensures
        decode_message(v, s).0 == Err::<MessageView, DeserializeError>(DeserializeError::Magic),
{
}

/// A spelled-out identifier of any characters is framed by its UTF-8 byte
/// length: the reader takes exactly the message's bytes, gets the payload
/// back, and gets the identifier's UTF-8 bytes back one character per byte.
pub proof fn law_message_framing(m: MessageView, v: MapperView, rest: Seq<u8>)
    requires
        lookup_string(v, m.identifier) is None,
        encode_utf8(m.identifier).len() < 65536,
        m.payload.len() < 65536,
    ensures
        decode_message(v, encode_message(m, v) + rest) == (
            Ok::<MessageView, DeserializeError>(
                MessageView { identifier: latin1(encode_utf8(m.identifier)), payload: m.payload },
            ),
            encode_message(m, v).len() as int,
        ),
{
    let e = encode_utf8(m.identifier);
    let head = seq![0x01u8] + be16((e.len() % 65536) as u16) + e;
    let tail = be16((m.payload.len() % 65536) as u16) + m.payload;
    let s = encode_message(m, v) + rest;
    assert(s =~= MAGIC@ + head + tail + rest);
    assert(magic_ok(s));
    let t = s.skip(4);
    let n = 6 + e.len() as int;
    assert((e.len() % 65536) as u16 == e.len());
    assert(t.take(2) =~= be16(e.len() as u16));
    lemma_be16_roundtrip(e.len() as u16, t);
    assert(t.skip(2).take(e.len() as int) =~= e);
    let w = s.skip(n);
    assert(w =~= tail + rest);
    assert((m.payload.len() % 65536) as u16 == m.payload.len());
    assert(w.take(2) =~= be16(m.payload.len() as u16));
    lemma_be16_roundtrip(m.payload.len() as u16, w);
    assert(w.skip(2).take(m.payload.len() as int) =~= m.payload);
}

/// A spelled-out identifier is read one character per byte, each
/// character the code point of its byte.
pub proof fn law_latin1(b: Seq<u8>)
    ensures
        latin1(b).len() == b.len(),
        forall|i: int| 0 <= i < b.len() ==> #[trigger] latin1(b)[i] as int == b[i] as int,
{
}

} // verus!
