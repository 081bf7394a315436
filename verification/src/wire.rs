//! Big-endian integers as byte sequences.

use vstd::prelude::*;

verus! {

/// The two bytes of `v`, most significant first.
pub open spec fn be16(v: u16) -> Seq<u8> {
    seq![(v >> 8u16) as u8, v as u8]
}

/// The eight bytes of `v`, most significant first.
pub open spec fn be64(v: u64) -> Seq<u8> {
    seq![
        (v >> 56u64) as u8, (v >> 48u64) as u8, (v >> 40u64) as u8, (v >> 32u64) as u8,
        (v >> 24u64) as u8, (v >> 16u64) as u8, (v >> 8u64) as u8, v as u8,
    ]
}

/// The `u16` whose big-endian bytes open `s`.
pub open spec fn read_be16(s: Seq<u8>) -> u16
    recommends
        s.len() >= 2,
{
    ((s[0] as u16) << 8u16) | (s[1] as u16)
}

/// The `u64` whose big-endian bytes open `s`.
pub open spec fn read_be64(s: Seq<u8>) -> u64
    recommends
        s.len() >= 8,
{
    ((s[0] as u64) << 56u64) | ((s[1] as u64) << 48u64) | ((s[2] as u64) << 40u64) | ((
    s[3] as u64) << 32u64) | ((s[4] as u64) << 24u64) | ((s[5] as u64) << 16u64) | ((
    s[6] as u64) << 8u64) | (s[7] as u64)
}

/// Reading back the bytes of a `u16` gives the `u16`.
pub proof fn lemma_be16_roundtrip(v: u16, s: Seq<u8>)
    requires
        s.len() >= 2,
        s.take(2) == be16(v),
    ensures
        read_be16(s) == v,
{
    let a = (v >> 8u16) as u8;
    let b = v as u8;
    assert(s[0] == s.take(2)[0] && s[1] == s.take(2)[1]);
    assert(((a as u16) << 8u16) | (b as u16) == v) by (bit_vector)
        requires
            a == (v >> 8u16) as u8,
            b == v as u8,
    ;
}

/// Reading back the bytes of a `u64` gives the `u64`.
pub proof fn lemma_be64_roundtrip(v: u64, s: Seq<u8>)
    requires
        s.len() >= 8,
        s.take(8) == be64(v),
    ensures
        read_be64(s) == v,
{
    let b0 = (v >> 56u64) as u8;
    let b1 = (v >> 48u64) as u8;
    let b2 = (v >> 40u64) as u8;
    let b3 = (v >> 32u64) as u8;
    let b4 = (v >> 24u64) as u8;
    let b5 = (v >> 16u64) as u8;
    let b6 = (v >> 8u64) as u8;
    let b7 = v as u8;
    let t = s.take(8);
    assert(s[0] == t[0] && s[1] == t[1] && s[2] == t[2] && s[3] == t[3]);
    assert(s[4] == t[4] && s[5] == t[5] && s[6] == t[6] && s[7] == t[7]);
    assert(((b0 as u64) << 56u64) | ((b1 as u64) << 48u64) | ((b2 as u64) << 40u64) | ((
    b3 as u64) << 32u64) | ((b4 as u64) << 24u64) | ((b5 as u64) << 16u64) | ((b6 as u64)
        << 8u64) | (b7 as u64) == v) by (bit_vector)
        requires
            b0 == (v >> 56u64) as u8,
            b1 == (v >> 48u64) as u8,
            b2 == (v >> 40u64) as u8,
            b3 == (v >> 32u64) as u8,
            b4 == (v >> 24u64) as u8,
            b5 == (v >> 16u64) as u8,
            b6 == (v >> 8u64) as u8,
            b7 == v as u8,
    ;
}

/// The bytes of an `i16`, read back as a `u16` and cast, give the `i16`.
pub proof fn lemma_i16_cast_roundtrip(v: i16)
    ensures
        (v as u16) as i16 == v,
{
    assert((v as u16) as i16 == v) by (bit_vector);
}

/// A `u16` goes on the wire as its high byte then its low byte.
pub proof fn law_be16_bytes(v: u16)
    ensures
        be16(v).len() == 2,
        be16(v)[0] as int == v as int / 256,
        be16(v)[1] as int == v as int % 256,
{
    assert((v >> 8u16) as u8 as int == v as int / 256) by (bit_vector);
    assert(v as u8 as int == v as int % 256) by (bit_vector);
}

/// Two bytes read as a `u16`: the first is the high byte.
pub proof fn law_read_be16_value(s: Seq<u8>)
    requires
        s.len() >= 2,
    ensures
        read_be16(s) as int == s[0] as int * 256 + s[1] as int,
{
    let a = s[0];
    let b = s[1];
    assert((((a as u16) << 8u16) | (b as u16)) as int == a as int * 256 + b as int) by (bit_vector);
}

/// A `u64` goes on the wire most significant byte first: byte `i` is the
/// value divided by 256 to the power `7 - i`, modulo 256.
pub proof fn law_be64_bytes(v: u64)
    ensures
        be64(v).len() == 8,
        be64(v)[0] as int == (v as int / 0x100000000000000) % 256,
        be64(v)[1] as int == (v as int / 0x1000000000000) % 256,
        be64(v)[2] as int == (v as int / 0x10000000000) % 256,
        be64(v)[3] as int == (v as int / 0x100000000) % 256,
        be64(v)[4] as int == (v as int / 0x1000000) % 256,
        be64(v)[5] as int == (v as int / 0x10000) % 256,
        be64(v)[6] as int == (v as int / 0x100) % 256,
        be64(v)[7] as int == v as int % 256,
{
    assert((v >> 56u64) as u8 as int == (v as int / 0x100000000000000) % 256) by (bit_vector);
    assert((v >> 48u64) as u8 as int == (v as int / 0x1000000000000) % 256) by (bit_vector);
    assert((v >> 40u64) as u8 as int == (v as int / 0x10000000000) % 256) by (bit_vector);
    assert((v >> 32u64) as u8 as int == (v as int / 0x100000000) % 256) by (bit_vector);
    assert((v >> 24u64) as u8 as int == (v as int / 0x1000000) % 256) by (bit_vector);
    assert((v >> 16u64) as u8 as int == (v as int / 0x10000) % 256) by (bit_vector);
    assert((v >> 8u64) as u8 as int == (v as int / 0x100) % 256) by (bit_vector);
    assert(v as u8 as int == v as int % 256) by (bit_vector);
}

/// Eight bytes read as a `u64`: the first is the most significant.
pub proof fn law_read_be64_value(s: Seq<u8>)
    requires
        s.len() >= 8,
    ensures
        read_be64(s) as int == s[0] as int * 0x100000000000000 + s[1] as int * 0x1000000000000
            + s[2] as int * 0x10000000000 + s[3] as int * 0x100000000 + s[4] as int * 0x1000000
            + s[5] as int * 0x10000 + s[6] as int * 0x100 + s[7] as int,
{
    let (b0, b1, b2, b3, b4, b5, b6, b7) = (s[0], s[1], s[2], s[3], s[4], s[5], s[6], s[7]);
    assert((((b0 as u64) << 56u64) | ((b1 as u64) << 48u64) | ((b2 as u64) << 40u64) | ((
    b3 as u64) << 32u64) | ((b4 as u64) << 24u64) | ((b5 as u64) << 16u64) | ((b6 as u64)
        << 8u64) | (b7 as u64)) as int == b0 as int * 0x100000000000000 + b1 as int
        * 0x1000000000000 + b2 as int * 0x10000000000 + b3 as int * 0x100000000 + b4 as int
        * 0x1000000 + b5 as int * 0x10000 + b6 as int * 0x100 + b7 as int) by (bit_vector);
}

} // verus!
