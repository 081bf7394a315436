//! Byte buffers of the `bytes` crate, as the rest of the library sees them.
//!
//! A `BytesMut` is a growable byte buffer, a `Bytes` a frozen one, and a
//! `std::io::Cursor<Bytes>` a read position over a frozen buffer. Each is an
//! outside type, opaque to Verus: its contents are named here, and each
//! method that the library calls has a wrapper whose contract states what
//! the method does to those contents.

use vstd::prelude::*;
use crate::wire::{be16, be64, read_be16, read_be64};
use bytes::{Buf, BufMut, Bytes, BytesMut, IntoBuf};
use std::io::Cursor;

verus! {

#[verifier::external_type_specification]
#[verifier::external_body]
pub struct ExBytesMut(BytesMut);

#[verifier::external_type_specification]
#[verifier::external_body]
pub struct ExBytes(Bytes);

#[verifier::external_type_specification]
#[verifier::external_body]
#[verifier::reject_recursive_types(T)]
pub struct ExCursor<T>(Cursor<T>);

/// The bytes written so far into a `BytesMut`.
pub uninterp spec fn written(b: BytesMut) -> Seq<u8>;

/// How many more bytes a `BytesMut` can take before a `put_*` call panics
/// (`BufMut::remaining_mut`, its capacity less its length).
pub uninterp spec fn room(b: BytesMut) -> nat;

/// The bytes held by a `Bytes`.
pub uninterp spec fn frozen(b: Bytes) -> Seq<u8>;

/// The bytes of a cursor over a `Bytes` that are not yet read.
pub uninterp spec fn unread(c: Cursor<Bytes>) -> Seq<u8>;

/// `BytesMut::new`: an empty buffer whose capacity the crate leaves
/// unspecified, so nothing is stated of its room.
#[verifier::external_body]
pub(crate) fn bytes_mut_new() -> (b: BytesMut)
    ensures
        written(b) == Seq::<u8>::empty(),
{
    BytesMut::new()
}

/// A new empty buffer, for the writers of this library to fill.
pub fn new_buffer() -> (b: BytesMut)
    ensures
        written(b) == Seq::<u8>::empty(),
{
    bytes_mut_new()
}

/// `BufMut::put_u8` on a `BytesMut`: appends one byte; panics without room.
#[verifier::external_body]
pub(crate) fn put_u8(b: &mut BytesMut, v: u8)
    requires
        room(*old(b)) >= 1,
    ensures
        written(*final(b)) == written(*old(b)).push(v),
        room(*final(b)) == room(*old(b)) - 1,
{
    b.put_u8(v)
}

/// `BytesMut::reserve`: makes room for `additional` more bytes without
/// touching what is written; panics when the new capacity overflows `usize`.
#[verifier::external_body]
pub(crate) fn reserve(b: &mut BytesMut, additional: usize)
    requires
        written(*old(b)).len() + additional <= usize::MAX,
    ensures
        written(*final(b)) == written(*old(b)),
        room(*final(b)) >= additional,
{
    b.reserve(additional)
}

/// `BufMut::put_u16_be` on a `BytesMut`: appends two big-endian bytes;
/// panics without room.
#[verifier::external_body]
pub(crate) fn put_u16_be(b: &mut BytesMut, v: u16)
    requires
        room(*old(b)) >= 2,
    ensures
        written(*final(b)) == written(*old(b)) + be16(v),
        room(*final(b)) == room(*old(b)) - 2,
{
    b.put_u16_be(v)
}

/// `BufMut::put_i16_be` on a `BytesMut`: appends the two big-endian bytes of
/// the value's two's-complement form; panics without room.
#[verifier::external_body]
pub(crate) fn put_i16_be(b: &mut BytesMut, v: i16)
    requires
        room(*old(b)) >= 2,
    ensures
        written(*final(b)) == written(*old(b)) + be16(v as u16),
        room(*final(b)) == room(*old(b)) - 2,
{
    b.put_i16_be(v)
}

/// `BufMut::put_u64_be` on a `BytesMut`: appends eight big-endian bytes;
/// panics without room.
#[verifier::external_body]
pub(crate) fn put_u64_be(b: &mut BytesMut, v: u64)
    requires
        room(*old(b)) >= 8,
    ensures
        written(*final(b)) == written(*old(b)) + be64(v),
        room(*final(b)) == room(*old(b)) - 8,
{
    b.put_u64_be(v)
}

/// `BufMut::put_slice` on a `BytesMut`: appends the slice; panics without
/// room for all of it.
#[verifier::external_body]
pub(crate) fn put_slice(b: &mut BytesMut, src: &[u8])
    requires
        room(*old(b)) >= src@.len(),
    ensures
        written(*final(b)) == written(*old(b)) + src@,
        room(*final(b)) == room(*old(b)) - src@.len(),
{
    b.put_slice(src)
}

/// `BytesMut::extend_from_slice`: reserves room and appends the slice; it
/// panics only where that reservation overflows `usize`.
#[verifier::external_body]
pub(crate) fn extend_from_slice(b: &mut BytesMut, src: &[u8])
    requires
        written(*old(b)).len() + src@.len() <= usize::MAX,
    ensures
        written(*final(b)) == written(*old(b)) + src@,
{
    b.extend_from_slice(src)
}

/// `BytesMut::freeze`: the same bytes, frozen.
#[verifier::external_body]
pub(crate) fn freeze(b: BytesMut) -> (r: Bytes)
    ensures
        frozen(r) == written(b),
{
    b.freeze()
}

/// `AsRef<[u8]>::as_ref` on `Bytes`: the bytes it holds, as a slice.
#[verifier::external_body]
pub(crate) fn frozen_slice(b: &Bytes) -> (s: &[u8])
    ensures
        s@ == frozen(*b),
{
    b.as_ref()
}

/// `IntoBuf::into_buf` on `Bytes`: a cursor at the start of the bytes.
#[verifier::external_body]
pub(crate) fn into_buf(b: Bytes) -> (c: Cursor<Bytes>)
    ensures
        unread(c) == frozen(b),
{
    b.into_buf()
}

/// `Buf::remaining` on a cursor: the number of unread bytes.
#[verifier::external_body]
pub(crate) fn remaining(c: &Cursor<Bytes>) -> (n: usize)
    ensures
        n == unread(*c).len(),
{
    c.remaining()
}

/// `Buf::bytes` on a cursor: the unread bytes, without reading them.
#[verifier::external_body]
pub(crate) fn unread_slice(c: &Cursor<Bytes>) -> (s: &[u8])
    ensures
        s@ == unread(*c),
{
    c.bytes()
}

/// `Buf::get_u8` on a cursor: reads one byte; panics when none is left.
#[verifier::external_body]
pub(crate) fn get_u8(c: &mut Cursor<Bytes>) -> (v: u8)
    requires
        unread(*old(c)).len() >= 1,
    ensures
        v == unread(*old(c))[0],
        unread(*final(c)) == unread(*old(c)).skip(1),
{
    c.get_u8()
}

/// `Buf::get_u16_be` on a cursor: reads a big-endian `u16`; panics when
/// fewer than two bytes are left.
#[verifier::external_body]
pub(crate) fn get_u16_be(c: &mut Cursor<Bytes>) -> (v: u16)
    requires
        unread(*old(c)).len() >= 2,
    ensures
        v == read_be16(unread(*old(c))),
        unread(*final(c)) == unread(*old(c)).skip(2),
{
    c.get_u16_be()
}

/// `Buf::get_i16_be` on a cursor: reads a big-endian two's-complement
/// `i16`; panics when fewer than two bytes are left.
#[verifier::external_body]
pub(crate) fn get_i16_be(c: &mut Cursor<Bytes>) -> (v: i16)
    requires
        unread(*old(c)).len() >= 2,
    ensures
        v == read_be16(unread(*old(c))) as i16,
        unread(*final(c)) == unread(*old(c)).skip(2),
{
    c.get_i16_be()
}

/// `Buf::get_u64_be` on a cursor: reads a big-endian `u64`; panics when
/// fewer than eight bytes are left.
#[verifier::external_body]
pub(crate) fn get_u64_be(c: &mut Cursor<Bytes>) -> (v: u64)
    requires
        unread(*old(c)).len() >= 8,
    ensures
        v == read_be64(unread(*old(c))),
        unread(*final(c)) == unread(*old(c)).skip(8),
{
    c.get_u64_be()
}

} // verus!
