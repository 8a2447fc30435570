//! Byte buffers of the `bytes` crate, as the rest of the library sees them.
//!
//! `Bytes` and `BytesMut` are opaque to the verifier; their contents are
//! named by `bytes_view` and `bytes_mut_view`, and each method the library
//! calls has a small trusted wrapper that says what it does to the contents.
use vstd::prelude::*;
use bytes::{Buf, BufMut, Bytes, BytesMut};

verus! {

#[verifier::external_type_specification]
#[verifier::external_body]
pub struct ExBytes(bytes::Bytes);

#[verifier::external_type_specification]
#[verifier::external_body]
pub struct ExBytesMut(bytes::BytesMut);

/// The bytes a `Bytes` value holds.
pub uninterp spec fn bytes_view(b: Bytes) -> Seq<u8>;

/// The bytes a `BytesMut` value holds.
pub uninterp spec fn bytes_mut_view(b: BytesMut) -> Seq<u8>;

/// Big-endian encoding of a 16-bit integer.
pub open spec fn be16(x: u16) -> Seq<u8> {
    seq![(x / 256) as u8, (x % 256) as u8]
}

/// Big-endian encoding of a 32-bit integer.
pub open spec fn be32(x: u32) -> Seq<u8> {
    seq![(x / 0x1000000) as u8, ((x / 0x10000) % 256) as u8, ((x / 256) % 256) as u8, (x % 256) as u8]
}

/// `BytesMut::new`: an empty buffer.
#[verifier::external_body]
pub(crate) fn bm_new() -> (res: BytesMut)
    ensures
        bytes_mut_view(res) == Seq::<u8>::empty(),
{
    BytesMut::new()
}

/// `BytesMut::with_capacity`: an empty buffer (the capacity is not part of the contents).
#[verifier::external_body]
pub(crate) fn bm_with_capacity(n: usize) -> (res: BytesMut)
    ensures
        bytes_mut_view(res) == Seq::<u8>::empty(),
{
    BytesMut::with_capacity(n)
}

/// `BytesMut::len`: the number of bytes held (no allocation holds more than
/// `isize::MAX` bytes).
#[verifier::external_body]
pub(crate) fn bm_len(b: &BytesMut) -> (res: usize)
    ensures
        res == bytes_mut_view(*b).len(),
        res <= isize::MAX,
{
    b.len()
}

/// `BytesMut` as a slice (through `Deref`): the bytes held, in order.
#[verifier::external_body]
pub(crate) fn bm_as_slice(b: &BytesMut) -> (res: &[u8])
    ensures
        res@ == bytes_mut_view(*b),
{
    b.as_ref()
}

/// `BufMut::put_u8` on `BytesMut`: appends one byte.
#[verifier::external_body]
pub(crate) fn bm_put_u8(b: &mut BytesMut, x: u8)
    requires
        bytes_mut_view(*old(b)).len() + 1 <= usize::MAX,
    ensures
        bytes_mut_view(*final(b)) == bytes_mut_view(*old(b)).push(x),
{
    b.put_u8(x)
}

/// `BufMut::put_u16` on `BytesMut`: appends two bytes, big-endian.
#[verifier::external_body]
pub(crate) fn bm_put_u16(b: &mut BytesMut, x: u16)
    requires
        bytes_mut_view(*old(b)).len() + 2 <= usize::MAX,
    ensures
        bytes_mut_view(*final(b)) == bytes_mut_view(*old(b)) + be16(x),
{
    b.put_u16(x)
}

/// `BufMut::put_u32` on `BytesMut`: appends four bytes, big-endian.
#[verifier::external_body]
pub(crate) fn bm_put_u32(b: &mut BytesMut, x: u32)
    requires
        bytes_mut_view(*old(b)).len() + 4 <= usize::MAX,
    ensures
        bytes_mut_view(*final(b)) == bytes_mut_view(*old(b)) + be32(x),
{
    b.put_u32(x)
}

/// `BytesMut::extend_from_slice`: appends the given bytes.
#[verifier::external_body]
pub(crate) fn bm_extend(b: &mut BytesMut, s: &[u8])
    requires
        bytes_mut_view(*old(b)).len() + s@.len() <= usize::MAX,
    ensures
        bytes_mut_view(*final(b)) == bytes_mut_view(*old(b)) + s@,
{
    b.extend_from_slice(s)
}

/// `Buf::advance` on `BytesMut`: drops the first `n` bytes (it panics past the end).
#[verifier::external_body]
pub(crate) fn bm_advance(b: &mut BytesMut, n: usize)
    requires
        n <= bytes_mut_view(*old(b)).len(),
    ensures
        bytes_mut_view(*final(b)) == bytes_mut_view(*old(b)).skip(n as int),
{
    b.advance(n)
}

/// `BytesMut::split_to`: hands out the first `n` bytes and keeps the rest (it panics past the end).
#[verifier::external_body]
pub(crate) fn bm_split_to(b: &mut BytesMut, n: usize) -> (res: BytesMut)
    requires
        n <= bytes_mut_view(*old(b)).len(),
    ensures
        bytes_mut_view(res) == bytes_mut_view(*old(b)).take(n as int),
        bytes_mut_view(*final(b)) == bytes_mut_view(*old(b)).skip(n as int),
{
    b.split_to(n)
}

/// `BytesMut::freeze`: the same bytes, as an immutable `Bytes`.
#[verifier::external_body]
pub(crate) fn bm_freeze(b: BytesMut) -> (res: Bytes)
    ensures
        bytes_view(res) == bytes_mut_view(b),
{
    b.freeze()
}

/// `BytesMut::clear`: removes all bytes.
#[verifier::external_body]
pub(crate) fn bm_clear(b: &mut BytesMut)
    ensures
        bytes_mut_view(*final(b)) == Seq::<u8>::empty(),
{
    b.clear()
}

/// `Bytes::new`: no bytes.
#[verifier::external_body]
pub(crate) fn b_new() -> (res: Bytes)
    ensures
        bytes_view(res) == Seq::<u8>::empty(),
{
    Bytes::new()
}

/// `Bytes::copy_from_slice`: a copy of the given bytes.
#[verifier::external_body]
pub(crate) fn b_copy_from_slice(s: &[u8]) -> (res: Bytes)
    ensures
        bytes_view(res) == s@,
{
    Bytes::copy_from_slice(s)
}

/// `Bytes` as a slice (through `AsRef`): the bytes held, in order.
#[verifier::external_body]
pub(crate) fn b_as_slice(b: &Bytes) -> (res: &[u8])
    ensures
        res@ == bytes_view(*b),
{
    b.as_ref()
}

/// `Bytes::slice(start..)`: the bytes from `start` on (it panics past the end).
#[verifier::external_body]
pub(crate) fn b_slice_from(b: &Bytes, start: usize) -> (res: Bytes)
    requires
        start <= bytes_view(*b).len(),
    ensures
        bytes_view(res) == bytes_view(*b).skip(start as int),
{
    b.slice(start..)
}

/// `Bytes::clone`: the same bytes.
pub assume_specification[ <bytes::Bytes as Clone>::clone ](b: &Bytes) -> (res: Bytes)
    ensures
        bytes_view(res) == bytes_view(*b),
;

} // verus!
