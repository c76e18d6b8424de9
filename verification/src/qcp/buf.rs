//! Byte buffers of the `bytes` crate, as used by the packet encoder.

use bytes::{BufMut, Bytes, BytesMut};
use vstd::prelude::*;

verus! {

#[verifier::external_type_specification]
#[verifier::external_body]
pub struct ExBytesMut(BytesMut);

#[verifier::external_type_specification]
#[verifier::external_body]
pub struct ExBytes(Bytes);

/// What a `BytesMut` holds.
pub uninterp spec fn bytes_mut_contents(b: BytesMut) -> Seq<u8>;

/// What a `Bytes` holds.
pub uninterp spec fn bytes_contents(b: Bytes) -> Seq<u8>;

/// Big-endian bytes of a 16-bit integer.
pub open spec fn be16(n: u16) -> Seq<u8> {
    seq![(n >> 8u16) as u8, (n & 0xffu16) as u8]
}

/// Big-endian bytes of a 32-bit integer.
pub open spec fn be32(n: u32) -> Seq<u8> {
    seq![
        (n >> 24u32) as u8,
        ((n >> 16u32) & 0xffu32) as u8,
        ((n >> 8u32) & 0xffu32) as u8,
        (n & 0xffu32) as u8,
    ]
}

/// `BytesMut::with_capacity`: an empty buffer with room for `n` bytes.
#[verifier::external_body]
pub(crate) fn buf_with_capacity(n: usize) -> (b: BytesMut)
    ensures
        bytes_mut_contents(b) == Seq::<u8>::empty(),
{
    BytesMut::with_capacity(n)
}

/// `BytesMut::extend_from_slice`: appends `s`.
#[verifier::external_body]
pub(crate) fn buf_extend(b: &mut BytesMut, s: &[u8])
    requires
        bytes_mut_contents(*old(b)).len() + s@.len() <= isize::MAX,
    ensures
        bytes_mut_contents(*final(b)) == bytes_mut_contents(*old(b)) + s@,
{
    b.extend_from_slice(s)
}

/// `BufMut::put_u8` on a `BytesMut`: appends one byte.
#[verifier::external_body]
pub(crate) fn buf_put_u8(b: &mut BytesMut, n: u8)
    requires
        bytes_mut_contents(*old(b)).len() + 1 <= isize::MAX,
    ensures
        bytes_mut_contents(*final(b)) == bytes_mut_contents(*old(b)).push(n),
{
    b.put_u8(n)
}

/// `BufMut::put_u16` on a `BytesMut`: appends `n` in big-endian order.
#[verifier::external_body]
pub(crate) fn buf_put_u16(b: &mut BytesMut, n: u16)
    requires
        bytes_mut_contents(*old(b)).len() + 2 <= isize::MAX,
    ensures
        bytes_mut_contents(*final(b)) == bytes_mut_contents(*old(b)) + be16(n),
{
    b.put_u16(n)
}

/// `BufMut::put_u32` on a `BytesMut`: appends `n` in big-endian order.
#[verifier::external_body]
pub(crate) fn buf_put_u32(b: &mut BytesMut, n: u32)
    requires
        bytes_mut_contents(*old(b)).len() + 4 <= isize::MAX,
    ensures
        bytes_mut_contents(*final(b)) == bytes_mut_contents(*old(b)) + be32(n),
{
    b.put_u32(n)
}

/// `Bytes::copy_from_slice`: an owned copy of `s`.
#[verifier::external_body]
pub(crate) fn bytes_copy(s: &[u8]) -> (b: Bytes)
    ensures
        bytes_contents(b) == s@,
{
    Bytes::copy_from_slice(s)
}

/// `Bytes::new`: no bytes.
#[verifier::external_body]
pub(crate) fn bytes_empty() -> (b: Bytes)
    ensures
        bytes_contents(b) == Seq::<u8>::empty(),
{
    Bytes::new()
}

/// The bytes of a `Bytes`, borrowed (`Deref<Target = [u8]>`).
#[verifier::external_body]
pub(crate) fn bytes_slice(b: &Bytes) -> (s: &[u8])
    ensures
        s@ == bytes_contents(*b),
{
    b
}

} // verus!
