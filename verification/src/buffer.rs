//! The growable byte buffer of the `bytes` crate, as the packet encoders use
//! it: its contents are named, and each method the encoders call is given a
//! contract over that name.

use bytes::BufMut;
use bytes::BytesMut;
use vstd::prelude::*;

verus! {

#[verifier::external_type_specification]
#[verifier::external_body]
pub struct ExBytesMut(BytesMut);

/// The bytes a `BytesMut` holds, in order.
pub uninterp spec fn bytes_mut_contents(b: BytesMut) -> Seq<u8>;

/// `BytesMut::with_capacity`: a new buffer holding no bytes (the capacity
/// only reserves room).
#[verifier::external_body]
pub(crate) fn bytes_mut_with_capacity(capacity: usize) -> (b: BytesMut)
    ensures
        bytes_mut_contents(b) == Seq::<u8>::empty(),
{
    BytesMut::with_capacity(capacity)
}

/// `BufMut::put_u8` on a `BytesMut`: appends one byte. The buffer panics
/// past `isize::MAX` bytes, which `requires` rules out.
#[verifier::external_body]
pub(crate) fn bytes_mut_put_u8(buf: &mut BytesMut, n: u8)
    requires
        bytes_mut_contents(*old(buf)).len() + 1 <= isize::MAX,
    ensures
        bytes_mut_contents(*final(buf)) == bytes_mut_contents(*old(buf)).push(n),
{
    buf.put_u8(n)
}

/// `BufMut::put_u16` on a `BytesMut`: appends the two bytes of `n` in
/// big-endian order.
#[verifier::external_body]
pub(crate) fn bytes_mut_put_u16(buf: &mut BytesMut, n: u16)
    requires
        bytes_mut_contents(*old(buf)).len() + 2 <= isize::MAX,
    ensures
        bytes_mut_contents(*final(buf)) == bytes_mut_contents(*old(buf)).push(
            (n >> 8u16) as u8,
        ).push(n as u8),
{
    buf.put_u16(n)
}

/// `BytesMut::extend_from_slice`: appends a copy of `extend`.
#[verifier::external_body]
pub(crate) fn bytes_mut_extend_from_slice(buf: &mut BytesMut, extend: &[u8])
    requires
        bytes_mut_contents(*old(buf)).len() + extend@.len() <= isize::MAX,
    ensures
        bytes_mut_contents(*final(buf)) == bytes_mut_contents(*old(buf)) + extend@,
{
    buf.extend_from_slice(extend)
}

/// `From<BytesMut> for Vec<u8>`: the same bytes, as a vector.
#[verifier::external_body]
pub(crate) fn bytes_mut_into_vec(b: BytesMut) -> (v: Vec<u8>)
    ensures
        v@ == bytes_mut_contents(b),
{
    Vec::from(b)
}

} // verus!
