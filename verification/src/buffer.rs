//! The byte buffer the codec reads frames from and writes frames to:
//! `bytes::BytesMut`, seen through the bytes it holds.

use bytes::{Buf, BytesMut};
use vstd::prelude::*;

verus! {

#[verifier::external_type_specification]
#[verifier::external_body]
pub struct ExBytesMut(bytes::BytesMut);

/// The bytes a buffer holds, first to last.
pub uninterp spec fn buffer_bytes(b: BytesMut) -> Seq<u8>;

/// `<BytesMut as Deref>::deref`: the slice of the bytes the buffer holds.
#[verifier::external_body]
pub(crate) fn buffer_slice(b: &BytesMut) -> (r: &[u8])
    ensures
        r@ == buffer_bytes(*b),
{
    &b[..]
}

/// `<BytesMut as Buf>::advance`: drops the first `n` bytes.  The method
/// asserts that `n` is at most the number of bytes held.
#[verifier::external_body]
pub(crate) fn buffer_advance(b: &mut BytesMut, n: usize)
    requires
        n <= buffer_bytes(*old(b)).len(),
    ensures
        buffer_bytes(*final(b)) == buffer_bytes(*old(b)).skip(n as int),
{
    b.advance(n)
}

/// `BytesMut::reserve`: makes room for `additional` more bytes and keeps the
/// bytes held.  It panics when the held length plus `additional` overflows;
/// the bound below excludes that.  Left unsaid: whether the allocator can
/// serve the request, and the capacity overflow that the buffer's unseen
/// offset and capacity doubling could still cause inside `Vec::reserve`.
#[verifier::external_body]
pub(crate) fn buffer_reserve(b: &mut BytesMut, additional: usize)
    requires
        buffer_bytes(*old(b)).len() + additional <= isize::MAX,
    ensures
        buffer_bytes(*final(b)) == buffer_bytes(*old(b)),
{
    b.reserve(additional)
}

/// `BytesMut::extend_from_slice`: appends the bytes of `data`.  It reserves
/// room first, with the same overflow check as `reserve`.
#[verifier::external_body]
pub(crate) fn buffer_extend(b: &mut BytesMut, data: &[u8])
    requires
        buffer_bytes(*old(b)).len() + data@.len() <= isize::MAX,
    ensures
        buffer_bytes(*final(b)) == buffer_bytes(*old(b)) + data@,
{
    b.extend_from_slice(data)
}

} // verus!
