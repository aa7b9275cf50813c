//! The byte buffer that frames are read from and written to.
//!
//! The buffer is `bytes::BytesMut`. Nothing in this file is proved: each
//! function states what the method that it calls does, as the source of the
//! `bytes` crate shows it, over the bytes that the buffer holds.

use bytes::{Buf, BufMut, BytesMut};
use vstd::prelude::*;

verus! {

/// `bytes::BytesMut`, a growable buffer of bytes that can be consumed from
/// the front.
#[verifier::external_type_specification]
#[verifier::external_body]
pub struct ExBytesMut(bytes::BytesMut);

/// The bytes that a buffer holds, in their order.
pub uninterp spec fn buffered(buf: BytesMut) -> Seq<u8>;

/// `BytesMut::as_ref`: the bytes that the buffer holds, as a slice.
#[verifier::external_body]
pub(crate) fn buffer_bytes(buf: &BytesMut) -> (bytes: &[u8])
    ensures
        bytes@ == buffered(*buf),
{
    buf.as_ref()
}

/// `Buf::advance` of `BytesMut`: drops the first `cnt` bytes. It panics where
/// the buffer holds fewer.
#[verifier::external_body]
pub(crate) fn buffer_advance(buf: &mut BytesMut, cnt: usize)
    requires
        cnt <= buffered(*old(buf)).len(),
    ensures
        buffered(*final(buf)) == buffered(*old(buf)).skip(cnt as int),
{
    buf.advance(cnt)
}

/// `BytesMut::reserve`: makes room for `additional` more bytes and leaves the
/// bytes that the buffer holds as they are. It panics where the new capacity
/// overflows, which the bound on the length rules out: one allocation holds
/// at most `isize::MAX` bytes.
#[verifier::external_body]
pub(crate) fn buffer_reserve(buf: &mut BytesMut, additional: usize)
    requires
        buffered(*old(buf)).len() + additional <= isize::MAX,
    ensures
        buffered(*final(buf)) == buffered(*old(buf)),
{
    buf.reserve(additional)
}

/// `BytesMut::extend_from_slice`: appends `extend`. It reserves the room
/// first, and panics where `reserve` does.
#[verifier::external_body]
pub(crate) fn buffer_extend(buf: &mut BytesMut, extend: &[u8])
    requires
        buffered(*old(buf)).len() + extend@.len() <= isize::MAX,
    ensures
        buffered(*final(buf)) == buffered(*old(buf)) + extend@,
{
    buf.extend_from_slice(extend)
}

/// `BufMut::put_u8` of `BytesMut`: appends the byte `n`, as
/// `extend_from_slice` appends a slice of one byte.
#[verifier::external_body]
pub(crate) fn buffer_put_u8(buf: &mut BytesMut, n: u8)
    requires
        buffered(*old(buf)).len() + 1 <= isize::MAX,
    ensures
        buffered(*final(buf)) == buffered(*old(buf)).push(n),
{
    buf.put_u8(n)
}

} // verus!
