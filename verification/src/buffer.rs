//! The byte buffer that the codec reads from and writes to.
//!
//! The buffer is a [`bytes::BytesMut`]. Nothing in this file is proved: the
//! type is taken as it is, its content has a name, [`buffered`], and each of
//! its operations that the codec uses stands behind a function whose contract
//! says, in terms of that name, what the operation is documented to do.

use bytes::Buf;
use bytes::BufMut;
use bytes::BytesMut;
use vstd::prelude::*;

verus! {

/// `bytes::BytesMut`, of which nothing but [`buffered`] is known here.
#[verifier::external_type_specification]
#[verifier::external_body]
pub struct ExBytesMut(BytesMut);

/// The bytes that a buffer holds, first to last: what `BytesMut` gives out
/// as a slice.
pub uninterp spec fn buffered(buf: BytesMut) -> Seq<u8>;

/// `BytesMut`'s `Deref` to a slice: the whole content of the buffer, in
/// order.
#[verifier::external_body]
pub(crate) fn as_slice(buf: &BytesMut) -> (bytes: &[u8])
    ensures
        bytes@ == buffered(*buf),
{
    &buf[..]
}

/// `Buf::advance` on a `BytesMut`: drops the first `cnt` bytes and keeps
/// the rest as they are. The call panics when `cnt` is more than the number
/// of bytes in the buffer.
#[verifier::external_body]
pub(crate) fn advance(buf: &mut BytesMut, cnt: usize)
    requires
        cnt <= buffered(*old(buf)).len(),
    ensures
        buffered(*final(buf)) == buffered(*old(buf)).skip(cnt as int),
{
    buf.advance(cnt)
}

/// `BytesMut::split_to`: returns the first `at` bytes as a buffer of their
/// own and keeps the rest. The call panics when `at` is more than the
/// number of bytes in the buffer.
#[verifier::external_body]
pub(crate) fn split_to(buf: &mut BytesMut, at: usize) -> (head: BytesMut)
    requires
        at <= buffered(*old(buf)).len(),
    ensures
        buffered(head) == buffered(*old(buf)).take(at as int),
        buffered(*final(buf)) == buffered(*old(buf)).skip(at as int),
{
    buf.split_to(at)
}

/// `BytesMut::reserve`: makes room for `additional` more bytes and leaves
/// the content as it is. The call panics when the room asked for cannot be
/// counted or allocated; `requires` keeps the content and the room asked
/// for within `isize::MAX` bytes, the most that one allocation holds.
#[verifier::external_body]
pub(crate) fn reserve(buf: &mut BytesMut, additional: usize)
    requires
        buffered(*old(buf)).len() + additional <= isize::MAX,
    ensures
        buffered(*final(buf)) == buffered(*old(buf)),
{
    buf.reserve(additional)
}

/// `BufMut::put` on a `BytesMut`, from a slice: puts the bytes of `src`
/// behind the content, and makes room for them first. The call panics when
/// the buffer has no room left for `src`, which it counts from `isize::MAX`;
/// `requires` keeps the content and `src` together within that.
#[verifier::external_body]
pub(crate) fn put(buf: &mut BytesMut, src: &[u8])
    requires
        buffered(*old(buf)).len() + src@.len() <= isize::MAX,
    ensures
        buffered(*final(buf)) == buffered(*old(buf)) + src@,
{
    buf.put(src)
}

} // verus!
