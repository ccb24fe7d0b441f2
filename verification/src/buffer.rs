//! Byte buffers of the `bytes` and `linkedbytes` crates, as the codecs see them.
//!
//! A buffer that grows may find no memory. That ends the program, as it does for every
//! collection of std, and no contract speaks of it.

use bytes::{Buf, BytesMut};
use linkedbytes::LinkedBytes;
use vstd::prelude::*;

verus! {

/// `bytes::BytesMut`, a growable run of bytes.
#[verifier::external_type_specification]
#[verifier::external_body]
pub struct ExBytesMut(BytesMut);

/// `linkedbytes::LinkedBytes`, a list of sealed chunks followed by one buffer
/// that is still open for writing.
#[verifier::external_type_specification]
#[verifier::external_body]
pub struct ExLinkedBytes(LinkedBytes);

/// The bytes that a `BytesMut` holds, from its read position to its end.
pub uninterp spec fn bytes_held(buf: BytesMut) -> Seq<u8>;

/// The bytes in the open buffer of a `LinkedBytes`.
pub uninterp spec fn open_bytes(buf: LinkedBytes) -> Seq<u8>;

/// The sealed chunks of a `LinkedBytes`, oldest first.
pub uninterp spec fn sealed_chunks(buf: LinkedBytes) -> Seq<Seq<u8>>;

/// `BytesMut::deref` lends exactly the bytes that the buffer holds.
#[verifier::external_body]
pub(crate) fn as_slice(buf: &BytesMut) -> (slice: &[u8])
    ensures
        slice@ == bytes_held(*buf),
{
    std::ops::Deref::deref(buf)
}

/// `<BytesMut as Buf>::advance` drops the first `count` bytes; it panics when the
/// buffer holds fewer.
#[verifier::external_body]
pub(crate) fn advance(buf: &mut BytesMut, count: usize)
    requires
        count <= bytes_held(*old(buf)).len(),
    ensures
        bytes_held(*final(buf)) == bytes_held(*old(buf)).skip(count as int),
{
    buf.advance(count)
}

/// `BytesMut::reserve` makes room for `additional` more bytes and leaves the
/// contents alone; it panics when no allocation can be that large.
pub assume_specification[ BytesMut::reserve ](buf: &mut BytesMut, additional: usize)
    requires
        bytes_held(*old(buf)).len() + additional <= isize::MAX,
    ensures
        bytes_held(*final(buf)) == bytes_held(*old(buf)),
;

/// `LinkedBytes::reserve` reserves in the open buffer, under the condition of
/// `BytesMut::reserve`, and changes no byte of the list.
pub assume_specification[ LinkedBytes::reserve ](buf: &mut LinkedBytes, additional: usize)
    requires
        open_bytes(*old(buf)).len() + additional <= isize::MAX,
    ensures
        open_bytes(*final(buf)) == open_bytes(*old(buf)),
        sealed_chunks(*final(buf)) == sealed_chunks(*old(buf)),
;

/// `LinkedBytes::bytes` lends the open buffer.
pub assume_specification[ LinkedBytes::bytes ](buf: &LinkedBytes) -> (open: &BytesMut)
    ensures
        bytes_held(*open) == open_bytes(*buf),
;

/// `LinkedBytes::bytes_mut` lends the open buffer for writing; what is done to it
/// is done to the list's open buffer and to nothing else.
pub assume_specification[ LinkedBytes::bytes_mut ](buf: &mut LinkedBytes) -> (open: &mut BytesMut)
    ensures
        bytes_held(*open) == open_bytes(*old(buf)),
        open_bytes(*final(buf)) == bytes_held(*final(open)),
        sealed_chunks(*final(buf)) == sealed_chunks(*old(buf)),
;

} // verus!
