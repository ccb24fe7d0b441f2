//! The compressors and decompressors of the `flate2` and `zstd` crates.

use bytes::{BufMut, BytesMut};
use flate2::bufread::{GzDecoder, GzEncoder, ZlibDecoder, ZlibEncoder};
use flate2::Compression;
use linkedbytes::LinkedBytes;
use vstd::prelude::*;

use crate::buffer;

verus! {

/// `std::io::Error`, with which the compressors and decompressors fail.
#[verifier::external_type_specification]
#[verifier::external_body]
pub struct ExIoError(std::io::Error);

/// What copying `data` through a `flate2::bufread::GzEncoder` at a level comes to:
/// first the gzip member that the encoder makes, or `None` where it fails; then the
/// errors that the copy may end with, on whatever machine and into whatever buffer.
pub uninterp spec fn gzip_encoded(data: Seq<u8>, level: u32) -> (
    Option<Seq<u8>>,
    Set<std::io::Error>,
);

/// What copying `data` through a `flate2::bufread::GzDecoder` comes to: first the
/// contents of the gzip member in front, or `None` where the decoder fails; then the
/// errors that the copy may end with, on whatever machine and into whatever buffer.
pub uninterp spec fn gzip_decoded(data: Seq<u8>) -> (Option<Seq<u8>>, Set<std::io::Error>);

/// What copying `data` through a `flate2::bufread::ZlibEncoder` at a level comes to:
/// first the zlib stream that the encoder makes, or `None` where it fails; then the
/// errors that the copy may end with, on whatever machine and into whatever buffer.
pub uninterp spec fn zlib_encoded(data: Seq<u8>, level: u32) -> (
    Option<Seq<u8>>,
    Set<std::io::Error>,
);

/// What copying `data` through a `flate2::bufread::ZlibDecoder` comes to: first the
/// contents of the zlib stream in front, or `None` where the decoder fails; then the
/// errors that the copy may end with, on whatever machine and into whatever buffer.
pub uninterp spec fn zlib_decoded(data: Seq<u8>) -> (Option<Seq<u8>>, Set<std::io::Error>);

/// What feeding `data` to a `zstd::Encoder` at a level comes to: first the frames that
/// it may make; then the errors that it may end with, on whatever machine and into
/// whatever buffer. Where there are none, the encoder always gets what it needs.
pub uninterp spec fn zstd_frames(data: Seq<u8>, level: i32) -> (
    Set<Seq<u8>>,
    Set<std::io::Error>,
);

/// What copying `data` through a `zstd::Decoder` comes to: first the contents of the zstd
/// frames that `data` is made of, or `None` where `data` is not a series of whole frames
/// that the decoder accepts; then the errors that the copy may end with, on whatever
/// machine and into whatever buffer. Where there are none, the decoder always gets what
/// it needs.
pub uninterp spec fn zstd_decoded(data: Seq<u8>) -> (Option<Seq<u8>>, Set<std::io::Error>);

/// The largest number of bytes that a buffer can hold.
pub open spec fn max_held() -> int {
    isize::MAX as int
}

/// The bytes by which `after` is longer than `before`.
pub open spec fn added(before: Seq<u8>, after: Seq<u8>) -> Seq<u8> {
    after.skip(before.len() as int)
}

/// `std::io::copy` from a `GzEncoder` over `src` into the writer of `dest`. It
/// succeeds when the encoder does and the member fits, and then appends the member,
/// which `GzDecoder` turns back into `src`. When it fails, its error is one that this
/// copy may end with, and it may have appended part of a member; how much is not stated.
/// A level above ten fails an assertion of the encoder.
#[verifier::external_body]
pub(crate) fn gzip_encode(src: &[u8], level: u32, dest: &mut LinkedBytes) -> (r: Result<
    (),
    std::io::Error,
>)
    requires
        level <= 10,
    ensures
        buffer::sealed_chunks(*final(dest)) == buffer::sealed_chunks(*old(dest)),
        buffer::open_bytes(*old(dest)).is_prefix_of(buffer::open_bytes(*final(dest))),
        r is Ok <==> (gzip_encoded(src@, level).0 matches Some(member) && buffer::open_bytes(
            *old(dest),
        ).len() + member.len() <= max_held()),
        r is Ok ==> gzip_encoded(src@, level).0 == Some(
            added(buffer::open_bytes(*old(dest)), buffer::open_bytes(*final(dest))),
        ),
        r matches Err(cause) ==> gzip_encoded(src@, level).1.contains(cause),
        r is Ok ==> gzip_decoded(
            added(buffer::open_bytes(*old(dest)), buffer::open_bytes(*final(dest))),
        ).0 == Some(src@),
{
    std::io::copy(&mut GzEncoder::new(src, Compression::new(level)), &mut dest.writer())?;
    Ok(())
}

/// `std::io::copy` from a `ZlibEncoder` over `src` into the writer of `dest`. It
/// succeeds when the encoder does and the stream fits, and then appends the stream,
/// which `ZlibDecoder` turns back into `src`. When it fails, its error is one that this
/// copy may end with, and it may have appended part of a stream; how much is not stated.
/// A level above ten fails an assertion of the encoder.
#[verifier::external_body]
pub(crate) fn zlib_encode(src: &[u8], level: u32, dest: &mut LinkedBytes) -> (r: Result<
    (),
    std::io::Error,
>)
    requires
        level <= 10,
    ensures
        buffer::sealed_chunks(*final(dest)) == buffer::sealed_chunks(*old(dest)),
        buffer::open_bytes(*old(dest)).is_prefix_of(buffer::open_bytes(*final(dest))),
        r is Ok <==> (zlib_encoded(src@, level).0 matches Some(stream) && buffer::open_bytes(
            *old(dest),
        ).len() + stream.len() <= max_held()),
        r is Ok ==> zlib_encoded(src@, level).0 == Some(
            added(buffer::open_bytes(*old(dest)), buffer::open_bytes(*final(dest))),
        ),
        r matches Err(cause) ==> zlib_encoded(src@, level).1.contains(cause),
        r is Ok ==> zlib_decoded(
            added(buffer::open_bytes(*old(dest)), buffer::open_bytes(*final(dest))),
        ).0 == Some(src@),
{
    std::io::copy(&mut ZlibEncoder::new(src, Compression::new(level)), &mut dest.writer())?;
    Ok(())
}

/// A `zstd::Encoder` over the writer of `dest`, fed with `src` by `std::io::copy` and
/// finished. When it succeeds it has appended a frame made of `src` at the level,
/// which `zstd::Decoder` turns back into `src`. When it fails, its error is one that the
/// encoder may end with on `src` at the level, and it may have appended part of a frame;
/// how much is not stated. Which errors there are is not stated either: the encoder fails
/// where it gets no memory for its tables.
#[verifier::external_body]
pub(crate) fn zstd_encode(src: &[u8], level: i32, dest: &mut LinkedBytes) -> (r: Result<
    (),
    std::io::Error,
>)
    ensures
        buffer::sealed_chunks(*final(dest)) == buffer::sealed_chunks(*old(dest)),
        buffer::open_bytes(*old(dest)).is_prefix_of(buffer::open_bytes(*final(dest))),
        r is Ok ==> zstd_frames(src@, level).0.contains(
            added(buffer::open_bytes(*old(dest)), buffer::open_bytes(*final(dest))),
        ),
        r matches Err(cause) ==> zstd_frames(src@, level).1.contains(cause),
        r is Ok ==> zstd_decoded(
            added(buffer::open_bytes(*old(dest)), buffer::open_bytes(*final(dest))),
        ).0 == Some(src@),
{
    let mut encoder = zstd::Encoder::new(dest.writer(), level)?;
    let mut reader = src;
    std::io::copy(&mut reader, &mut encoder)?;
    encoder.finish()?;
    Ok(())
}

/// `std::io::copy` from a `GzDecoder` over `src` into the writer of `dest`. It
/// succeeds when the decoder does and the contents fit, and then appends them. When
/// it fails, its error is one that this copy may end with, and it may have appended part
/// of the contents; how much is not stated.
#[verifier::external_body]
pub(crate) fn gzip_decode(src: &[u8], dest: &mut BytesMut) -> (r: Result<u64, std::io::Error>)
    ensures
        buffer::bytes_held(*old(dest)).is_prefix_of(buffer::bytes_held(*final(dest))),
        r is Ok <==> (gzip_decoded(src@).0 matches Some(data) && buffer::bytes_held(*old(dest)).len()
            + data.len() <= max_held()),
        r is Ok ==> gzip_decoded(src@).0 == Some(
            added(buffer::bytes_held(*old(dest)), buffer::bytes_held(*final(dest))),
        ),
        r matches Err(cause) ==> gzip_decoded(src@).1.contains(cause),
{
    std::io::copy(&mut GzDecoder::new(src), &mut dest.writer())
}

/// `std::io::copy` from a `ZlibDecoder` over `src` into the writer of `dest`. It
/// succeeds when the decoder does and the contents fit, and then appends them. When
/// it fails, its error is one that this copy may end with, and it may have appended part
/// of the contents; how much is not stated.
#[verifier::external_body]
pub(crate) fn zlib_decode(src: &[u8], dest: &mut BytesMut) -> (r: Result<u64, std::io::Error>)
    ensures
        buffer::bytes_held(*old(dest)).is_prefix_of(buffer::bytes_held(*final(dest))),
        r is Ok <==> (zlib_decoded(src@).0 matches Some(data) && buffer::bytes_held(*old(dest)).len()
            + data.len() <= max_held()),
        r is Ok ==> zlib_decoded(src@).0 == Some(
            added(buffer::bytes_held(*old(dest)), buffer::bytes_held(*final(dest))),
        ),
        r matches Err(cause) ==> zlib_decoded(src@).1.contains(cause),
{
    std::io::copy(&mut ZlibDecoder::new(src), &mut dest.writer())
}

/// `std::io::copy` from a `zstd::Decoder` over `src` into the writer of `dest`. When
/// it succeeds it has appended the contents of the frames. When it fails, its error is one
/// that this copy may end with, and it may have appended part of the contents; how much is
/// not stated. Which errors there are for a series of whole frames is not stated either:
/// the decoder fails where it gets no memory for its window.
#[verifier::external_body]
pub(crate) fn zstd_decode(src: &[u8], dest: &mut BytesMut) -> (r: Result<u64, std::io::Error>)
    ensures
        buffer::bytes_held(*old(dest)).is_prefix_of(buffer::bytes_held(*final(dest))),
        r is Ok ==> zstd_decoded(src@).0 == Some(
            added(buffer::bytes_held(*old(dest)), buffer::bytes_held(*final(dest))),
        ),
        r matches Err(cause) ==> zstd_decoded(src@).1.contains(cause),
{
    std::io::copy(&mut zstd::Decoder::new(src)?, &mut dest.writer())
}

/// `zstd::DEFAULT_COMPRESSION_LEVEL` is three.
#[verifier::external_body]
pub(crate) fn zstd_default_level() -> (level: i32)
    ensures
        level == 3,
{
    zstd::DEFAULT_COMPRESSION_LEVEL
}

} // verus!
