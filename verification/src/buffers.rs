//! The byte buffers of the `bytes` and `tokio` crates, by what they hold.
use bytes::{Buf, BufMut, Bytes, BytesMut};
use tokio::io::ReadBuf;
use vstd::prelude::*;

verus! {

/// The most bytes that one buffer can hold.
pub open spec fn max_len() -> int {
    isize::MAX as int
}

/// Stands for `bytes::BytesMut`.
#[verifier::external_type_specification]
#[verifier::external_body]
pub struct ExBytesMut(BytesMut);

/// The bytes that a `BytesMut` holds, from the first unread one on.
pub uninterp spec fn mut_bytes(buf: BytesMut) -> Seq<u8>;

/// Stands for `bytes::Bytes`.
#[verifier::external_type_specification]
#[verifier::external_body]
pub struct ExBytes(Bytes);

/// The bytes that a `Bytes` holds, from the first unread one on.
pub uninterp spec fn shared_bytes(buf: Bytes) -> Seq<u8>;

/// Stands for `tokio::io::ReadBuf`.
#[verifier::external_type_specification]
#[verifier::external_body]
pub struct ExReadBuf<'a>(ReadBuf<'a>);

/// The filled part of a `ReadBuf`.
pub uninterp spec fn filled(buf: ReadBuf<'_>) -> Seq<u8>;

/// How many bytes a `ReadBuf` takes in all, those already filled counted.
pub uninterp spec fn read_capacity(buf: ReadBuf<'_>) -> nat;

/// How many more bytes a `ReadBuf` takes.
pub open spec fn room(buf: ReadBuf<'_>) -> int {
    read_capacity(buf) - filled(buf).len()
}

/// `BytesMut::with_capacity` makes a buffer that holds nothing. A capacity over `isize::MAX`
/// makes it panic.
pub assume_specification[ BytesMut::with_capacity ](capacity: usize) -> (r: BytesMut)
    requires
        capacity <= max_len(),
    ensures
        mut_bytes(r) == Seq::<u8>::empty(),
;

/// `BytesMut::len` is the number of bytes held, which no allocation lets exceed `isize::MAX`.
pub assume_specification[ BytesMut::len ](buf: &BytesMut) -> (r: usize)
    ensures
        r == mut_bytes(*buf).len(),
        r <= max_len(),
;

/// `BytesMut::is_empty` says whether nothing is held.
pub assume_specification[ BytesMut::is_empty ](buf: &BytesMut) -> (r: bool)
    ensures
        r == (mut_bytes(*buf).len() == 0),
;

/// `BytesMut::split_to` hands out the first `at` bytes and keeps the others. It panics where
/// fewer are held.
pub assume_specification[ BytesMut::split_to ](buf: &mut BytesMut, at: usize) -> (r: BytesMut)
    requires
        at <= mut_bytes(*old(buf)).len(),
    ensures
        mut_bytes(r) == mut_bytes(*old(buf)).take(at as int),
        mut_bytes(*final(buf)) == mut_bytes(*old(buf)).skip(at as int),
;

/// `BytesMut::extend_from_slice` appends the slice, growing the buffer where it has to. It
/// panics where the bytes together would exceed `isize::MAX`.
pub assume_specification[ BytesMut::extend_from_slice ](buf: &mut BytesMut, extend: &[u8])
    requires
        mut_bytes(*old(buf)).len() + extend@.len() <= max_len(),
    ensures
        mut_bytes(*final(buf)) == mut_bytes(*old(buf)) + extend@,
;

/// `BytesMut::freeze` keeps the bytes as they are.
pub assume_specification[ BytesMut::freeze ](buf: BytesMut) -> (r: Bytes)
    ensures
        shared_bytes(r) == mut_bytes(buf),
;

/// `Bytes::len` is the number of bytes held, which no allocation lets exceed `isize::MAX`.
pub assume_specification[ Bytes::len ](buf: &Bytes) -> (r: usize)
    ensures
        r == shared_bytes(*buf).len(),
        r <= max_len(),
;

/// `Bytes::clear` drops what is held.
pub assume_specification[ Bytes::clear ](buf: &mut Bytes)
    ensures
        shared_bytes(*final(buf)) == Seq::<u8>::empty(),
;

/// `ReadBuf::remaining` is the room left, which is never negative.
pub assume_specification<'a>[ ReadBuf::<'a>::remaining ](buf: &ReadBuf<'a>) -> (r: usize)
    ensures
        r == room(*buf),
;

/// `ReadBuf::put_slice` appends the slice to the filled part. It panics where there is less
/// room than that.
pub assume_specification<'a>[ ReadBuf::<'a>::put_slice ](buf: &mut ReadBuf<'a>, src: &[u8])
    requires
        src@.len() <= room(*old(buf)),
    ensures
        filled(*final(buf)) == filled(*old(buf)) + src@,
        read_capacity(*final(buf)) == read_capacity(*old(buf)),
;

/// `BytesMut` dereferences to the bytes it holds.
#[verifier::external_body]
pub(crate) fn mut_slice(buf: &BytesMut) -> (r: &[u8])
    ensures
        r@ == mut_bytes(*buf),
{
    buf
}

/// `Bytes` dereferences to the bytes it holds.
#[verifier::external_body]
pub(crate) fn shared_slice(buf: &Bytes) -> (r: &[u8])
    ensures
        r@ == shared_bytes(*buf),
{
    buf
}

/// `BufMut::put_slice` on a `BytesMut` appends the slice. It panics where the bytes together
/// would exceed `isize::MAX`.
#[verifier::external_body]
pub(crate) fn append(buf: &mut BytesMut, src: &[u8])
    requires
        mut_bytes(*old(buf)).len() + src@.len() <= max_len(),
    ensures
        mut_bytes(*final(buf)) == mut_bytes(*old(buf)) + src@,
{
    buf.put_slice(src)
}

/// `BufMut::put_u8` on a `BytesMut` appends one byte. It panics where the bytes together would
/// exceed `isize::MAX`.
#[verifier::external_body]
pub(crate) fn append_byte(buf: &mut BytesMut, byte: u8)
    requires
        mut_bytes(*old(buf)).len() < max_len(),
    ensures
        mut_bytes(*final(buf)) == mut_bytes(*old(buf)).push(byte),
{
    buf.put_u8(byte)
}

/// `BytesMut` dereferences to a mutable slice of the bytes it holds: those at `at` and behind it
/// are replaced by `src`, the others stay. Indexing panics where `src` does not fit.
#[verifier::external_body]
pub(crate) fn overwrite(buf: &mut BytesMut, at: usize, src: &[u8])
    requires
        at + src@.len() <= mut_bytes(*old(buf)).len(),
    ensures
        mut_bytes(*final(buf)) == mut_bytes(*old(buf)).take(at as int) + src@ + mut_bytes(
            *old(buf),
        ).skip(at + src@.len()),
{
    buf[at..][..src.len()].copy_from_slice(src)
}

/// `Buf::advance` on a `Bytes` drops the first `count` bytes. It panics where fewer are held.
#[verifier::external_body]
pub(crate) fn advance(buf: &mut Bytes, count: usize)
    requires
        count <= shared_bytes(*old(buf)).len(),
    ensures
        shared_bytes(*final(buf)) == shared_bytes(*old(buf)).skip(count as int),
{
    buf.advance(count)
}

/// `BufMut::has_remaining_mut` on a `BytesMut` says whether it holds less than `isize::MAX`
/// bytes, whatever it has allocated so far.
#[verifier::external_body]
pub(crate) fn has_remaining_mut(buf: &BytesMut) -> (r: bool)
    ensures
        r == (mut_bytes(*buf).len() < max_len()),
{
    buf.has_remaining_mut()
}

/// `BufMut::chunk_mut` on a `BytesMut` is the spare part of the allocation; only its length is
/// taken. Where nothing is spare, it first allocates room for 64 bytes more, and panics where
/// these would exceed `isize::MAX`. How much is spare depends on the allocator: it is at least
/// one byte, and fits beside the bytes held.
#[verifier::external_body]
pub(crate) fn chunk_mut_len(buf: &mut BytesMut) -> (r: usize)
    requires
        mut_bytes(*old(buf)).len() + 64 <= max_len(),
    ensures
        r > 0,
        mut_bytes(*old(buf)).len() + r <= max_len(),
        mut_bytes(*final(buf)) == mut_bytes(*old(buf)),
{
    buf.chunk_mut().len()
}

} // verus!
