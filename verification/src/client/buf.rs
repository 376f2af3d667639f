//! The byte buffers of the `bytes` crate that the codec reads and fills, with
//! the contracts that the codec relies on. Each function here makes one call
//! into `bytes` and is trusted: its contract restates what the crate's source
//! and documentation show.

use bytes::{Buf, BufMut, Bytes, BytesMut};
use vstd::prelude::*;

verus! {

#[verifier::external_type_specification]
#[verifier::external_body]
pub struct ExBytesMut(bytes::BytesMut);

#[verifier::external_type_specification]
#[verifier::external_body]
pub struct ExBytes(bytes::Bytes);

/// The bytes that a `BytesMut` holds, in order.
pub uninterp spec fn bytes_mut_view(b: BytesMut) -> Seq<u8>;

/// The bytes that a `Bytes` holds, in order.
pub uninterp spec fn bytes_view(b: Bytes) -> Seq<u8>;

/// `<BytesMut as AsRef<[u8]>>::as_ref`: the slice of the bytes held.
#[verifier::external_body]
pub(crate) fn buf_contents(buf: &BytesMut) -> (r: &[u8])
    ensures
        r@ == bytes_mut_view(*buf),
{
    buf.as_ref()
}

/// `<BytesMut as Buf>::advance`: drops the first `cnt` bytes; it panics when
/// `cnt` is more than the bytes held.
#[verifier::external_body]
pub(crate) fn buf_advance(buf: &mut BytesMut, cnt: usize)
    requires
        cnt <= bytes_mut_view(*old(buf)).len(),
    ensures
        bytes_mut_view(*final(buf)) == bytes_mut_view(*old(buf)).skip(cnt as int),
{
    buf.advance(cnt)
}

/// `BytesMut::split_to`: hands out the first `at` bytes and keeps the rest; it
/// panics when `at` is more than the bytes held.
#[verifier::external_body]
pub(crate) fn buf_split_to(buf: &mut BytesMut, at: usize) -> (head: BytesMut)
    requires
        at <= bytes_mut_view(*old(buf)).len(),
    ensures
        bytes_mut_view(head) == bytes_mut_view(*old(buf)).take(at as int),
        bytes_mut_view(*final(buf)) == bytes_mut_view(*old(buf)).skip(at as int),
{
    buf.split_to(at)
}

/// `BytesMut::truncate`: keeps the first `len` bytes; no effect when `len` is
/// not less than the bytes held.
#[verifier::external_body]
pub(crate) fn buf_truncate(buf: &mut BytesMut, len: usize)
    ensures
        bytes_mut_view(*final(buf)) == if len < bytes_mut_view(*old(buf)).len() {
            bytes_mut_view(*old(buf)).take(len as int)
        } else {
            bytes_mut_view(*old(buf))
        },
{
    buf.truncate(len)
}

/// `BytesMut::freeze`: the same bytes as an immutable `Bytes`.
#[verifier::external_body]
pub(crate) fn buf_freeze(buf: BytesMut) -> (r: Bytes)
    ensures
        bytes_view(r) == bytes_mut_view(buf),
{
    buf.freeze()
}

/// `BytesMut::reserve`: makes room for `additional` more bytes and keeps the
/// bytes held. It panics when the capacity it needs overflows; that capacity
/// also counts bytes already split off the front of the allocation, which the
/// contents do not show, so this contract excludes only the overflow that the
/// contents alone cause.
#[verifier::external_body]
pub(crate) fn buf_reserve(buf: &mut BytesMut, additional: usize)
    requires
        bytes_mut_view(*old(buf)).len() + additional <= isize::MAX,
    ensures
        bytes_mut_view(*final(buf)) == bytes_mut_view(*old(buf)),
{
    buf.reserve(additional)
}

/// `<BytesMut as BufMut>::put` with a byte slice: appends the slice. The
/// same capacity limit as for `buf_reserve` applies.
#[verifier::external_body]
pub(crate) fn buf_put(buf: &mut BytesMut, src: &[u8])
    requires
        bytes_mut_view(*old(buf)).len() + src@.len() <= isize::MAX,
    ensures
        bytes_mut_view(*final(buf)) == bytes_mut_view(*old(buf)) + src@,
{
    buf.put(src)
}

/// `<[u8]>::to_vec` on the bytes of a `Bytes`: a vector of the same bytes.
#[verifier::external_body]
pub(crate) fn bytes_to_vec(b: &Bytes) -> (r: Vec<u8>)
    ensures
        r@ == bytes_view(*b),
{
    b.to_vec()
}

} // verus!
