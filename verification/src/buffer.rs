//! The byte buffer that frames are built in and decoded from.
//!
//! The buffer is `bytes::BytesMut`. The verifier does not look inside it: what
//! it holds goes by the name [`contents`], and each operation used here is
//! stated over that name as the `bytes` crate documents it.

use bytes::{Buf, BufMut, BytesMut};
use vstd::prelude::*;

verus! {

/// `bytes::BytesMut`: a growable buffer of bytes with a cheap way to drop bytes
/// from its front. Opaque to the verifier.
#[verifier::external_type_specification]
#[verifier::external_body]
pub struct ExBytesMut(bytes::BytesMut);

/// The bytes that a buffer holds, first to last.
pub uninterp spec fn contents(buf: BytesMut) -> Seq<u8>;

/// `BytesMut::new`: a buffer that holds nothing.
pub assume_specification[ BytesMut::new ]() -> (buf: BytesMut)
    ensures
        contents(buf) == Seq::<u8>::empty(),
;

/// `BytesMut::len`: the number of bytes held.
pub assume_specification[ BytesMut::len ](buf: &BytesMut) -> (n: usize)
    ensures
        n == contents(*buf).len(),
;

/// `BytesMut::clear`: drops every byte, keeps the allocation.
pub assume_specification[ BytesMut::clear ](buf: &mut BytesMut)
    ensures
        contents(*final(buf)) == Seq::<u8>::empty(),
;

/// `BytesMut::extend_from_slice`: appends the slice. It reserves room first,
/// and the one panic that `bytes` documents for that is a capacity beyond
/// `usize`: the lengths whose sum is beyond it are left out here. Running out
/// of memory is not a matter of this contract.
pub assume_specification[ BytesMut::extend_from_slice ](buf: &mut BytesMut, extend: &[u8])
    requires
        contents(*old(buf)).len() + extend@.len() <= usize::MAX,
    ensures
        contents(*final(buf)) == contents(*old(buf)) + extend@,
;

/// `BufMut::put_u8` on a `BytesMut`: appends one byte, through
/// `extend_from_slice`, so with the same limit on the new length.
#[verifier::external_body]
pub(crate) fn put_u8(buf: &mut BytesMut, byte: u8)
    requires
        contents(*old(buf)).len() + 1 <= usize::MAX,
    ensures
        contents(*final(buf)) == contents(*old(buf)).push(byte),
{
    buf.put_u8(byte)
}

/// `Buf::advance` on a `BytesMut`: drops the first `cnt` bytes. It panics when
/// fewer are held.
#[verifier::external_body]
pub(crate) fn advance(buf: &mut BytesMut, cnt: usize)
    requires
        cnt <= contents(*old(buf)).len(),
    ensures
        contents(*final(buf)) == contents(*old(buf)).skip(cnt as int),
{
    buf.advance(cnt)
}

/// `AsRef<[u8]>::as_ref` on a `BytesMut`: the held bytes as a slice.
#[verifier::external_body]
pub(crate) fn as_slice(buf: &BytesMut) -> (bytes: &[u8])
    ensures
        bytes@ == contents(*buf),
{
    buf.as_ref()
}

} // verus!
