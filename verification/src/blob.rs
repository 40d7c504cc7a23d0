//! Byte strings: the length as a variable-length integer, then the bytes.

use crate::buffer::contents;
use crate::coding::{holds_at, lemma_holds_at_split, zeros, DecodeOutcome, EncodeError, Outcome};
use crate::varint::{
    decode_varint, lemma_varint_bounds, lemma_varint_completes, lemma_varint_round_trip,
    lemma_varint_settled, put_varint, varint_at, varint_bytes, varint_len, VARINT_MAX,
};
use bytes::BytesMut;
use vstd::prelude::*;
use vstd::slice::{slice_subrange, slice_to_vec};

verus! {

/// Decoding a byte string at `pos`: its length as a variable-length integer,
/// then that many bytes. Data is missing until all of them are buffered.
pub open spec fn blob_at(b: Seq<u8>, pos: int) -> Outcome<Seq<u8>> {
    match varint_at(b, pos) {
        Outcome::Decoded { value: len, consumed: n } => {
            if pos + n + len > b.len() {
                Outcome::NeedMoreData
            } else {
                Outcome::Decoded {
                    value: b.subrange(pos + n, pos + n + len),
                    consumed: n + len as nat,
                }
            }
        },
        other => other.stop(),
    }
}

/// The encoding of a byte string of at most `VARINT_MAX` bytes.
pub open spec fn blob_bytes(s: Seq<u8>) -> Seq<u8> {
    varint_bytes(s.len() as u64) + s
}

/// Reads the byte string that starts at `pos`.
pub fn decode_blob(b: &[u8], pos: usize) -> (r: DecodeOutcome<Vec<u8>>)
    ensures
        r@ == blob_at(b@, pos as int),
{
    let head = decode_varint(b, pos);
    proof {
        lemma_varint_bounds(b@, pos as int);
    }
    match head {
        DecodeOutcome::Decoded { value: len, consumed: n } => {
            let total: usize = b.len();
            let start: usize = pos + n;
            let left: usize = total - start;
            if len > left as u64 {
                DecodeOutcome::NeedMoreData
            } else {
                let end: usize = start + len as usize;
                let value = slice_to_vec(slice_subrange(b, start, end));
                DecodeOutcome::Decoded { value, consumed: end - pos }
            }
        },
        DecodeOutcome::NeedMoreData => DecodeOutcome::NeedMoreData,
        DecodeOutcome::Malformed => DecodeOutcome::Malformed,
    }
}

/// Appends the encoding of the byte string `data` to `buf`, or leaves `buf` as
/// it is.
pub fn put_blob(buf: &mut BytesMut, data: &[u8]) -> (r: Result<(), EncodeError>)
    ensures
        r is Ok <==> data@.len() <= VARINT_MAX && contents(*old(buf)).len() + blob_bytes(
            data@,
        ).len() <= usize::MAX,
        r is Ok ==> contents(*final(buf)) == contents(*old(buf)) + blob_bytes(data@),
        r is Err ==> contents(*final(buf)) == contents(*old(buf)),
        r == Err::<(), EncodeError>(EncodeError::BoundsExceeded) <==> data@.len() > VARINT_MAX,
{
    if data.len() as u64 > VARINT_MAX {
        return Err(EncodeError::BoundsExceeded);
    }
    let n: usize = varint_len(data.len() as u64);
    let held: usize = buf.len();
    if held > usize::MAX - n || data.len() > usize::MAX - n - held {
        return Err(EncodeError::TooLarge);
    }
    let ghost before = contents(*buf);
    if put_varint(buf, data.len() as u64).is_err() {
        return Err(EncodeError::TooLarge);
    }
    buf.extend_from_slice(data);
    assert(contents(*buf) =~= before + blob_bytes(data@));
    Ok(())
}

/// A decoded byte string lies inside the buffer, and none is malformed.
pub proof fn lemma_blob_bounds(b: Seq<u8>, pos: int)
    ensures
        blob_at(b, pos) matches Outcome::Decoded { value, consumed } ==> {
            &&& 1 <= consumed
            &&& 0 <= pos
            &&& pos + consumed <= b.len()
            &&& value.len() <= VARINT_MAX
        },
        !(blob_at(b, pos) is Malformed),
{
    lemma_varint_bounds(b, pos);
}

/// Bytes that arrive later change nothing about a byte string that was decoded.
pub proof fn lemma_blob_settled(b: Seq<u8>, pos: int, rest: Seq<u8>)
    requires
        !(blob_at(b, pos) is NeedMoreData),
    ensures
        blob_at(b + rest, pos) == blob_at(b, pos),
{
    lemma_varint_bounds(b, pos);
    lemma_varint_settled(b, pos, rest);
    match varint_at(b, pos) {
        Outcome::Decoded { value: len, consumed: n } => {
            assert((b + rest).subrange(pos + n, pos + n + len) =~= b.subrange(
                pos + n,
                pos + n + len,
            ));
        },
        _ => {},
    }
}

/// Encoding then decoding gives the byte string back, wherever the encoding
/// stands.
pub proof fn lemma_blob_round_trip(b: Seq<u8>, pos: int, s: Seq<u8>)
    requires
        s.len() <= VARINT_MAX,
        holds_at(b, pos, blob_bytes(s)),
    ensures
        blob_at(b, pos) == (Outcome::Decoded { value: s, consumed: blob_bytes(s).len() }),
{
    let head = varint_bytes(s.len() as u64);
    lemma_holds_at_split(b, pos, head, s);
    lemma_varint_round_trip(b, pos, s.len() as u64);
}

/// A byte string that is cut short is completed by zero bytes, and ends with
/// them.
pub proof fn lemma_blob_completes(b: Seq<u8>, pos: int) -> (ext: Seq<u8>)
    requires
        0 <= pos <= b.len(),
        blob_at(b, pos) is NeedMoreData,
    ensures
        blob_at(b + ext, pos) matches Outcome::Decoded { consumed, .. } && pos + consumed
            == b.len() + ext.len(),
{
    lemma_varint_bounds(b, pos);
    match varint_at(b, pos) {
        Outcome::Decoded { value: len, consumed: n } => {
            let ext = zeros((pos + n + len - b.len()) as nat);
            lemma_varint_settled(b, pos, ext);
            ext
        },
        _ => {
            let k = lemma_varint_completes(b, pos);
            let b1 = b + zeros(k);
            lemma_varint_bounds(b1, pos);
            let len = varint_at(b1, pos)->value;
            let more = zeros(len as nat);
            lemma_varint_settled(b1, pos, more);
            let ext = zeros(k) + more;
            assert(b + ext =~= b1 + more);
            ext
        },
    }
}

} // verus!
