//! Variable-length integers: one, two, four or eight bytes, big-endian, the
//! width in the two highest bits of the first byte.

use crate::buffer::{contents, put_u8};
use crate::coding::{holds_at, zeros, DecodeOutcome, EncodeError, Outcome};
use bytes::BytesMut;
use vstd::prelude::*;

verus! {

/// The largest value a variable-length integer can carry: 62 bits.
pub const VARINT_MAX: u64 = 0x3fff_ffff_ffff_ffff;

/// The number of bytes of a variable-length integer, told by its first byte.
pub open spec fn varint_width(first: u8) -> nat {
    if first < 0x40 {
        1
    } else if first < 0x80 {
        2
    } else if first < 0xc0 {
        4
    } else {
        8
    }
}

/// The value of the variable-length integer that starts at `pos`, all of whose
/// bytes are in `b`: big-endian, without the two length bits of the first byte.
pub open spec fn varint_value(b: Seq<u8>, pos: int) -> int {
    let head = b[pos] % 0x40;
    let w = varint_width(b[pos]);
    if w == 1 {
        head as int
    } else if w == 2 {
        head * 0x100 + b[pos + 1]
    } else if w == 4 {
        head * 0x100_0000 + b[pos + 1] * 0x1_0000 + b[pos + 2] * 0x100 + b[pos + 3]
    } else {
        head * 0x100_0000_0000_0000 + b[pos + 1] * 0x1_0000_0000_0000 + b[pos + 2]
            * 0x100_0000_0000 + b[pos + 3] * 0x1_0000_0000 + b[pos + 4] * 0x100_0000 + b[pos + 5]
            * 0x1_0000 + b[pos + 6] * 0x100 + b[pos + 7]
    }
}

/// Decoding a variable-length integer at `pos`: no byte sequence is malformed,
/// and data is missing as long as the width that the first byte announces is
/// not buffered.
pub open spec fn varint_at(b: Seq<u8>, pos: int) -> Outcome<u64> {
    if pos < 0 || pos >= b.len() {
        Outcome::NeedMoreData
    } else if pos + varint_width(b[pos]) > b.len() {
        Outcome::NeedMoreData
    } else {
        Outcome::Decoded { value: varint_value(b, pos) as u64, consumed: varint_width(b[pos]) }
    }
}

/// The shortest encoding of `v`. It stands for `v` where `v <= VARINT_MAX`.
pub open spec fn varint_bytes(v: u64) -> Seq<u8> {
    if v < 0x40 {
        seq![v as u8]
    } else if v < 0x4000 {
        seq![(0x40 + v / 0x100) as u8, (v % 0x100) as u8]
    } else if v < 0x4000_0000 {
        seq![
            (0x80 + v / 0x100_0000) as u8,
            (v / 0x1_0000 % 0x100) as u8,
            (v / 0x100 % 0x100) as u8,
            (v % 0x100) as u8,
        ]
    } else {
        seq![
            (0xc0 + v / 0x100_0000_0000_0000) as u8,
            (v / 0x1_0000_0000_0000 % 0x100) as u8,
            (v / 0x100_0000_0000 % 0x100) as u8,
            (v / 0x1_0000_0000 % 0x100) as u8,
            (v / 0x100_0000 % 0x100) as u8,
            (v / 0x1_0000 % 0x100) as u8,
            (v / 0x100 % 0x100) as u8,
            (v % 0x100) as u8,
        ]
    }
}

/// Reads the variable-length integer that starts at `pos`.
pub fn decode_varint(b: &[u8], pos: usize) -> (r: DecodeOutcome<u64>)
    ensures
        r@ == varint_at(b@, pos as int),
{
    if pos >= b.len() {
        return DecodeOutcome::NeedMoreData;
    }
    let first: u8 = b[pos];
    let head: u64 = (first % 0x40) as u64;
    let left: usize = b.len() - pos;
    if first < 0x40 {
        DecodeOutcome::Decoded { value: head, consumed: 1 }
    } else if first < 0x80 {
        if left < 2 {
            return DecodeOutcome::NeedMoreData;
        }
        let value: u64 = head * 0x100 + b[pos + 1] as u64;
        DecodeOutcome::Decoded { value, consumed: 2 }
    } else if first < 0xc0 {
        if left < 4 {
            return DecodeOutcome::NeedMoreData;
        }
        let value: u64 = head * 0x100_0000 + b[pos + 1] as u64 * 0x1_0000 + b[pos + 2] as u64
            * 0x100 + b[pos + 3] as u64;
        DecodeOutcome::Decoded { value, consumed: 4 }
    } else {
        if left < 8 {
            return DecodeOutcome::NeedMoreData;
        }
        let value: u64 = head * 0x100_0000_0000_0000 + b[pos + 1] as u64 * 0x1_0000_0000_0000
            + b[pos + 2] as u64 * 0x100_0000_0000 + b[pos + 3] as u64 * 0x1_0000_0000 + b[pos
            + 4] as u64 * 0x100_0000 + b[pos + 5] as u64 * 0x1_0000 + b[pos + 6] as u64 * 0x100
            + b[pos + 7] as u64;
        DecodeOutcome::Decoded { value, consumed: 8 }
    }
}

/// A variable-length integer never decodes to more than `VARINT_MAX`, and a
/// decoded one lies inside the buffer.
pub proof fn lemma_varint_bounds(b: Seq<u8>, pos: int)
    ensures
        varint_at(b, pos) matches Outcome::Decoded { value, consumed } ==> {
            &&& value <= VARINT_MAX
            &&& value == varint_value(b, pos)
            &&& 1 <= consumed <= 8
            &&& 0 <= pos
            &&& pos + consumed <= b.len()
        },
        !(varint_at(b, pos) is Malformed),
{
}

/// Bytes that arrive later change nothing about an integer that was decoded.
pub proof fn lemma_varint_settled(b: Seq<u8>, pos: int, rest: Seq<u8>)
    requires
        !(varint_at(b, pos) is NeedMoreData),
    ensures
        varint_at(b + rest, pos) == varint_at(b, pos),
{
}

/// The base-256 digits of a 62-bit number add up to it.
proof fn lemma_digits(v: int)
    requires
        0 <= v <= VARINT_MAX,
    ensures
        v < 0x4000 ==> v == (v / 0x100) * 0x100 + v % 0x100 && v / 0x100 < 0x40,
        v < 0x4000_0000 ==> v == (v / 0x100_0000) * 0x100_0000 + (v / 0x1_0000 % 0x100) * 0x1_0000
            + (v / 0x100 % 0x100) * 0x100 + v % 0x100 && v / 0x100_0000 < 0x40,
        v == (v / 0x100_0000_0000_0000) * 0x100_0000_0000_0000 + (v / 0x1_0000_0000_0000 % 0x100)
            * 0x1_0000_0000_0000 + (v / 0x100_0000_0000 % 0x100) * 0x100_0000_0000 + (v
            / 0x1_0000_0000 % 0x100) * 0x1_0000_0000 + (v / 0x100_0000 % 0x100) * 0x100_0000 + (v
            / 0x1_0000 % 0x100) * 0x1_0000 + (v / 0x100 % 0x100) * 0x100 + v % 0x100,
        v / 0x100_0000_0000_0000 < 0x40,
{
    let q1 = v / 0x100;
    let q2 = q1 / 0x100;
    let q3 = q2 / 0x100;
    let q4 = q3 / 0x100;
    let q5 = q4 / 0x100;
    let q6 = q5 / 0x100;
    let q7 = q6 / 0x100;
    assert(q2 == v / 0x1_0000);
    assert(q3 == v / 0x100_0000);
    assert(q4 == v / 0x1_0000_0000);
    assert(q5 == v / 0x100_0000_0000);
    assert(q6 == v / 0x1_0000_0000_0000);
    assert(q7 == v / 0x100_0000_0000_0000);
    assert(v == q1 * 0x100 + v % 0x100);
    assert(q1 == q2 * 0x100 + q1 % 0x100);
    assert(q2 == q3 * 0x100 + q2 % 0x100);
    assert(q3 == q4 * 0x100 + q3 % 0x100);
    assert(q4 == q5 * 0x100 + q4 % 0x100);
    assert(q5 == q6 * 0x100 + q5 % 0x100);
    assert(q6 == q7 * 0x100 + q6 % 0x100);
}

/// Encoding then decoding gives the value back, wherever the encoding stands.
pub proof fn lemma_varint_round_trip(b: Seq<u8>, pos: int, v: u64)
    requires
        v <= VARINT_MAX,
        holds_at(b, pos, varint_bytes(v)),
    ensures
        varint_at(b, pos) == (Outcome::Decoded { value: v, consumed: varint_bytes(v).len() }),
{
    let e = varint_bytes(v);
    assert forall|i: int| 0 <= i < e.len() implies b[pos + i] == e[i] by {
        assert(b.subrange(pos, pos + e.len())[i] == b[pos + i]);
    }
    lemma_digits(v as int);
    assert(b[pos] == e[0]);
    if v < 0x40 {
    } else if v < 0x4000 {
        assert(b[pos + 1] == e[1]);
        assert(b[pos] == 0x40 + v / 0x100);
    } else if v < 0x4000_0000 {
        assert(b[pos + 1] == e[1]);
        assert(b[pos + 2] == e[2]);
        assert(b[pos + 3] == e[3]);
        assert(b[pos] == 0x80 + v / 0x100_0000);
    } else {
        assert(b[pos + 1] == e[1]);
        assert(b[pos + 2] == e[2]);
        assert(b[pos + 3] == e[3]);
        assert(b[pos + 4] == e[4]);
        assert(b[pos + 5] == e[5]);
        assert(b[pos + 6] == e[6]);
        assert(b[pos + 7] == e[7]);
        assert(b[pos] == 0xc0 + v / 0x100_0000_0000_0000);
    }
}

/// An integer that is cut short is completed by zero bytes, and ends with them.
pub proof fn lemma_varint_completes(b: Seq<u8>, pos: int) -> (k: nat)
    requires
        0 <= pos <= b.len(),
        varint_at(b, pos) is NeedMoreData,
    ensures
        k >= 1,
        varint_at(b + zeros(k), pos) matches Outcome::Decoded { consumed, .. } && pos + consumed
            == b.len() + k,
{
    if pos == b.len() {
        assert((b + zeros(1))[pos] == 0u8);
        1
    } else {
        let k = (pos + varint_width(b[pos]) - b.len()) as nat;
        assert((b + zeros(k))[pos] == b[pos]);
        k
    }
}

/// The number of bytes of the shortest encoding of `v`.
pub fn varint_len(v: u64) -> (n: usize)
    ensures
        n == varint_bytes(v).len(),
        1 <= n <= 8,
{
    if v < 0x40 {
        1
    } else if v < 0x4000 {
        2
    } else if v < 0x4000_0000 {
        4
    } else {
        8
    }
}

/// Appends the shortest encoding of `v` to `buf`, or leaves `buf` as it is.
pub fn put_varint(buf: &mut BytesMut, v: u64) -> (r: Result<(), EncodeError>)
    ensures
        r is Ok <==> v <= VARINT_MAX && contents(*old(buf)).len() + varint_bytes(v).len()
            <= usize::MAX,
        r is Ok ==> contents(*final(buf)) == contents(*old(buf)) + varint_bytes(v),
        r is Err ==> contents(*final(buf)) == contents(*old(buf)),
        r == Err::<(), EncodeError>(EncodeError::BoundsExceeded) <==> v > VARINT_MAX,
{
    if v > VARINT_MAX {
        return Err(EncodeError::BoundsExceeded);
    }
    let n: usize = varint_len(v);
    if buf.len() > usize::MAX - n {
        return Err(EncodeError::TooLarge);
    }
    let ghost before = contents(*buf);
    if v < 0x40 {
        put_u8(buf, v as u8);
    } else if v < 0x4000 {
        put_u8(buf, (0x40 + v / 0x100) as u8);
        put_u8(buf, (v % 0x100) as u8);
    } else if v < 0x4000_0000 {
        put_u8(buf, (0x80 + v / 0x100_0000) as u8);
        put_u8(buf, (v / 0x1_0000 % 0x100) as u8);
        put_u8(buf, (v / 0x100 % 0x100) as u8);
        put_u8(buf, (v % 0x100) as u8);
    } else {
        put_u8(buf, (0xc0 + v / 0x100_0000_0000_0000) as u8);
        put_u8(buf, (v / 0x1_0000_0000_0000 % 0x100) as u8);
        put_u8(buf, (v / 0x100_0000_0000 % 0x100) as u8);
        put_u8(buf, (v / 0x1_0000_0000 % 0x100) as u8);
        put_u8(buf, (v / 0x100_0000 % 0x100) as u8);
        put_u8(buf, (v / 0x1_0000 % 0x100) as u8);
        put_u8(buf, (v / 0x100 % 0x100) as u8);
        put_u8(buf, (v % 0x100) as u8);
    }
    assert(contents(*buf) =~= before + varint_bytes(v));
    Ok(())
}

} // verus!
