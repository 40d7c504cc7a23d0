//! What it means for a type to travel over a stream: an encoding, a decoder
//! that tells missing data from bad data, and the laws that tie them together.

use crate::buffer::contents;
use crate::coding::{DecodeOutcome, EncodeError, Outcome};
use bytes::BytesMut;
use vstd::prelude::*;

verus! {

/// A self-delimiting value: it can be appended to a buffer, and read back from
/// the front of one without knowing where it ends.
pub trait Wire: View + Sized {
    /// Whether the value has an encoding at all.
    spec fn encodable(v: Self::V) -> bool;

    /// The bytes of the value on the stream.
    spec fn wire(v: Self::V) -> Seq<u8>;

    /// What the decoder makes of the bytes buffered so far, read from the
    /// first of them.
    spec fn parse(b: Seq<u8>) -> Outcome<Self::V>;

    /// Decoding an encoding gives the value back and consumes exactly the
    /// encoding, whatever follows it.
    proof fn lemma_round_trip(v: Self::V, rest: Seq<u8>)
        requires
            Self::encodable(v),
        ensures
            Self::parse(Self::wire(v) + rest) == (Outcome::Decoded {
                value: v,
                consumed: Self::wire(v).len(),
            }),
    ;

    /// Once the decoder has decided, on a value or on bad data, later bytes do
    /// not change its mind. A value that it decoded took at least one byte,
    /// all of them buffered, and can be encoded again.
    proof fn lemma_settled(b: Seq<u8>, rest: Seq<u8>)
        requires
            !(Self::parse(b) is NeedMoreData),
        ensures
            Self::parse(b + rest) == Self::parse(b),
            Self::parse(b) matches Outcome::Decoded { value, consumed } ==> 1 <= consumed
                <= b.len() && Self::encodable(value),
    ;

    /// The decoder asks for more data only where more data can help: some
    /// continuation of the bytes decodes.
    proof fn lemma_completes(b: Seq<u8>) -> (ext: Seq<u8>)
        requires
            Self::parse(b) is NeedMoreData,
        ensures
            Self::parse(b + ext) is Decoded,
    ;

    /// Appends the encoding of the value to `buf`. A value without an
    /// encoding leaves `buf` as it is; an encoding that does not fit leaves
    /// behind the part of it that did.
    fn encode(&self, buf: &mut BytesMut) -> (r: Result<(), EncodeError>)
        ensures
            r is Ok <==> Self::encodable(self@) && contents(*old(buf)).len() + Self::wire(
                self@,
            ).len() <= usize::MAX,
            r is Ok ==> contents(*final(buf)) == contents(*old(buf)) + Self::wire(self@),
            r is Err ==> contents(*old(buf)).is_prefix_of(contents(*final(buf))),
            r == Err::<(), EncodeError>(EncodeError::BoundsExceeded) <==> !Self::encodable(self@),
            r == Err::<(), EncodeError>(EncodeError::BoundsExceeded) ==> contents(*final(buf))
                == contents(*old(buf)),
    ;

    /// Attempts to decode one value from the front of `b`, which stays as it
    /// is.
    fn decode(b: &[u8]) -> (r: DecodeOutcome<Self>)
        ensures
            r@ == Self::parse(b@),
    ;
}

/// The chunks joined in the order in which they arrived.
pub open spec fn concat(chunks: Seq<Seq<u8>>) -> Seq<u8>
    decreases chunks.len(),
{
    if chunks.len() == 0 {
        Seq::empty()
    } else {
        chunks[0] + concat(chunks.skip(1))
    }
}

/// What a receive buffer holds after one decode attempt: a decoded value's
/// bytes are gone from its front, and nothing else has changed.
pub open spec fn after_attempt<T: Wire>(buffered: Seq<u8>) -> Seq<u8> {
    match T::parse(buffered) {
        Outcome::Decoded { consumed, .. } => buffered.skip(consumed as int),
        _ => buffered,
    }
}

/// Where the decode-retry loop ends.
pub struct Retried<V> {
    /// `NeedMoreData` only when the chunks ran out.
    pub outcome: Outcome<V>,
    /// The number of chunks that were appended to the buffer.
    pub used: nat,
    /// What the buffer holds at the end.
    pub buffered: Seq<u8>,
}

/// The decode-retry loop: decode from the start of the buffer; while data is
/// missing, append the next chunk and decode from the start again. A decoded
/// value or bad data ends the loop at once.
pub open spec fn retry<T: Wire>(buffered: Seq<u8>, chunks: Seq<Seq<u8>>) -> Retried<T::V>
    decreases chunks.len(),
{
    match T::parse(buffered) {
        Outcome::NeedMoreData => {
            if chunks.len() == 0 {
                Retried { outcome: Outcome::NeedMoreData, used: 0, buffered }
            } else {
                let later = retry::<T>(buffered + chunks[0], chunks.skip(1));
                Retried { outcome: later.outcome, used: later.used + 1, buffered: later.buffered }
            }
        },
        outcome => Retried { outcome, used: 0, buffered: after_attempt::<T>(buffered) },
    }
}

/// Round trip under fragmentation. However the encoding of `v` is cut into
/// chunks, and whatever the buffer held of it before, the decode-retry loop
/// yields `v`, advances the buffer by exactly the length of the encoding, and
/// keeps each byte that follows the encoding: those still buffered and those in
/// the chunks not yet used are `rest`.
pub proof fn lemma_round_trip_fragmented<T: Wire>(
    v: T::V,
    held: Seq<u8>,
    chunks: Seq<Seq<u8>>,
    rest: Seq<u8>,
)
    requires
        T::encodable(v),
        held + concat(chunks) == T::wire(v) + rest,
    ensures
        retry::<T>(held, chunks).outcome == (Outcome::Decoded {
            value: v,
            consumed: T::wire(v).len(),
        }),
        retry::<T>(held, chunks).used <= chunks.len(),
        retry::<T>(held, chunks).buffered + concat(chunks.skip(retry::<T>(held, chunks).used as int))
            == rest,
    decreases chunks.len(),
{
    let all = T::wire(v) + rest;
    T::lemma_round_trip(v, rest);
    if T::parse(held) is NeedMoreData {
        if chunks.len() == 0 {
            assert(held + concat(chunks) =~= held);
        } else {
            assert((held + chunks[0]) + concat(chunks.skip(1)) =~= held + concat(chunks));
            lemma_round_trip_fragmented::<T>(v, held + chunks[0], chunks.skip(1), rest);
            let used = retry::<T>(held + chunks[0], chunks.skip(1)).used;
            assert(chunks.skip(1).skip(used as int) =~= chunks.skip(used as int + 1));
        }
    } else {
        T::lemma_settled(held, concat(chunks));
        assert(chunks.skip(0) =~= chunks);
        assert(held.skip(T::wire(v).len() as int) + concat(chunks) =~= all.skip(
            T::wire(v).len() as int,
        ));
        assert(all.skip(T::wire(v).len() as int) =~= rest);
    }
}

/// The buffer invariant across two values. After the first of two encodings
/// in a row is decoded, the buffer starts exactly at the second, which the
/// next attempt decodes.
pub proof fn lemma_back_to_back<T: Wire>(first: T::V, second: T::V, rest: Seq<u8>)
    requires
        T::encodable(first),
        T::encodable(second),
    ensures
        T::parse(T::wire(first) + T::wire(second) + rest) == (Outcome::Decoded {
            value: first,
            consumed: T::wire(first).len(),
        }),
        after_attempt::<T>(T::wire(first) + T::wire(second) + rest) == T::wire(second) + rest,
        T::parse(T::wire(second) + rest) == (Outcome::Decoded {
            value: second,
            consumed: T::wire(second).len(),
        }),
        after_attempt::<T>(T::wire(second) + rest) == rest,
{
    let all = T::wire(first) + T::wire(second) + rest;
    assert(all =~= T::wire(first) + (T::wire(second) + rest));
    T::lemma_round_trip(first, T::wire(second) + rest);
    T::lemma_round_trip(second, rest);
    assert(all.skip(T::wire(first).len() as int) =~= T::wire(second) + rest);
    assert((T::wire(second) + rest).skip(T::wire(second).len() as int) =~= rest);
}

/// A strict prefix of an encoding is not a failure: the decoder asks for more
/// data, and leaves the bytes where they are.
pub proof fn lemma_prefix_needs_more<T: Wire>(v: T::V, k: int)
    requires
        T::encodable(v),
        0 <= k < T::wire(v).len(),
    ensures
        T::parse(T::wire(v).take(k)) is NeedMoreData,
        after_attempt::<T>(T::wire(v).take(k)) == T::wire(v).take(k),
{
    let head = T::wire(v).take(k);
    let tail = T::wire(v).skip(k);
    assert(head + tail =~= T::wire(v));
    assert(T::wire(v) + Seq::<u8>::empty() =~= T::wire(v));
    T::lemma_round_trip(v, Seq::empty());
    if !(T::parse(head) is NeedMoreData) {
        T::lemma_settled(head, tail);
    }
}

/// Bytes that no continuation can turn into a value are malformed at once:
/// the decoder does not wait for data that cannot help.
pub proof fn lemma_hopeless_is_malformed<T: Wire>(b: Seq<u8>)
    requires
        forall|rest: Seq<u8>| !(#[trigger] T::parse(b + rest) is Decoded),
    ensures
        T::parse(b) is Malformed,
{
    assert(b + Seq::<u8>::empty() =~= b);
    assert(!(T::parse(b + Seq::<u8>::empty()) is Decoded));
    if T::parse(b) is NeedMoreData {
        let ext = T::lemma_completes(b);
        assert(!(T::parse(b + ext) is Decoded));
    }
}

/// Malformed is final: whatever arrives later, every further attempt fails
/// as well, and the retry loop gives up without touching a chunk.
pub proof fn lemma_malformed_is_final<T: Wire>(b: Seq<u8>, chunks: Seq<Seq<u8>>)
    requires
        T::parse(b) is Malformed,
    ensures
        T::parse(b + concat(chunks)) is Malformed,
        retry::<T>(b, chunks) == (Retried::<T::V> {
            outcome: Outcome::Malformed,
            used: 0,
            buffered: b,
        }),
{
    T::lemma_settled(b, concat(chunks));
}

/// The encodings of the values, written whole and one after the other.
pub open spec fn frames<T: Wire>(values: Seq<T::V>) -> Seq<u8>
    decreases values.len(),
{
    if values.len() == 0 {
        Seq::empty()
    } else {
        T::wire(values[0]) + frames::<T>(values.skip(1))
    }
}

/// What `n` decode attempts in a row give, each starting where the one before
/// it ended: the values decoded until an attempt gave none, and what is left
/// in the buffer.
pub open spec fn drain<T: Wire>(buffered: Seq<u8>, n: nat) -> (Seq<T::V>, Seq<u8>)
    decreases n,
{
    if n == 0 {
        (Seq::empty(), buffered)
    } else {
        match T::parse(buffered) {
            Outcome::Decoded { value, consumed } => {
                let later = drain::<T>(buffered.skip(consumed as int), (n - 1) as nat);
                (seq![value] + later.0, later.1)
            },
            _ => (Seq::empty(), buffered),
        }
    }
}

/// Values whose encodings were written whole, one after the other, arrive as
/// the same values in the same order, each fully formed, and what follows the
/// last of them is untouched. This is what a receiver sees of senders that
/// take turns: no value can be damaged by its neighbours.
pub proof fn lemma_frames_round_trip<T: Wire>(values: Seq<T::V>, rest: Seq<u8>)
    requires
        forall|i: int| 0 <= i < values.len() ==> T::encodable(#[trigger] values[i]),
    ensures
        drain::<T>(frames::<T>(values) + rest, values.len()) == (values, rest),
    decreases values.len(),
{
    let all = frames::<T>(values) + rest;
    if values.len() == 0 {
        assert(all =~= rest);
        assert(values =~= Seq::<T::V>::empty());
    } else {
        let first = T::wire(values[0]);
        let tail = frames::<T>(values.skip(1)) + rest;
        assert(all =~= first + tail);
        T::lemma_round_trip(values[0], tail);
        assert(all.skip(first.len() as int) =~= tail);
        lemma_frames_round_trip::<T>(values.skip(1), rest);
        assert(seq![values[0]] + values.skip(1) =~= values);
    }
}

} // verus!
