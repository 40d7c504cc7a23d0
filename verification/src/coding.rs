//! The outcome of a decode attempt, and what the encodings of all fields have
//! in common.

use vstd::prelude::*;

verus! {

/// What a decoder makes of a byte sequence, as a mathematical value.
///
/// `consumed` counts the bytes of the decoded item, from the position at which
/// the decoder started.
pub enum Outcome<T> {
    Decoded { value: T, consumed: nat },
    NeedMoreData,
    Malformed,
}

impl<T> Outcome<T> {
    /// The failure to decode a part, as the failure to decode the whole that
    /// the part belongs to. A part that was decoded is no failure: for it the
    /// result is `NeedMoreData`, and nothing here relies on it.
    pub open spec fn stop<U>(self) -> Outcome<U> {
        match self {
            Outcome::Malformed => Outcome::Malformed,
            _ => Outcome::NeedMoreData,
        }
    }
}

/// What a decoder made of a buffer.
///
/// `NeedMoreData` leaves every buffered byte in place; `Malformed` is final for
/// the stream that the bytes came from.
#[derive(Debug, PartialEq, Eq)]
pub enum DecodeOutcome<T> {
    Decoded { value: T, consumed: usize },
    NeedMoreData,
    Malformed,
}

impl<T: View> View for DecodeOutcome<T> {
    type V = Outcome<T::V>;

    open spec fn view(&self) -> Outcome<T::V> {
        match self {
            DecodeOutcome::Decoded { value, consumed } => Outcome::Decoded {
                value: value@,
                consumed: *consumed as nat,
            },
            DecodeOutcome::NeedMoreData => Outcome::NeedMoreData,
            DecodeOutcome::Malformed => Outcome::Malformed,
        }
    }
}

/// Why a value could not be encoded.
#[derive(Debug, Clone, Copy, PartialEq, Eq)]
pub enum EncodeError {
    /// A number or a length is above `VARINT_MAX`.
    BoundsExceeded,
    /// The buffer would grow beyond what the machine can address.
    TooLarge,
}

/// `k` zero bytes.
pub open spec fn zeros(k: nat) -> Seq<u8> {
    Seq::new(k, |i: int| 0u8)
}

/// `b` holds the bytes `e` from position `pos` on.
pub open spec fn holds_at(b: Seq<u8>, pos: int, e: Seq<u8>) -> bool {
    &&& 0 <= pos
    &&& pos + e.len() <= b.len()
    &&& b.subrange(pos, pos + e.len()) == e
}

/// Holding two encodings in a row is holding their concatenation.
pub proof fn lemma_holds_at_split(b: Seq<u8>, pos: int, e1: Seq<u8>, e2: Seq<u8>)
    ensures
        holds_at(b, pos, e1 + e2) <==> holds_at(b, pos, e1) && holds_at(b, pos + e1.len(), e2),
{
    let e = e1 + e2;
    if holds_at(b, pos, e) {
        assert(b.subrange(pos, pos + e1.len()) =~= e.subrange(0, e1.len() as int));
        assert(e.subrange(0, e1.len() as int) =~= e1);
        assert(b.subrange(pos + e1.len(), pos + e1.len() + e2.len()) =~= e.subrange(
            e1.len() as int,
            e.len() as int,
        ));
        assert(e.subrange(e1.len() as int, e.len() as int) =~= e2);
    }
    if holds_at(b, pos, e1) && holds_at(b, pos + e1.len(), e2) {
        assert forall|i: int| 0 <= i < e.len() implies b.subrange(pos, pos + e.len())[i]
            == e[i] by {
            if i < e1.len() {
                assert(b.subrange(pos, pos + e1.len())[i] == e1[i]);
            } else {
                assert(b.subrange(pos + e1.len(), pos + e1.len() + e2.len())[i - e1.len()]
                    == e2[i - e1.len()]);
            }
        }
        assert(b.subrange(pos, pos + e.len()) =~= e);
    }
}

} // verus!
