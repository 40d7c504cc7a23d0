//! The header that precedes an object's payload on its own stream.

use crate::buffer::{contents, put_u8};
use crate::coding::{DecodeOutcome, EncodeError, Outcome};
use crate::list::{
    all_in_bounds, decode_varints, lemma_varints_bounds, lemma_varints_completes,
    lemma_varints_round_trip, lemma_varints_settled, varints_at, varints_bytes,
};
use crate::varint::{put_varint, VARINT_MAX};
use crate::wire::Wire;
use bytes::BytesMut;
use vstd::prelude::*;

verus! {

/// The byte that opens every object header.
pub const OBJECT_TAG: u8 = 0x00;

/// What a receiver needs to route an object without reading its payload.
#[derive(Debug, Clone, Copy, PartialEq, Eq)]
pub struct Object {
    /// The track that the object belongs to.
    pub track: u64,
    /// The group within the track.
    pub group: u64,
    /// The object's place within its group.
    pub sequence: u64,
    /// The priority with which the object is sent: lower goes first.
    pub send_order: u64,
}

impl View for Object {
    type V = Object;

    open spec fn view(&self) -> Object {
        *self
    }
}

impl Object {
    /// The four numbers of the header, in the order in which they are sent.
    pub open spec fn fields(self) -> Seq<u64> {
        seq![self.track, self.group, self.sequence, self.send_order]
    }

    /// Whether each number of the header fits a variable-length integer.
    pub fn is_encodable(&self) -> (ok: bool)
        ensures
            ok == Self::encodable(*self),
    {
        assert(all_in_bounds(self.fields()) ==> self.fields()[0] <= VARINT_MAX && self.fields()[1]
            <= VARINT_MAX && self.fields()[2] <= VARINT_MAX && self.fields()[3] <= VARINT_MAX);
        self.track <= VARINT_MAX && self.group <= VARINT_MAX && self.sequence <= VARINT_MAX
            && self.send_order <= VARINT_MAX
    }
}

impl Wire for Object {
    open spec fn encodable(v: Object) -> bool {
        all_in_bounds(v.fields())
    }

    open spec fn wire(v: Object) -> Seq<u8> {
        seq![OBJECT_TAG] + varints_bytes(v.fields())
    }

    open spec fn parse(b: Seq<u8>) -> Outcome<Object> {
        if b.len() == 0 {
            Outcome::NeedMoreData
        } else if b[0] != OBJECT_TAG {
            Outcome::Malformed
        } else {
            match varints_at(b, 1, 4) {
                Outcome::Decoded { value, consumed } => Outcome::Decoded {
                    value: Object {
                        track: value[0],
                        group: value[1],
                        sequence: value[2],
                        send_order: value[3],
                    },
                    consumed: 1 + consumed,
                },
                other => other.stop(),
            }
        }
    }

    proof fn lemma_round_trip(v: Object, rest: Seq<u8>) {
        let b = Self::wire(v) + rest;
        let body = varints_bytes(v.fields());
        assert(b[0] == OBJECT_TAG);
        assert(b.subrange(1, 1 + body.len() as int) =~= body);
        lemma_varints_round_trip(b, 1, v.fields());
    }

    proof fn lemma_settled(b: Seq<u8>, rest: Seq<u8>) {
        assert((b + rest)[0] == b[0]);
        if b[0] == OBJECT_TAG {
            lemma_varints_bounds(b, 1, 4);
            lemma_varints_settled(b, 1, 4, rest);
            let value = varints_at(b, 1, 4)->value;
            let o = Object {
                track: value[0],
                group: value[1],
                sequence: value[2],
                send_order: value[3],
            };
            assert(o.fields() =~= value);
        }
    }

    proof fn lemma_completes(b: Seq<u8>) -> (ext: Seq<u8>) {
        if b.len() == 0 {
            let v = Object { track: 0, group: 0, sequence: 0, send_order: 0 };
            Self::lemma_round_trip(v, Seq::empty());
            assert(b + (Self::wire(v) + Seq::<u8>::empty()) =~= Self::wire(v) + Seq::<u8>::empty());
            Self::wire(v) + Seq::<u8>::empty()
        } else {
            lemma_varints_bounds(b, 1, 4);
            let ext = lemma_varints_completes(b, 1, 4);
            assert((b + ext)[0] == b[0]);
            ext
        }
    }

    fn encode(&self, buf: &mut BytesMut) -> (r: Result<(), EncodeError>) {
        if !self.is_encodable() {
            return Err(EncodeError::BoundsExceeded);
        }
        let ghost before = contents(*buf);
        proof {
            reveal_with_fuel(varints_bytes, 5);
            assert(self.fields().skip(1).skip(1).skip(1).skip(1) =~= Seq::<u64>::empty());
        }
        if buf.len() == usize::MAX {
            return Err(EncodeError::TooLarge);
        }
        put_u8(buf, OBJECT_TAG);
        if put_varint(buf, self.track).is_err() || put_varint(buf, self.group).is_err()
            || put_varint(buf, self.sequence).is_err() || put_varint(buf, self.send_order).is_err() {
            return Err(EncodeError::TooLarge);
        }
        assert(contents(*buf) =~= before + Self::wire(*self));
        Ok(())
    }

    fn decode(b: &[u8]) -> (r: DecodeOutcome<Object>) {
        if b.len() == 0 {
            return DecodeOutcome::NeedMoreData;
        }
        if b[0] != OBJECT_TAG {
            return DecodeOutcome::Malformed;
        }
        proof {
            lemma_varints_bounds(b@, 1, 4);
        }
        match decode_varints(b, 1, 4) {
            DecodeOutcome::Decoded { value, consumed } => DecodeOutcome::Decoded {
                value: Object {
                    track: value[0],
                    group: value[1],
                    sequence: value[2],
                    send_order: value[3],
                },
                consumed: 1 + consumed,
            },
            DecodeOutcome::NeedMoreData => DecodeOutcome::NeedMoreData,
            DecodeOutcome::Malformed => DecodeOutcome::Malformed,
        }
    }
}

} // verus!
