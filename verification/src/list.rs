//! Lists of integers: their number as a variable-length integer, then each
//! of them as one.

use crate::buffer::contents;
use crate::coding::{holds_at, lemma_holds_at_split, zeros, DecodeOutcome, EncodeError, Outcome};
use crate::varint::{
    decode_varint, lemma_varint_bounds, lemma_varint_completes, lemma_varint_round_trip,
    lemma_varint_settled, put_varint, varint_at, varint_bytes, VARINT_MAX,
};
use bytes::BytesMut;
use vstd::prelude::*;

verus! {

/// Decoding `count` variable-length integers in a row, from `pos` on.
pub open spec fn varints_at(b: Seq<u8>, pos: int, count: nat) -> Outcome<Seq<u64>>
    decreases count,
{
    if count == 0 {
        Outcome::Decoded { value: Seq::empty(), consumed: 0 }
    } else {
        match varint_at(b, pos) {
            Outcome::Decoded { value, consumed } => join(
                seq![value],
                consumed,
                varints_at(b, pos + consumed, (count - 1) as nat),
            ),
            other => other.stop(),
        }
    }
}

/// The outcome `rest` of decoding the later items, after the items `done` that
/// took `used` bytes.
pub open spec fn join(done: Seq<u64>, used: nat, rest: Outcome<Seq<u64>>) -> Outcome<Seq<u64>> {
    match rest {
        Outcome::Decoded { value, consumed } => Outcome::Decoded {
            value: done + value,
            consumed: used + consumed,
        },
        other => other,
    }
}

/// Decoding a list of integers at `pos`: their number, then each of them.
pub open spec fn list_at(b: Seq<u8>, pos: int) -> Outcome<Seq<u64>> {
    match varint_at(b, pos) {
        Outcome::Decoded { value: count, consumed } => join(
            Seq::empty(),
            consumed,
            varints_at(b, pos + consumed, count as nat),
        ),
        other => other.stop(),
    }
}

/// Every item can be carried by a variable-length integer.
pub open spec fn all_in_bounds(items: Seq<u64>) -> bool {
    forall|i: int| 0 <= i < items.len() ==> #[trigger] items[i] <= VARINT_MAX
}

/// The encodings of the items, one after the other.
pub open spec fn varints_bytes(items: Seq<u64>) -> Seq<u8>
    decreases items.len(),
{
    if items.len() == 0 {
        Seq::empty()
    } else {
        varint_bytes(items[0]) + varints_bytes(items.skip(1))
    }
}

/// The encoding of a list of at most `VARINT_MAX` integers.
pub open spec fn list_bytes(items: Seq<u64>) -> Seq<u8> {
    varint_bytes(items.len() as u64) + varints_bytes(items)
}

/// Reads `count` integers in a row, from `pos` on.
pub fn decode_varints(b: &[u8], pos: usize, count: u64) -> (r: DecodeOutcome<Vec<u64>>)
    ensures
        r@ == varints_at(b@, pos as int, count as nat),
{
    let total: usize = b.len();
    if pos > total {
        if count == 0 {
            return DecodeOutcome::Decoded { value: Vec::new(), consumed: 0 };
        }
        return DecodeOutcome::NeedMoreData;
    }
    let mut cur: usize = pos;
    let mut items: Vec<u64> = Vec::new();
    let mut i: u64 = 0;
    assert(items@ + varints_at(b@, cur as int, count as nat)->value =~= varints_at(
        b@,
        cur as int,
        count as nat,
    )->value);
    while i < count
        invariant
            i <= count,
            total == b@.len(),
            pos <= cur <= total,
            items@.len() == i,
            varints_at(b@, pos as int, count as nat) == join(
                items@,
                (cur - pos) as nat,
                varints_at(b@, cur as int, (count - i) as nat),
            ),
        decreases count - i,
    {
        let item = decode_varint(b, cur);
        proof {
            lemma_varint_bounds(b@, cur as int);
            assert(varints_at(b@, cur as int, (count - i) as nat) == match varint_at(
                b@,
                cur as int,
            ) {
                Outcome::Decoded { value, consumed } => join(
                    seq![value],
                    consumed,
                    varints_at(b@, cur + consumed, (count - i - 1) as nat),
                ),
                other => other.stop(),
            });
        }
        match item {
            DecodeOutcome::Decoded { value, consumed } => {
                proof {
                    let later = varints_at(b@, cur + consumed, (count - i - 1) as nat);
                    if later is Decoded {
                        assert(items@ + (seq![value] + later->value) =~= items@.push(value)
                            + later->value);
                    }
                }
                items.push(value);
                cur = cur + consumed;
                i = i + 1;
            },
            DecodeOutcome::NeedMoreData => {
                return DecodeOutcome::NeedMoreData;
            },
            DecodeOutcome::Malformed => {
                return DecodeOutcome::Malformed;
            },
        }
    }
    assert(items@ + Seq::<u64>::empty() =~= items@);
    DecodeOutcome::Decoded { value: items, consumed: cur - pos }
}

/// Reads the list of integers that starts at `pos`.
pub fn decode_list(b: &[u8], pos: usize) -> (r: DecodeOutcome<Vec<u64>>)
    ensures
        r@ == list_at(b@, pos as int),
{
    let total: usize = b.len();
    let head = decode_varint(b, pos);
    proof {
        lemma_varint_bounds(b@, pos as int);
    }
    match head {
        DecodeOutcome::Decoded { value: count, consumed: n } => {
            proof {
                lemma_varints_bounds(b@, pos + n, count as nat);
            }
            match decode_varints(b, pos + n, count) {
                DecodeOutcome::Decoded { value, consumed } => {
                    assert(Seq::<u64>::empty() + value@ =~= value@);
                    DecodeOutcome::Decoded { value, consumed: n + consumed }
                },
                DecodeOutcome::NeedMoreData => DecodeOutcome::NeedMoreData,
                DecodeOutcome::Malformed => DecodeOutcome::Malformed,
            }
        },
        DecodeOutcome::NeedMoreData => DecodeOutcome::NeedMoreData,
        DecodeOutcome::Malformed => DecodeOutcome::Malformed,
    }
}

/// Whether every item can be carried by a variable-length integer.
pub fn in_bounds(items: &[u64]) -> (ok: bool)
    ensures
        ok == all_in_bounds(items@),
{
    let n: usize = items.len();
    let mut i: usize = 0;
    while i < n
        invariant
            i <= n,
            n == items@.len(),
            all_in_bounds(items@.take(i as int)),
        decreases n - i,
    {
        if items[i] > VARINT_MAX {
            return false;
        }
        assert forall|j: int| 0 <= j < i + 1 implies #[trigger] items@.take(i + 1)[j]
            <= VARINT_MAX by {
            if j < i {
                assert(items@.take(i as int)[j] <= VARINT_MAX);
            }
        }
        i = i + 1;
    }
    assert(items@.take(n as int) =~= items@);
    true
}

/// Appends the encoding of the list `items` to `buf`. A list that is out of
/// bounds leaves `buf` as it is; one that does not fit leaves behind the part of
/// its encoding that did.
pub fn put_list(buf: &mut BytesMut, items: &[u64]) -> (r: Result<(), EncodeError>)
    ensures
        r is Ok <==> items@.len() <= VARINT_MAX && all_in_bounds(items@) && contents(
            *old(buf),
        ).len() + list_bytes(items@).len() <= usize::MAX,
        r is Ok ==> contents(*final(buf)) == contents(*old(buf)) + list_bytes(items@),
        r is Err ==> contents(*old(buf)).is_prefix_of(contents(*final(buf))),
        r == Err::<(), EncodeError>(EncodeError::BoundsExceeded) <==> !(items@.len() <= VARINT_MAX
            && all_in_bounds(items@)),
        r == Err::<(), EncodeError>(EncodeError::BoundsExceeded) ==> contents(*final(buf))
            == contents(*old(buf)),
{
    let n: usize = items.len();
    if n as u64 > VARINT_MAX || !in_bounds(items) {
        return Err(EncodeError::BoundsExceeded);
    }
    let ghost before = contents(*buf);
    if put_varint(buf, n as u64).is_err() {
        return Err(EncodeError::TooLarge);
    }
    let ghost head = varint_bytes(n as u64);
    let mut i: usize = 0;
    assert(items@.take(0) =~= Seq::<u64>::empty());
    assert(before + head + varints_bytes(items@.take(0)) =~= before + head);
    while i < n
        invariant
            i <= n,
            n == items@.len(),
            n <= VARINT_MAX,
            all_in_bounds(items@),
            before == contents(*old(buf)),
            head == varint_bytes(n as u64),
            contents(*buf).len() <= usize::MAX,
            contents(*buf) == before + head + varints_bytes(items@.take(i as int)),
        decreases n - i,
    {
        proof {
            lemma_varints_bytes_push(items@.take(i as int), items@[i as int]);
            assert(items@.take(i as int).push(items@[i as int]) =~= items@.take(i + 1));
            lemma_varints_bytes_prefix(items@, i + 1);
            assert(varints_bytes(items@.take(i + 1)).len() == varints_bytes(
                items@.take(i as int),
            ).len() + varint_bytes(items@[i as int]).len());
        }
        if put_varint(buf, items[i]).is_err() {
            assert(before.len() + list_bytes(items@).len() > usize::MAX);
            return Err(EncodeError::TooLarge);
        }
        assert(contents(*buf) =~= before + head + varints_bytes(items@.take(i + 1)));
        i = i + 1;
    }
    assert(items@.take(n as int) =~= items@);
    assert(contents(*buf) =~= before + list_bytes(items@));
    Ok(())
}

/// Encoding one more item appends its bytes.
pub proof fn lemma_varints_bytes_push(items: Seq<u64>, v: u64)
    ensures
        varints_bytes(items.push(v)) == varints_bytes(items) + varint_bytes(v),
    decreases items.len(),
{
    let all = items.push(v);
    if items.len() == 0 {
        assert(all.skip(1) =~= Seq::<u64>::empty());
        assert(varints_bytes(all.skip(1)) =~= Seq::<u8>::empty());
        assert(varints_bytes(all) =~= varint_bytes(v));
        assert(varints_bytes(items) + varint_bytes(v) =~= varint_bytes(v));
    } else {
        lemma_varints_bytes_push(items.skip(1), v);
        assert(all.skip(1) =~= items.skip(1).push(v));
        assert(varints_bytes(all) =~= varints_bytes(items) + varint_bytes(v));
    }
}

/// The encoding of the first `k` items is no longer than that of all of them.
pub proof fn lemma_varints_bytes_prefix(items: Seq<u64>, k: int)
    requires
        0 <= k <= items.len(),
    ensures
        varints_bytes(items.take(k)).len() <= varints_bytes(items).len(),
    decreases items.len() - k,
{
    if k < items.len() {
        lemma_varints_bytes_prefix(items, k + 1);
        lemma_varints_bytes_push(items.take(k), items[k]);
        assert(items.take(k).push(items[k]) =~= items.take(k + 1));
    } else {
        assert(items.take(k) =~= items);
    }
}

/// Decoded items lie inside the buffer, each is in bounds, and no list of
/// integers is malformed.
pub proof fn lemma_varints_bounds(b: Seq<u8>, pos: int, count: nat)
    requires
        0 <= pos <= b.len(),
    ensures
        varints_at(b, pos, count) matches Outcome::Decoded { value, consumed } ==> {
            &&& value.len() == count
            &&& count <= consumed
            &&& pos + consumed <= b.len()
            &&& all_in_bounds(value)
        },
        !(varints_at(b, pos, count) is Malformed),
    decreases count,
{
    if count > 0 {
        lemma_varint_bounds(b, pos);
        if let Outcome::Decoded { value, consumed } = varint_at(b, pos) {
            lemma_varints_bounds(b, pos + consumed, (count - 1) as nat);
        }
    }
}

/// Bytes that arrive later change nothing about items that were decoded.
pub proof fn lemma_varints_settled(b: Seq<u8>, pos: int, count: nat, rest: Seq<u8>)
    requires
        !(varints_at(b, pos, count) is NeedMoreData),
    ensures
        varints_at(b + rest, pos, count) == varints_at(b, pos, count),
    decreases count,
{
    if count > 0 {
        lemma_varint_bounds(b, pos);
        if let Outcome::Decoded { value, consumed } = varint_at(b, pos) {
            lemma_varint_settled(b, pos, rest);
            lemma_varints_settled(b, pos + consumed, (count - 1) as nat, rest);
        }
    }
}

/// Encoding then decoding gives the items back, wherever the encoding stands.
pub proof fn lemma_varints_round_trip(b: Seq<u8>, pos: int, items: Seq<u64>)
    requires
        all_in_bounds(items),
        holds_at(b, pos, varints_bytes(items)),
    ensures
        varints_at(b, pos, items.len()) == (Outcome::Decoded {
            value: items,
            consumed: varints_bytes(items).len(),
        }),
    decreases items.len(),
{
    if items.len() > 0 {
        let head = varint_bytes(items[0]);
        lemma_holds_at_split(b, pos, head, varints_bytes(items.skip(1)));
        lemma_varint_round_trip(b, pos, items[0]);
        lemma_varints_round_trip(b, pos + head.len(), items.skip(1));
        assert(seq![items[0]] + items.skip(1) =~= items);
        assert(items.skip(1).len() == (items.len() - 1) as nat);
    } else {
        assert(items =~= Seq::<u64>::empty());
    }
}

/// Items that are cut short are completed by zero bytes, and end with them.
pub proof fn lemma_varints_completes(b: Seq<u8>, pos: int, count: nat) -> (ext: Seq<u8>)
    requires
        0 <= pos <= b.len(),
        varints_at(b, pos, count) is NeedMoreData,
    ensures
        varints_at(b + ext, pos, count) matches Outcome::Decoded { consumed, .. } && pos
            + consumed == b.len() + ext.len(),
    decreases count,
{
    lemma_varint_bounds(b, pos);
    if let Outcome::Decoded { value, consumed } = varint_at(b, pos) {
        let ext = lemma_varints_completes(b, pos + consumed, (count - 1) as nat);
        lemma_varint_settled(b, pos, ext);
        ext
    } else {
        let k = lemma_varint_completes(b, pos);
        let b1 = b + zeros(k);
        lemma_varint_bounds(b1, pos);
        let used = varint_at(b1, pos)->consumed;
        lemma_varints_bounds(b1, pos + used, (count - 1) as nat);
        if varints_at(b1, pos + used, (count - 1) as nat) is NeedMoreData {
            let more = lemma_varints_completes(b1, pos + used, (count - 1) as nat);
            lemma_varint_settled(b1, pos, more);
            let ext = zeros(k) + more;
            assert(b + ext =~= b1 + more);
            ext
        } else {
            zeros(k)
        }
    }
}

/// A decoded list lies inside the buffer, its items are in bounds, and no list
/// is malformed.
pub proof fn lemma_list_bounds(b: Seq<u8>, pos: int)
    ensures
        list_at(b, pos) matches Outcome::Decoded { value, consumed } ==> {
            &&& 1 <= consumed
            &&& 0 <= pos
            &&& pos + consumed <= b.len()
            &&& value.len() <= VARINT_MAX
            &&& all_in_bounds(value)
        },
        !(list_at(b, pos) is Malformed),
{
    lemma_varint_bounds(b, pos);
    if let Outcome::Decoded { value: count, consumed } = varint_at(b, pos) {
        lemma_varints_bounds(b, pos + consumed, count as nat);
        if let Outcome::Decoded { value, .. } = varints_at(b, pos + consumed, count as nat) {
            assert(Seq::<u64>::empty() + value =~= value);
        }
    }
}

/// Bytes that arrive later change nothing about a list that was decoded.
pub proof fn lemma_list_settled(b: Seq<u8>, pos: int, rest: Seq<u8>)
    requires
        !(list_at(b, pos) is NeedMoreData),
    ensures
        list_at(b + rest, pos) == list_at(b, pos),
{
    lemma_varint_bounds(b, pos);
    if let Outcome::Decoded { value: count, consumed } = varint_at(b, pos) {
        lemma_varint_settled(b, pos, rest);
        lemma_varints_settled(b, pos + consumed, count as nat, rest);
    }
}

/// Encoding then decoding gives the list back, wherever the encoding stands.
pub proof fn lemma_list_round_trip(b: Seq<u8>, pos: int, items: Seq<u64>)
    requires
        items.len() <= VARINT_MAX,
        all_in_bounds(items),
        holds_at(b, pos, list_bytes(items)),
    ensures
        list_at(b, pos) == (Outcome::Decoded { value: items, consumed: list_bytes(items).len() }),
{
    let head = varint_bytes(items.len() as u64);
    lemma_holds_at_split(b, pos, head, varints_bytes(items));
    lemma_varint_round_trip(b, pos, items.len() as u64);
    lemma_varints_round_trip(b, pos + head.len(), items);
    assert(Seq::<u64>::empty() + items =~= items);
}

/// A list that is cut short is completed by zero bytes, and ends with them.
pub proof fn lemma_list_completes(b: Seq<u8>, pos: int) -> (ext: Seq<u8>)
    requires
        0 <= pos <= b.len(),
        list_at(b, pos) is NeedMoreData,
    ensures
        list_at(b + ext, pos) matches Outcome::Decoded { consumed, .. } && pos + consumed
            == b.len() + ext.len(),
{
    lemma_varint_bounds(b, pos);
    if let Outcome::Decoded { value: count, consumed } = varint_at(b, pos) {
        lemma_varints_bounds(b, pos + consumed, count as nat);
        let ext = lemma_varints_completes(b, pos + consumed, count as nat);
        lemma_varint_settled(b, pos, ext);
        ext
    } else {
        let k = lemma_varint_completes(b, pos);
        let b1 = b + zeros(k);
        lemma_varint_bounds(b1, pos);
        let count = varint_at(b1, pos)->value;
        let used = varint_at(b1, pos)->consumed;
        lemma_varints_bounds(b1, pos + used, count as nat);
        if varints_at(b1, pos + used, count as nat) is NeedMoreData {
            let more = lemma_varints_completes(b1, pos + used, count as nat);
            lemma_varint_settled(b1, pos, more);
            let ext = zeros(k) + more;
            assert(b + ext =~= b1 + more);
            ext
        } else {
            zeros(k)
        }
    }
}

} // verus!
