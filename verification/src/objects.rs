//! Objects, each on a stream of its own.
//!
//! The sender frames a header for a new stream. The receiver keeps one decode
//! buffer per accepted stream and hands out each header as soon as it is
//! complete, in the order in which the headers were completed: a stream whose
//! first bytes are late holds up no other.

use crate::buffer::{as_slice, contents};
use crate::coding::{DecodeOutcome, EncodeError, Outcome};
use crate::object::Object;
use crate::wire::Wire;
use bytes::BytesMut;
use std::collections::HashMap;
use std::collections::VecDeque;
use vstd::prelude::*;

verus! {

broadcast use vstd::std_specs::hash::group_hash_axioms;

/// The number of streams whose headers are decoded at the same time, unless
/// the caller chooses another.
pub const DEFAULT_FANOUT: usize = 16;

/// The sending side. Its view is the header that waits to be written as the
/// first bytes of a new stream.
pub struct SendObjects {
    buf: BytesMut,
}

impl View for SendObjects {
    type V = Seq<u8>;

    closed spec fn view(&self) -> Seq<u8> {
        contents(self.buf)
    }
}

impl SendObjects {
    /// A sender with nothing to write.
    pub fn new() -> (s: Self)
        ensures
            s@ == Seq::<u8>::empty(),
    {
        SendObjects { buf: BytesMut::new() }
    }

    /// Frames `header` for a stream that the caller opens: the scratch buffer
    /// is cleared and then holds the encoding of `header` and nothing else. A
    /// header that has no encoding leaves the buffer empty.
    pub fn send(&mut self, header: Object) -> (r: Result<(), EncodeError>)
        ensures
            r is Ok <==> Object::encodable(header) && Object::wire(header).len() <= usize::MAX,
            r is Ok ==> final(self)@ == Object::wire(header),
            r is Err ==> final(self)@ == Seq::<u8>::empty(),
            r == Err::<(), EncodeError>(EncodeError::BoundsExceeded) <==> !Object::encodable(
                header,
            ),
    {
        self.buf.clear();
        let r = header.encode(&mut self.buf);
        if r.is_err() {
            self.buf.clear();
        }
        r
    }

    /// The header that waits to be written.
    pub fn frame(&self) -> (bytes: &[u8])
        ensures
            bytes@ == self@,
    {
        as_slice(&self.buf)
    }
}

/// Why a stream gave no header.
#[derive(Debug, Clone, Copy, PartialEq, Eq)]
pub enum FetchError {
    /// The first bytes of the stream are not a header.
    Malformed,
    /// The stream ended, or failed, before its header was complete.
    NoMoreData,
}

/// What the receiver hands out for one stream, once.
#[derive(Debug, PartialEq, Eq)]
pub enum Delivery {
    /// The header of the object on `stream`. `rest` holds the bytes that were
    /// read after the header: the start of the payload.
    Header { stream: u64, header: Object, rest: Vec<u8> },
    /// The stream will give no header.
    Failed { stream: u64, error: FetchError },
}

/// A delivery, as a mathematical value.
pub enum DeliveryView {
    Header { stream: u64, header: Object, rest: Seq<u8> },
    Failed { stream: u64, error: FetchError },
}

impl DeliveryView {
    /// The stream that the delivery is for.
    pub open spec fn stream(self) -> u64 {
        match self {
            DeliveryView::Header { stream, .. } => stream,
            DeliveryView::Failed { stream, .. } => stream,
        }
    }
}

impl View for Delivery {
    type V = DeliveryView;

    open spec fn view(&self) -> DeliveryView {
        match self {
            Delivery::Header { stream, header, rest } => DeliveryView::Header {
                stream: *stream,
                header: *header,
                rest: rest@,
            },
            Delivery::Failed { stream, error } => DeliveryView::Failed {
                stream: *stream,
                error: *error,
            },
        }
    }
}

/// What became of the bytes handed to the receiver.
#[derive(Debug, Clone, Copy, PartialEq, Eq)]
pub enum Fed {
    /// No header is being decoded for that stream.
    Unknown,
    /// The header is not complete yet.
    Waiting,
    /// The stream is done with: a delivery for it has been queued.
    Ready,
}

/// Why a stream was not taken on.
#[derive(Debug, Clone, Copy, PartialEq, Eq)]
pub enum AcceptError {
    /// The receiver has ended.
    Closed,
    /// As many headers are being decoded as the limit allows.
    Busy,
    /// Every number that a stream can be known by has been given out.
    Exhausted,
}

/// What the receiver has to hand out.
#[derive(Debug, PartialEq, Eq)]
pub enum Next {
    Ready(Delivery),
    /// Nothing is ready: the caller waits for a stream or for bytes.
    Idle,
    /// Nothing is ready and nothing will be: the receiver has ended.
    Closed,
}

/// The receiving side, as a mathematical value.
pub struct RecvObjectsView {
    /// The most headers that are decoded at the same time.
    pub limit: nat,
    /// The streams whose headers are being decoded, each with what has been
    /// read from it.
    pub pending: Map<u64, Seq<u8>>,
    /// The deliveries that wait to be handed out, in the order in which they
    /// were completed.
    pub ready: Seq<DeliveryView>,
    /// Whether the receiver has ended.
    pub closed: bool,
    /// The number that the next accepted stream is known by.
    pub next_stream: u64,
}

impl RecvObjectsView {
    /// No more headers are in flight than the limit allows, and each of them
    /// is in flight because its stream has not delivered enough. Every stream
    /// is known by a number that was given out, and is in one place at most:
    /// in flight, or once in the queue.
    pub open spec fn wf(self) -> bool {
        &&& self.pending.dom().finite()
        &&& self.pending.len() <= self.limit
        &&& forall|stream: u64| #[trigger]
            self.pending.contains_key(stream) ==> stream < self.next_stream && Object::parse(
                self.pending[stream],
            ) is NeedMoreData
        &&& forall|i: int|
            0 <= i < self.ready.len() ==> (#[trigger] self.ready[i]).stream() < self.next_stream
                && !self.pending.contains_key(self.ready[i].stream())
        &&& forall|i: int, j: int|
            0 <= i < j < self.ready.len() ==> (#[trigger] self.ready[i]).stream() != (
            #[trigger] self.ready[j]).stream()
    }

    /// Whether another stream is taken on.
    pub open spec fn can_accept(self) -> bool {
        !self.closed && self.pending.len() < self.limit && self.next_stream < u64::MAX
    }

    /// The receiver after it took on a stream: the stream is in flight under
    /// the next number, with nothing read from it.
    pub open spec fn accepted(self) -> RecvObjectsView {
        RecvObjectsView {
            pending: self.pending.insert(self.next_stream, Seq::empty()),
            next_stream: (self.next_stream + 1) as u64,
            ..self
        }
    }
}

impl RecvObjectsView {
    /// The receiver after `data` arrived on `stream`, which is in flight. A
    /// header that is complete, or can never be, takes the stream out of
    /// flight and queues its delivery behind those already queued; otherwise
    /// the bytes are kept for the next attempt.
    pub open spec fn fed(self, stream: u64, data: Seq<u8>) -> RecvObjectsView {
        let all = self.pending[stream] + data;
        match fetched(self.pending[stream], data) {
            Outcome::NeedMoreData => RecvObjectsView {
                pending: self.pending.insert(stream, all),
                ..self
            },
            Outcome::Decoded { value, consumed } => RecvObjectsView {
                pending: self.pending.remove(stream),
                ready: self.ready.push(
                    DeliveryView::Header { stream, header: value, rest: all.skip(consumed as int) },
                ),
                ..self
            },
            Outcome::Malformed => RecvObjectsView {
                pending: self.pending.remove(stream),
                ready: self.ready.push(
                    DeliveryView::Failed { stream, error: FetchError::Malformed },
                ),
                ..self
            },
        }
    }

    /// The receiver after `stream`, which is in flight, ended or failed: its
    /// failure is queued behind the deliveries already queued.
    pub open spec fn finished(self, stream: u64) -> RecvObjectsView {
        RecvObjectsView {
            pending: self.pending.remove(stream),
            ready: self.ready.push(DeliveryView::Failed { stream, error: FetchError::NoMoreData }),
            ..self
        }
    }
}

/// What the decode step of one stream makes of the bytes `held` so far and
/// the bytes `data` that arrived: all of them are decoded from the start.
pub open spec fn fetched(held: Seq<u8>, data: Seq<u8>) -> Outcome<Object> {
    Object::parse(held + data)
}

/// The receiving side: one decode buffer for each stream in flight, and a
/// queue of what is ready.
pub struct RecvObjects {
    limit: usize,
    pending: HashMap<u64, Vec<u8>>,
    ready: VecDeque<Delivery>,
    closed: bool,
    next_stream: u64,
}

impl View for RecvObjects {
    type V = RecvObjectsView;

    closed spec fn view(&self) -> RecvObjectsView {
        RecvObjectsView {
            limit: self.limit as nat,
            pending: self.pending@.map_values(|buf: Vec<u8>| buf@),
            ready: self.ready@.map_values(|d: Delivery| d@),
            closed: self.closed,
            next_stream: self.next_stream,
        }
    }
}

impl RecvObjects {
    /// A receiver with nothing in flight and nothing ready.
    pub open spec fn new_view(limit: usize) -> RecvObjectsView {
        RecvObjectsView {
            limit: limit as nat,
            pending: Map::empty(),
            ready: Seq::empty(),
            closed: false,
            next_stream: 0,
        }
    }

    /// A receiver that decodes at most `limit` headers at the same time.
    pub fn new(limit: usize) -> (r: Self)
        ensures
            r@ == Self::new_view(limit),
            r@.wf(),
    {
        let r = RecvObjects {
            limit,
            pending: HashMap::new(),
            ready: VecDeque::new(),
            closed: false,
            next_stream: 0,
        };
        assert(r@.pending =~= Map::<u64, Seq<u8>>::empty());
        assert(r@.ready =~= Seq::<DeliveryView>::empty());
        r
    }

    /// The decode step of one stream: appends what arrived to the stream's
    /// buffer and decodes from the start of the buffer.
    pub fn fetch(buf: &mut Vec<u8>, data: &[u8]) -> (r: DecodeOutcome<Object>)
        ensures
            final(buf)@ == old(buf)@ + data@,
            r@ == fetched(old(buf)@, data@),
    {
        buf.extend_from_slice(data);
        assert(buf@ =~= old(buf)@ + data@);
        Object::decode(buf.as_slice())
    }

    /// Whether the receiver takes on another stream: it has not ended, fewer
    /// headers are in flight than the limit allows, and a number is left for
    /// the stream.
    pub fn can_accept(&self) -> (ok: bool)
        ensures
            ok == self@.can_accept(),
    {
        proof {
            assert(self@.pending.dom() =~= self.pending@.dom());
        }
        !self.closed && self.pending.len() < self.limit && self.next_stream < u64::MAX
    }

    /// Takes on a stream that the session accepted, and returns the number by
    /// which the receiver knows it from now on: a decode buffer is set up for
    /// it, empty. Refused, with nothing changed, when the receiver has ended,
    /// when the limit is reached, or when the numbers have run out, in this
    /// order.
    pub fn accept(&mut self) -> (r: Result<u64, AcceptError>)
        ensures
            old(self)@.wf() ==> final(self)@.wf(),
            r is Ok <==> old(self)@.can_accept(),
            r matches Ok(stream) ==> stream == old(self)@.next_stream && final(self)@ == old(
                self,
            )@.accepted(),
            r matches Err(e) ==> final(self)@ == old(self)@ && e == (if old(self)@.closed {
                AcceptError::Closed
            } else if old(self)@.pending.len() >= old(self)@.limit {
                AcceptError::Busy
            } else {
                AcceptError::Exhausted
            }),
    {
        proof {
            assert(self@.pending.dom() =~= self.pending@.dom());
        }
        if self.closed {
            return Err(AcceptError::Closed);
        }
        if self.pending.len() >= self.limit {
            return Err(AcceptError::Busy);
        }
        if self.next_stream == u64::MAX {
            return Err(AcceptError::Exhausted);
        }
        let ghost before = self@;
        let stream = self.next_stream;
        self.pending.insert(stream, Vec::new());
        self.next_stream = stream + 1;
        proof {
            assert(self@.pending =~= before.pending.insert(stream, Seq::empty()));
            assert(self@.pending.dom() =~= before.pending.dom().insert(stream));
            assert(self@.ready == before.ready);
            if before.wf() {
                assert forall|i: int| 0 <= i < self@.ready.len() implies (
                #[trigger] self@.ready[i]).stream() < self@.next_stream
                    && !self@.pending.contains_key(self@.ready[i].stream()) by {
                    assert(before.ready[i].stream() < before.next_stream);
                }
            }
        }
        Ok(stream)
    }

    /// Hands the receiver the bytes that arrived on `stream`, and runs that
    /// stream's decode step. No other stream is touched.
    pub fn feed(&mut self, stream: u64, data: &[u8]) -> (r: Fed)
        ensures
            old(self)@.wf() ==> final(self)@.wf(),
            !old(self)@.pending.contains_key(stream) ==> r == Fed::Unknown && final(self)@ == old(
                self,
            )@,
            old(self)@.pending.contains_key(stream) ==> final(self)@ == old(self)@.fed(
                stream,
                data@,
            ),
            old(self)@.pending.contains_key(stream) ==> r == (if fetched(
                old(self)@.pending[stream],
                data@,
            ) is NeedMoreData {
                Fed::Waiting
            } else {
                Fed::Ready
            }),
    {
        let ghost before = self@;
        proof {
            assert(self@.pending.dom() =~= self.pending@.dom());
        }
        match self.pending.remove(&stream) {
            None => {
                assert(self@.pending =~= before.pending);
                Fed::Unknown
            },
            Some(mut buf) => {
                let ghost held = buf@;
                assert(held == before.pending[stream]);
                assert(self@.pending =~= before.pending.remove(stream));
                let outcome = Self::fetch(&mut buf, data);
                match outcome {
                    DecodeOutcome::NeedMoreData => {
                        self.pending.insert(stream, buf);
                        proof {
                            assert(self@.pending =~= before.pending.insert(stream, held + data@));
                            assert(self@.pending.dom() =~= before.pending.dom());
                        }
                        Fed::Waiting
                    },
                    DecodeOutcome::Decoded { value, consumed } => {
                        proof {
                            Object::lemma_settled(buf@, Seq::empty());
                        }
                        let rest = buf.split_off(consumed);
                        let ghost queued = self.ready@;
                        self.ready.push_back(Delivery::Header { stream, header: value, rest });
                        proof {
                            assert(rest@ =~= (held + data@).skip(consumed as int));
                            assert(self@.ready =~= before.ready.push(
                                DeliveryView::Header {
                                    stream,
                                    header: value,
                                    rest: (held + data@).skip(consumed as int),
                                },
                            ));
                        }
                        Fed::Ready
                    },
                    DecodeOutcome::Malformed => {
                        self.ready.push_back(
                            Delivery::Failed { stream, error: FetchError::Malformed },
                        );
                        proof {
                            assert(self@.ready =~= before.ready.push(
                                DeliveryView::Failed { stream, error: FetchError::Malformed },
                            ));
                        }
                        Fed::Ready
                    },
                }
            },
        }
    }

    /// Tells the receiver that `stream` ended or failed. If its header was in
    /// flight, the stream's failure is queued and `true` is returned; otherwise
    /// nothing changes.
    pub fn finish(&mut self, stream: u64) -> (known: bool)
        ensures
            old(self)@.wf() ==> final(self)@.wf(),
            known == old(self)@.pending.contains_key(stream),
            known ==> final(self)@ == old(self)@.finished(stream),
            !known ==> final(self)@ == old(self)@,
    {
        let ghost before = self@;
        proof {
            assert(self@.pending.dom() =~= self.pending@.dom());
        }
        match self.pending.remove(&stream) {
            None => {
                assert(self@.pending =~= before.pending);
                false
            },
            Some(_) => {
                assert(self@.pending =~= before.pending.remove(stream));
                self.ready.push_back(Delivery::Failed { stream, error: FetchError::NoMoreData });
                proof {
                    assert(self@.ready =~= before.ready.push(
                        DeliveryView::Failed { stream, error: FetchError::NoMoreData },
                    ));
                }
                true
            },
        }
    }

    /// Ends the receiver, because the session accepts no more streams. The
    /// headers in flight are given up; what was ready can still be taken.
    pub fn close(&mut self)
        ensures
            final(self)@ == (RecvObjectsView {
                pending: Map::empty(),
                closed: true,
                ..old(self)@
            }),
            old(self)@.wf() ==> final(self)@.wf(),
    {
        self.closed = true;
        self.pending.clear();
        proof {
            assert(self@.pending =~= Map::<u64, Seq<u8>>::empty());
        }
    }

    /// The delivery that was completed first among those not yet handed out.
    /// With none ready, tells whether any can follow.
    pub fn next(&mut self) -> (r: Next)
        ensures
            match r {
                Next::Ready(d) => {
                    &&& old(self)@.ready.len() > 0
                    &&& d@ == old(self)@.ready[0]
                    &&& final(self)@ == (RecvObjectsView {
                        ready: old(self)@.ready.skip(1),
                        ..old(self)@
                    })
                },
                Next::Idle => {
                    &&& old(self)@.ready.len() == 0
                    &&& !old(self)@.closed
                    &&& final(self)@ == old(self)@
                },
                Next::Closed => {
                    &&& old(self)@.ready.len() == 0
                    &&& old(self)@.closed
                    &&& final(self)@ == old(self)@
                },
            },
            old(self)@.wf() ==> final(self)@.wf(),
    {
        let ghost before = self@;
        match self.ready.pop_front() {
            Some(d) => {
                proof {
                    assert(self@.ready =~= before.ready.skip(1));
                }
                Next::Ready(d)
            },
            None => {
                proof {
                    assert(self@.ready =~= before.ready);
                }
                if self.closed {
                    Next::Closed
                } else {
                    Next::Idle
                }
            },
        }
    }
}

/// Out-of-order delivery. Of two streams in flight, the one whose header
/// arrives first is delivered first, whichever was accepted first, and the
/// other is delivered once its own header has arrived. While the late stream
/// is silent the early one is not held up, and in the end each of the two has
/// been queued exactly once, with the bytes that followed its header.
pub proof fn lemma_late_stream_holds_up_no_other(
    v: RecvObjectsView,
    late: u64,
    early: u64,
    late_header: Object,
    early_header: Object,
    late_payload: Seq<u8>,
    early_payload: Seq<u8>,
)
    requires
        v.wf(),
        late != early,
        v.pending.contains_key(late),
        v.pending.contains_key(early),
        v.pending[late] == Seq::<u8>::empty(),
        v.pending[early] == Seq::<u8>::empty(),
        Object::encodable(late_header),
        Object::encodable(early_header),
    ensures
        ({
            let first = v.fed(early, Object::wire(early_header) + early_payload);
            let second = first.fed(late, Object::wire(late_header) + late_payload);
            let early_delivery = DeliveryView::Header {
                stream: early,
                header: early_header,
                rest: early_payload,
            };
            let late_delivery = DeliveryView::Header {
                stream: late,
                header: late_header,
                rest: late_payload,
            };
            &&& first.ready == v.ready.push(early_delivery)
            &&& first.pending == v.pending.remove(early)
            &&& first.pending.contains_key(late)
            &&& first.wf()
            &&& second.ready == v.ready.push(early_delivery).push(late_delivery)
            &&& second.pending == v.pending.remove(early).remove(late)
            &&& second.wf()
        }),
{
    let early_bytes = Object::wire(early_header) + early_payload;
    let late_bytes = Object::wire(late_header) + late_payload;
    Object::lemma_round_trip(early_header, early_payload);
    Object::lemma_round_trip(late_header, late_payload);
    assert(Seq::<u8>::empty() + early_bytes =~= early_bytes);
    assert(Seq::<u8>::empty() + late_bytes =~= late_bytes);
    assert(early_bytes.skip(Object::wire(early_header).len() as int) =~= early_payload);
    assert(late_bytes.skip(Object::wire(late_header).len() as int) =~= late_payload);
    let first = v.fed(early, early_bytes);
    assert(first.pending[late] == Seq::<u8>::empty());
}

/// Whatever arrives on a stream, every other stream in flight keeps its
/// buffer, and what was queued before stays queued in the same order.
pub proof fn lemma_streams_are_independent(
    v: RecvObjectsView,
    stream: u64,
    data: Seq<u8>,
    other: u64,
)
    requires
        v.wf(),
        v.pending.contains_key(stream),
        v.pending.contains_key(other),
        other != stream,
    ensures
        v.fed(stream, data).pending.contains_key(other),
        v.fed(stream, data).pending[other] == v.pending[other],
        v.ready.is_prefix_of(v.fed(stream, data).ready),
        v.fed(stream, data).ready.len() <= v.ready.len() + 1,
        v.fed(stream, data).wf(),
{
    let after = v.fed(stream, data);
    match fetched(v.pending[stream], data) {
        Outcome::NeedMoreData => {
            assert(after.pending.dom() =~= v.pending.dom());
        },
        _ => {},
    }
}

} // verus!
