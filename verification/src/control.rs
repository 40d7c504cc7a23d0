//! The two halves of the control stream: framing on the way out, the
//! decode-retry discipline on the way in.
//!
//! Neither half touches a stream. The sender leaves each frame in a scratch
//! buffer for the caller to write in one call; the receiver is fed the bytes
//! that the caller has read.

use crate::buffer::{advance, as_slice, contents};
use crate::coding::{DecodeOutcome, EncodeError, Outcome};
use crate::message::{Message, MessageView};
use crate::wire::{after_attempt, concat, drain, frames, lemma_frames_round_trip, retry, Retried, Wire};
use bytes::BytesMut;
use std::collections::VecDeque;
use vstd::prelude::*;
use vstd::slice::slice_to_vec;

verus! {

/// The sending half of the control stream. Its view is the frame that waits
/// to be written.
pub struct SendControl {
    buf: BytesMut,
}

impl View for SendControl {
    type V = Seq<u8>;

    closed spec fn view(&self) -> Seq<u8> {
        contents(self.buf)
    }
}

impl SendControl {
    /// A sender with nothing to write.
    pub fn new() -> (s: Self)
        ensures
            s@ == Seq::<u8>::empty(),
    {
        SendControl { buf: BytesMut::new() }
    }

    /// Frames `msg`: the scratch buffer is cleared and then holds the
    /// encoding of `msg` and nothing else, to be written to the stream in one
    /// call. A message that has no encoding leaves the buffer empty.
    pub fn send(&mut self, msg: Message) -> (r: Result<(), EncodeError>)
        ensures
            r is Ok <==> Message::encodable(msg@) && Message::wire(msg@).len() <= usize::MAX,
            r is Ok ==> final(self)@ == Message::wire(msg@),
            r is Err ==> final(self)@ == Seq::<u8>::empty(),
            r == Err::<(), EncodeError>(EncodeError::BoundsExceeded) <==> !Message::encodable(
                msg@,
            ),
    {
        self.buf.clear();
        let r = msg.encode(&mut self.buf);
        if r.is_err() {
            self.buf.clear();
        }
        r
    }

    /// The frame that waits to be written.
    pub fn frame(&self) -> (bytes: &[u8])
        ensures
            bytes@ == self@,
    {
        as_slice(&self.buf)
    }

    /// Turns the sender into one that several producers can use in turn.
    pub fn share(self) -> (shared: SharedControl)
        ensures
            shared@ == Seq::<Seq<u8>>::empty(),
    {
        let shared = SharedControl { sender: self, outbox: VecDeque::new() };
        assert(shared@ =~= Seq::<Seq<u8>>::empty());
        shared
    }
}

/// A sender for several producers. Whoever has exclusive access to it hands
/// in one message at a time; each message becomes one whole frame, and the
/// frames leave in the order in which the messages were handed in. That
/// order is the order in which the producers got access, not the order in
/// which they asked for it. Its view is the frames that wait to be written.
pub struct SharedControl {
    sender: SendControl,
    outbox: VecDeque<Vec<u8>>,
}

impl View for SharedControl {
    type V = Seq<Seq<u8>>;

    closed spec fn view(&self) -> Seq<Seq<u8>> {
        self.outbox@.map_values(|frame: Vec<u8>| frame@)
    }
}

impl SharedControl {
    /// Hands in `msg`: it is framed by the wrapped sender, and the frame is
    /// queued behind those that wait. A message that has no encoding changes
    /// nothing.
    pub fn send(&mut self, msg: Message) -> (r: Result<(), EncodeError>)
        ensures
            r is Ok <==> Message::encodable(msg@) && Message::wire(msg@).len() <= usize::MAX,
            r is Ok ==> final(self)@ == old(self)@.push(Message::wire(msg@)),
            r is Err ==> final(self)@ == old(self)@,
            r == Err::<(), EncodeError>(EncodeError::BoundsExceeded) <==> !Message::encodable(
                msg@,
            ),
    {
        let ghost before = self@;
        let r = self.sender.send(msg);
        if r.is_ok() {
            let frame = slice_to_vec(self.sender.frame());
            self.outbox.push_back(frame);
            assert(self@ =~= before.push(Message::wire(msg@)));
        }
        r
    }

    /// The frame to write next, whole: the one that has waited longest.
    pub fn next_frame(&mut self) -> (frame: Option<Vec<u8>>)
        ensures
            match frame {
                Some(bytes) => old(self)@.len() > 0 && bytes@ == old(self)@[0] && final(self)@
                    == old(self)@.skip(1),
                None => old(self)@.len() == 0 && final(self)@ == old(self)@,
            },
    {
        let ghost before = self@;
        let frame = self.outbox.pop_front();
        proof {
            if frame is Some {
                assert(self@ =~= before.skip(1));
            } else {
                assert(self@ =~= before);
            }
        }
        frame
    }
}

/// The frames of the messages, each whole, in the order of the messages.
pub open spec fn wires(msgs: Seq<MessageView>) -> Seq<Seq<u8>> {
    Seq::new(msgs.len(), |i: int| Message::wire(msgs[i]))
}

/// Messages that went through a shared sender arrive fully formed. Whatever
/// the order in which the producers got their turn, the frames that were
/// queued in that order and written one after the other are decoded by the
/// peer as the same messages in the same order: no message is cut into, or
/// mixed with, another.
pub proof fn lemma_shared_sends_arrive_whole(msgs: Seq<MessageView>, rest: Seq<u8>)
    requires
        forall|i: int| 0 <= i < msgs.len() ==> Message::encodable(#[trigger] msgs[i]),
    ensures
        concat(wires(msgs)) == frames::<Message>(msgs),
        drain::<Message>(concat(wires(msgs)) + rest, msgs.len()) == (msgs, rest),
{
    lemma_frames_round_trip::<Message>(msgs, rest);
    lemma_wires_are_frames(msgs);
}

proof fn lemma_wires_are_frames(msgs: Seq<MessageView>)
    ensures
        concat(wires(msgs)) == frames::<Message>(msgs),
    decreases msgs.len(),
{
    if msgs.len() > 0 {
        lemma_wires_are_frames(msgs.skip(1));
        assert(wires(msgs).skip(1) =~= wires(msgs.skip(1)));
    }
}

/// The receiving half of the control stream. Its view is what has been read
/// from the stream and not yet consumed by a decoded message.
pub struct RecvControl {
    buf: BytesMut,
}

impl View for RecvControl {
    type V = Seq<u8>;

    closed spec fn view(&self) -> Seq<u8> {
        contents(self.buf)
    }
}

/// What each chunk holds.
pub open spec fn chunk_views(chunks: Seq<Vec<u8>>) -> Seq<Seq<u8>> {
    Seq::new(chunks.len(), |i: int| chunks[i]@)
}

impl RecvControl {
    /// A receiver that has read nothing.
    pub fn new() -> (r: Self)
        ensures
            r@ == Seq::<u8>::empty(),
    {
        RecvControl { buf: BytesMut::new() }
    }

    /// The number of bytes read and not yet consumed.
    pub fn len(&self) -> (n: usize)
        ensures
            n == self@.len(),
    {
        self.buf.len()
    }

    /// Appends bytes that the stream delivered.
    pub fn push(&mut self, data: &[u8])
        requires
            old(self)@.len() + data@.len() <= usize::MAX,
        ensures
            final(self)@ == old(self)@ + data@,
    {
        self.buf.extend_from_slice(data);
    }

    /// One decode attempt, from the start of the buffer. A decoded message is
    /// removed from the buffer, which then starts at the byte after it;
    /// otherwise the buffer is left as it is.
    pub fn recv(&mut self) -> (r: DecodeOutcome<Message>)
        ensures
            r@ == Message::parse(old(self)@),
            final(self)@ == after_attempt::<Message>(old(self)@),
            r@ matches Outcome::Decoded { consumed, .. } ==> final(self)@.len() == old(self)@.len()
                - consumed,
    {
        let r = Message::decode(as_slice(&self.buf));
        if let DecodeOutcome::Decoded { value: _, consumed } = &r {
            proof {
                Message::lemma_settled(self@, Seq::empty());
            }
            advance(&mut self.buf, *consumed);
        }
        r
    }

    /// The decode-retry loop over chunks that have arrived: attempts to
    /// decode, and while data is missing appends the next chunk and attempts
    /// again from the start of the buffer. Returns the outcome and the number
    /// of chunks taken; `NeedMoreData` means that every chunk was taken.
    pub fn recv_chunks(&mut self, chunks: &[Vec<u8>]) -> (r: (DecodeOutcome<Message>, usize))
        requires
            old(self)@.len() + concat(chunk_views(chunks@)).len() <= usize::MAX,
        ensures
            r.0@ == retry::<Message>(old(self)@, chunk_views(chunks@)).outcome,
            r.1 == retry::<Message>(old(self)@, chunk_views(chunks@)).used,
            final(self)@ == retry::<Message>(old(self)@, chunk_views(chunks@)).buffered,
    {
        let ghost all = chunk_views(chunks@);
        let total: usize = chunks.len();
        let mut used: usize = 0;
        assert(all.skip(0) =~= all);
        loop
            invariant
                used <= total,
                total == chunks@.len(),
                all == chunk_views(chunks@),
                self@.len() + concat(all.skip(used as int)).len() <= usize::MAX,
                retry::<Message>(old(self)@, all) == (Retried::<MessageView> {
                    outcome: retry::<Message>(self@, all.skip(used as int)).outcome,
                    used: retry::<Message>(self@, all.skip(used as int)).used + used as nat,
                    buffered: retry::<Message>(self@, all.skip(used as int)).buffered,
                }),
            decreases total - used,
        {
            let ghost before = self@;
            let attempt = self.recv();
            match attempt {
                DecodeOutcome::NeedMoreData => {
                    if used == total {
                        return (DecodeOutcome::NeedMoreData, used);
                    }
                    proof {
                        assert(all.skip(used as int)[0] == chunks@[used as int]@);
                        assert(all.skip(used as int).skip(1) =~= all.skip(used + 1));
                    }
                    self.push(chunks[used].as_slice());
                    used = used + 1;
                },
                other => {
                    return (other, used);
                },
            }
        }
    }
}

} // verus!
