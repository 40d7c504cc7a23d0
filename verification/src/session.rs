//! Establishing a session on the accepting side.
//!
//! The handshake walks `Idle -> AwaitingClientSetup -> Established`, or ends in
//! `Rejected`. It reads the control stream's first frame, which must be the
//! client's offer, leaves the decision to the caller, and frames the server's
//! answer. The object sender and receiver exist from the start: they do not
//! wait for the handshake.

use crate::coding::{DecodeOutcome, EncodeError, Outcome};
use crate::control::{RecvControl, SendControl};
use crate::message::{Message, MessageView, SetupClient, SetupClientView, SetupServer};
use crate::objects::{RecvObjects, RecvObjectsView, SendObjects};
use crate::varint::VARINT_MAX;
use crate::wire::{after_attempt, Wire};
use vstd::prelude::*;

verus! {

/// The error code with which the session is closed when the first frame of
/// the control stream is not a client's offer.
pub const CODE_PROTOCOL_VIOLATION: u32 = 1;

/// The error code with which the session is closed when the first bytes of
/// the control stream are not a frame.
pub const CODE_MALFORMED: u32 = 2;

/// Where the handshake stands.
#[derive(Debug, Clone, Copy, PartialEq, Eq)]
pub enum HandshakeState {
    Idle,
    AwaitingClientSetup,
    Established,
    Rejected,
}

/// What the caller does next.
#[derive(Debug, Clone, Copy, PartialEq, Eq)]
pub enum Step {
    /// Read more of the control stream and hand it over.
    Wait,
    /// The client's offer is there: accept it or reject it.
    Decide,
    /// Terminate the transport session with this error code.
    Close(u32),
}

/// Why a call changed nothing.
#[derive(Debug, Clone, Copy, PartialEq, Eq)]
pub enum HandshakeError {
    /// The handshake is not at the point at which the call makes sense.
    OutOfOrder,
    /// The server's answer has no encoding.
    Encode(EncodeError),
}

/// An established session: both halves of the control stream, and the sender
/// and receiver of objects.
pub struct Session {
    pub send_control: SendControl,
    pub recv_control: RecvControl,
    pub send_objects: SendObjects,
    pub recv_objects: RecvObjects,
}

/// The handshake, as a mathematical value.
pub struct HandshakeView {
    pub state: HandshakeState,
    /// The client's offer, once it has arrived.
    pub offer: Option<SetupClientView>,
    /// What was read from the control stream and not yet consumed.
    pub buffered: Seq<u8>,
    /// What waits to be written to the control stream.
    pub frame: Seq<u8>,
    /// What waits to be written to a new object stream.
    pub header: Seq<u8>,
    pub objects: RecvObjectsView,
}

impl HandshakeView {
    /// Nothing is ever framed for the control stream before the session is
    /// established, and an offer is held only while it is being decided on,
    /// or after it was accepted.
    pub open spec fn wf(self) -> bool {
        &&& self.state != HandshakeState::Established ==> self.frame.len() == 0
        &&& self.offer is Some ==> self.state == HandshakeState::AwaitingClientSetup || self.state
            == HandshakeState::Established
        &&& self.state == HandshakeState::Established ==> self.offer is Some
        &&& self.objects.wf()
    }

    /// Whether the handshake waits for the first frame of the control stream.
    pub open spec fn awaits_offer(self) -> bool {
        self.state == HandshakeState::AwaitingClientSetup && self.offer is None
    }

    /// Whether the handshake waits for the caller's decision.
    pub open spec fn awaits_decision(self) -> bool {
        self.state == HandshakeState::AwaitingClientSetup && self.offer is Some
    }

    /// The handshake after one look at the control stream, while it waits for
    /// the first frame. A client's offer is kept for the decision; any other
    /// frame, and bytes that are no frame, end the handshake.
    pub open spec fn polled(self) -> HandshakeView {
        match Message::parse(self.buffered) {
            Outcome::NeedMoreData => self,
            Outcome::Decoded { value: MessageView::SetupClient(offer), .. } => HandshakeView {
                offer: Some(offer),
                buffered: after_attempt::<Message>(self.buffered),
                ..self
            },
            Outcome::Decoded { .. } => HandshakeView {
                state: HandshakeState::Rejected,
                buffered: after_attempt::<Message>(self.buffered),
                ..self
            },
            Outcome::Malformed => HandshakeView { state: HandshakeState::Rejected, ..self },
        }
    }

    /// What the caller does after that look.
    pub open spec fn polled_step(self) -> Step {
        match Message::parse(self.buffered) {
            Outcome::NeedMoreData => Step::Wait,
            Outcome::Decoded { value: MessageView::SetupClient(_), .. } => Step::Decide,
            Outcome::Decoded { .. } => Step::Close(CODE_PROTOCOL_VIOLATION),
            Outcome::Malformed => Step::Close(CODE_MALFORMED),
        }
    }

    /// The handshake after the caller rejected the offer.
    pub open spec fn rejected(self) -> HandshakeView {
        HandshakeView { state: HandshakeState::Rejected, offer: None, ..self }
    }

    /// The handshake after the caller accepted the offer with an answer that
    /// has an encoding: the answer is framed, and the session is established.
    pub open spec fn accepted(self, answer: SetupServer) -> HandshakeView {
        HandshakeView {
            state: HandshakeState::Established,
            frame: Message::wire(MessageView::SetupServer(answer)),
            ..self
        }
    }
}

/// The accepting side of the handshake, with everything that the established
/// session will consist of.
pub struct Handshake {
    state: HandshakeState,
    offer: Option<SetupClient>,
    send_control: SendControl,
    recv_control: RecvControl,
    send_objects: SendObjects,
    recv_objects: RecvObjects,
}

impl View for Handshake {
    type V = HandshakeView;

    closed spec fn view(&self) -> HandshakeView {
        HandshakeView {
            state: self.state,
            offer: match self.offer {
                Some(offer) => Some(offer@),
                None => None,
            },
            buffered: self.recv_control@,
            frame: self.send_control@,
            header: self.send_objects@,
            objects: self.recv_objects@,
        }
    }
}

impl Handshake {
    /// A handshake that has not begun. The object receiver decodes at most
    /// `fanout` headers at the same time.
    pub fn new(fanout: usize) -> (h: Self)
        ensures
            h@.wf(),
            h@.state == HandshakeState::Idle,
            h@.offer is None,
            h@.buffered == Seq::<u8>::empty(),
            h@.frame == Seq::<u8>::empty(),
            h@.header == Seq::<u8>::empty(),
            h@.objects == RecvObjects::new_view(fanout),
    {
        Handshake {
            state: HandshakeState::Idle,
            offer: None,
            send_control: SendControl::new(),
            recv_control: RecvControl::new(),
            send_objects: SendObjects::new(),
            recv_objects: RecvObjects::new(fanout),
        }
    }

    /// Where the handshake stands.
    pub fn state(&self) -> (s: HandshakeState)
        ensures
            s == self@.state,
    {
        self.state
    }

    /// Begins the handshake: from `Idle` it now waits for the client's offer.
    /// In any other state nothing changes.
    pub fn start(&mut self) -> (r: Result<(), HandshakeError>)
        ensures
            old(self)@.wf() ==> final(self)@.wf(),
            r is Ok <==> old(self)@.state == HandshakeState::Idle,
            r is Ok ==> final(self)@ == (HandshakeView {
                state: HandshakeState::AwaitingClientSetup,
                ..old(self)@
            }),
            r is Err ==> final(self)@ == old(self)@ && r == Err::<(), HandshakeError>(
                HandshakeError::OutOfOrder,
            ),
    {
        match self.state {
            HandshakeState::Idle => {
                self.state = HandshakeState::AwaitingClientSetup;
                Ok(())
            },
            _ => Err(HandshakeError::OutOfOrder),
        }
    }

    /// The number of bytes read from the control stream and not yet consumed.
    pub fn buffered(&self) -> (n: usize)
        ensures
            n == self@.buffered.len(),
    {
        self.recv_control.len()
    }

    /// Appends bytes that the control stream delivered.
    pub fn push(&mut self, data: &[u8])
        requires
            old(self)@.buffered.len() + data@.len() <= usize::MAX,
        ensures
            final(self)@ == (HandshakeView {
                buffered: old(self)@.buffered + data@,
                ..old(self)@
            }),
    {
        self.recv_control.push(data);
    }

    /// The client's offer, once it has arrived.
    pub fn setup(&self) -> (offer: Option<&SetupClient>)
        ensures
            offer is Some <==> self@.offer is Some,
            offer matches Some(o) ==> Some(o@) == self@.offer,
    {
        self.offer.as_ref()
    }

    /// The frame that waits to be written to the control stream: the
    /// server's answer once the session is established, nothing before.
    pub fn frame(&self) -> (bytes: &[u8])
        ensures
            bytes@ == self@.frame,
    {
        self.send_control.frame()
    }

    /// One look at the control stream. While the handshake waits for the
    /// first frame, this is one decode attempt: a client's offer is kept for
    /// the decision, anything else that is decided ends the handshake, and
    /// missing data changes nothing. While it waits for the decision, the
    /// answer is `Decide` again. Before the start and after the end the call
    /// is out of order.
    pub fn poll(&mut self) -> (r: Result<Step, HandshakeError>)
        ensures
            old(self)@.wf() ==> final(self)@.wf(),
            old(self)@.awaits_offer() ==> final(self)@ == old(self)@.polled() && r == Ok::<
                Step,
                HandshakeError,
            >(old(self)@.polled_step()),
            old(self)@.awaits_decision() ==> final(self)@ == old(self)@ && r == Ok::<
                Step,
                HandshakeError,
            >(Step::Decide),
            old(self)@.state != HandshakeState::AwaitingClientSetup ==> final(self)@ == old(self)@
                && r == Err::<Step, HandshakeError>(HandshakeError::OutOfOrder),
    {
        match self.state {
            HandshakeState::AwaitingClientSetup => {},
            _ => {
                return Err(HandshakeError::OutOfOrder);
            },
        }
        if self.offer.is_some() {
            return Ok(Step::Decide);
        }
        match self.recv_control.recv() {
            DecodeOutcome::NeedMoreData => Ok(Step::Wait),
            DecodeOutcome::Malformed => {
                self.state = HandshakeState::Rejected;
                Ok(Step::Close(CODE_MALFORMED))
            },
            DecodeOutcome::Decoded { value, consumed: _ } => match value {
                Message::SetupClient(offer) => {
                    self.offer = Some(offer);
                    Ok(Step::Decide)
                },
                _ => {
                    self.state = HandshakeState::Rejected;
                    Ok(Step::Close(CODE_PROTOCOL_VIOLATION))
                },
            },
        }
    }

    /// Accepts the client's offer: the answer is framed for the control
    /// stream and the session is established. Out of order unless the offer
    /// is there and undecided; an answer without an encoding changes nothing.
    pub fn accept(&mut self, answer: SetupServer) -> (r: Result<(), HandshakeError>)
        ensures
            old(self)@.wf() ==> final(self)@.wf(),
            r is Ok <==> old(self)@.awaits_decision() && answer.version <= VARINT_MAX,
            r is Ok ==> final(self)@ == old(self)@.accepted(answer),
            r is Err ==> final(self)@ == old(self)@,
            r == Err::<(), HandshakeError>(HandshakeError::OutOfOrder) <==> !old(
                self,
            )@.awaits_decision(),
            old(self)@.awaits_decision() && answer.version > VARINT_MAX ==> r == Err::<
                (),
                HandshakeError,
            >(HandshakeError::Encode(EncodeError::BoundsExceeded)),
    {
        match self.state {
            HandshakeState::AwaitingClientSetup => {},
            _ => {
                return Err(HandshakeError::OutOfOrder);
            },
        }
        if self.offer.is_none() {
            return Err(HandshakeError::OutOfOrder);
        }
        if answer.version > VARINT_MAX {
            return Err(HandshakeError::Encode(EncodeError::BoundsExceeded));
        }
        proof {
            lemma_answer_is_short(answer);
        }
        match self.send_control.send(Message::SetupServer(answer)) {
            Ok(()) => {
                self.state = HandshakeState::Established;
                Ok(())
            },
            Err(e) => Err(HandshakeError::Encode(e)),
        }
    }

    /// Rejects the client's offer: the handshake ends, and the caller is told
    /// to terminate the transport session with `code`. Out of order unless the
    /// offer is there and undecided.
    pub fn reject(&mut self, code: u32) -> (r: Result<Step, HandshakeError>)
        ensures
            old(self)@.wf() ==> final(self)@.wf(),
            r is Ok <==> old(self)@.awaits_decision(),
            r is Ok ==> final(self)@ == old(self)@.rejected() && r == Ok::<Step, HandshakeError>(
                Step::Close(code),
            ),
            r is Err ==> final(self)@ == old(self)@ && r == Err::<Step, HandshakeError>(
                HandshakeError::OutOfOrder,
            ),
    {
        match self.state {
            HandshakeState::AwaitingClientSetup => {},
            _ => {
                return Err(HandshakeError::OutOfOrder);
            },
        }
        if self.offer.is_none() {
            return Err(HandshakeError::OutOfOrder);
        }
        self.offer = None;
        self.state = HandshakeState::Rejected;
        Ok(Step::Close(code))
    }

    /// The established session: the control sender still holds the server's
    /// answer to be written, the control receiver holds what the client sent
    /// after its offer, and the object receiver is as it was. A handshake that
    /// is not established is handed back.
    pub fn into_session(self) -> (r: Result<Session, Handshake>)
        ensures
            r is Ok <==> self@.state == HandshakeState::Established,
            r matches Ok(s) ==> {
                &&& s.send_control@ == self@.frame
                &&& s.recv_control@ == self@.buffered
                &&& s.send_objects@ == self@.header
                &&& s.recv_objects@ == self@.objects
            },
            r matches Err(h) ==> h@ == self@,
    {
        match self.state {
            HandshakeState::Established => Ok(
                Session {
                    send_control: self.send_control,
                    recv_control: self.recv_control,
                    send_objects: self.send_objects,
                    recv_objects: self.recv_objects,
                },
            ),
            _ => Err(self),
        }
    }
}

/// A server's answer takes at most ten bytes.
proof fn lemma_answer_is_short(answer: SetupServer)
    ensures
        Message::wire(MessageView::SetupServer(answer)).len() <= 10,
{
}

/// Handshake ordering, the failing side. If the first frame of the control
/// stream is anything but a client's offer, the handshake is rejected: the
/// caller is told to close the session, nothing is framed for the control
/// stream, and no decision is awaited, so that no answer can follow.
pub proof fn lemma_first_frame_must_be_offer(h: HandshakeView, first: MessageView, rest: Seq<u8>)
    requires
        h.wf(),
        h.awaits_offer(),
        Message::encodable(first),
        !(first is SetupClient),
        h.buffered == Message::wire(first) + rest,
    ensures
        h.polled().state == HandshakeState::Rejected,
        h.polled_step() == Step::Close(CODE_PROTOCOL_VIOLATION),
        h.polled().frame == Seq::<u8>::empty(),
        !h.polled().awaits_decision(),
        h.polled().wf(),
{
    Message::lemma_round_trip(first, rest);
}

/// Handshake ordering, the succeeding side. If the first frame is a client's
/// offer, the decision is the caller's; once the caller accepts, the session
/// is established, the server's answer and nothing else is framed for the
/// control stream, and the control receiver starts at the byte after the
/// offer.
pub proof fn lemma_offer_then_answer_establishes(
    h: HandshakeView,
    offer: SetupClientView,
    answer: SetupServer,
    rest: Seq<u8>,
)
    requires
        h.wf(),
        h.awaits_offer(),
        Message::encodable(MessageView::SetupClient(offer)),
        h.buffered == Message::wire(MessageView::SetupClient(offer)) + rest,
    ensures
        h.polled_step() == Step::Decide,
        h.polled().awaits_decision(),
        h.polled().offer == Some(offer),
        h.polled().frame == Seq::<u8>::empty(),
        h.polled().accepted(answer).state == HandshakeState::Established,
        h.polled().accepted(answer).frame == Message::wire(MessageView::SetupServer(answer)),
        h.polled().accepted(answer).buffered == rest,
        h.polled().accepted(answer).wf(),
{
    let first = MessageView::SetupClient(offer);
    Message::lemma_round_trip(first, rest);
    assert(h.buffered.skip(Message::wire(first).len() as int) =~= rest);
}

} // verus!
