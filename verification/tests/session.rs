use moq_transport::coding::{DecodeOutcome, EncodeError};
use moq_transport::varint::VARINT_MAX;
use moq_transport::control::SendControl;
use moq_transport::message::{Message, Role, SetupClient, SetupServer};
use moq_transport::object::Object;
use moq_transport::objects::{Fed, Next};
use moq_transport::session::{
    Handshake, HandshakeError, HandshakeState, Step, CODE_MALFORMED, CODE_PROTOCOL_VIOLATION,
};

fn wire(msg: Message) -> Vec<u8> {
    let mut sender = SendControl::new();
    sender.send(msg).unwrap();
    sender.frame().to_vec()
}

fn offer() -> SetupClient {
    SetupClient { versions: vec![0xff00, 1], role: Role::Subscriber }
}

fn answer() -> SetupServer {
    SetupServer { version: 1, role: Role::Publisher }
}

fn started() -> Handshake {
    let mut h = Handshake::new(16);
    assert_eq!(h.state(), HandshakeState::Idle);
    assert_eq!(h.start(), Ok(()));
    assert_eq!(h.state(), HandshakeState::AwaitingClientSetup);
    h
}

#[test]
fn offer_then_answer_establishes_the_session() {
    let mut h = started();
    assert_eq!(h.poll(), Ok(Step::Wait));
    assert_eq!(h.buffered(), 0);
    h.push(&wire(Message::SetupClient(offer())));
    assert_eq!(h.buffered(), 8);
    assert!(h.setup().is_none());
    assert_eq!(h.poll(), Ok(Step::Decide));
    assert_eq!(h.buffered(), 0);
    assert_eq!(h.setup(), Some(&offer()));
    assert_eq!(h.state(), HandshakeState::AwaitingClientSetup);
    assert!(h.frame().is_empty());
    assert_eq!(h.accept(answer()), Ok(()));
    assert_eq!(h.state(), HandshakeState::Established);
    assert_eq!(h.frame(), &[0x02, 0x01, 0x01]);

    let mut session = match h.into_session() {
        Ok(session) => session,
        Err(_) => panic!("not established"),
    };
    assert_eq!(session.send_control.frame(), &[0x02, 0x01, 0x01]);
    assert_eq!(session.recv_control.len(), 0);
    session.send_control.send(Message::SubscribeOk { track: 3 }).unwrap();
    assert_eq!(session.send_control.frame(), &[0x04, 0x03]);
    session.recv_control.push(&[0x04, 0x05]);
    assert_eq!(
        session.recv_control.recv(),
        DecodeOutcome::Decoded { value: Message::SubscribeOk { track: 5 }, consumed: 2 }
    );
    let header = Object { track: 1, group: 2, sequence: 3, send_order: 4 };
    session.send_objects.send(header).unwrap();
    let frame = session.send_objects.frame().to_vec();
    assert_eq!(session.recv_objects.accept(), Ok(0));
    assert_eq!(session.recv_objects.feed(0, &frame), Fed::Ready);
    assert!(matches!(session.recv_objects.next(), Next::Ready(_)));
}

#[test]
fn first_frame_other_than_an_offer_is_rejected_and_nothing_is_sent() {
    let others = vec![
        Message::SetupServer(answer()),
        Message::Subscribe { track: 1, name: b"a".to_vec() },
        Message::SubscribeOk { track: 1 },
        Message::Announce { namespace: b"a".to_vec() },
        Message::GoAway { url: b"a".to_vec() },
    ];
    for first in others {
        let mut h = started();
        h.push(&wire(first));
        h.push(&wire(Message::SetupClient(offer())));
        assert_eq!(h.poll(), Ok(Step::Close(CODE_PROTOCOL_VIOLATION)));
        assert_eq!(h.state(), HandshakeState::Rejected);
        assert!(h.frame().is_empty());
        assert!(h.setup().is_none());
        assert_eq!(h.poll(), Err(HandshakeError::OutOfOrder));
        assert_eq!(h.accept(answer()), Err(HandshakeError::OutOfOrder));
        assert_eq!(h.reject(7), Err(HandshakeError::OutOfOrder));
        assert_eq!(h.state(), HandshakeState::Rejected);
        assert!(h.frame().is_empty());
        assert!(h.into_session().is_err());
    }
}

#[test]
fn bytes_that_are_no_frame_are_rejected() {
    let mut h = started();
    h.push(&[0x7f, 0x01]);
    assert_eq!(h.poll(), Ok(Step::Close(CODE_MALFORMED)));
    assert_eq!(h.state(), HandshakeState::Rejected);
    assert!(h.frame().is_empty());
    assert_eq!(h.accept(answer()), Err(HandshakeError::OutOfOrder));
}

#[test]
fn offer_in_pieces_is_waited_for() {
    let bytes = wire(Message::SetupClient(offer()));
    let mut h = started();
    for (i, byte) in bytes.iter().enumerate() {
        assert_eq!(h.poll(), Ok(Step::Wait));
        assert_eq!(h.accept(answer()), Err(HandshakeError::OutOfOrder));
        assert_eq!(h.reject(1), Err(HandshakeError::OutOfOrder));
        h.push(&[*byte]);
        if i + 1 < bytes.len() {
            assert_eq!(h.poll(), Ok(Step::Wait));
        }
    }
    assert_eq!(h.poll(), Ok(Step::Decide));
    assert_eq!(h.poll(), Ok(Step::Decide));
    assert_eq!(h.setup(), Some(&offer()));
}

#[test]
fn what_follows_the_offer_is_kept_for_the_session() {
    let mut bytes = wire(Message::SetupClient(offer()));
    bytes.extend_from_slice(&wire(Message::Subscribe { track: 4, name: b"t".to_vec() }));
    let mut h = started();
    h.push(&bytes);
    assert_eq!(h.poll(), Ok(Step::Decide));
    assert_eq!(h.accept(answer()), Ok(()));
    let mut session = h.into_session().ok().unwrap();
    assert_eq!(
        session.recv_control.recv(),
        DecodeOutcome::Decoded {
            value: Message::Subscribe { track: 4, name: b"t".to_vec() },
            consumed: 4
        }
    );
    assert_eq!(session.recv_control.len(), 0);
}

#[test]
fn rejecting_the_offer_closes_with_the_given_code() {
    let mut h = started();
    h.push(&wire(Message::SetupClient(offer())));
    assert_eq!(h.poll(), Ok(Step::Decide));
    assert_eq!(h.reject(0x33), Ok(Step::Close(0x33)));
    assert_eq!(h.state(), HandshakeState::Rejected);
    assert!(h.setup().is_none());
    assert!(h.frame().is_empty());
    assert_eq!(h.accept(answer()), Err(HandshakeError::OutOfOrder));
    assert_eq!(h.reject(0x33), Err(HandshakeError::OutOfOrder));
    assert!(h.into_session().is_err());
}

#[test]
fn answer_without_an_encoding_changes_nothing() {
    let mut h = started();
    h.push(&wire(Message::SetupClient(offer())));
    assert_eq!(h.poll(), Ok(Step::Decide));
    let bad = SetupServer { version: VARINT_MAX + 1, role: Role::Both };
    assert_eq!(h.accept(bad), Err(HandshakeError::Encode(EncodeError::BoundsExceeded)));
    assert_eq!(h.state(), HandshakeState::AwaitingClientSetup);
    assert!(h.frame().is_empty());
    assert_eq!(h.setup(), Some(&offer()));
    assert_eq!(h.accept(answer()), Ok(()));
    assert_eq!(h.state(), HandshakeState::Established);
}

#[test]
fn calls_before_the_start_and_after_the_end_are_out_of_order() {
    let mut h = Handshake::new(16);
    assert_eq!(h.poll(), Err(HandshakeError::OutOfOrder));
    assert_eq!(h.accept(answer()), Err(HandshakeError::OutOfOrder));
    assert_eq!(h.reject(1), Err(HandshakeError::OutOfOrder));
    assert_eq!(h.state(), HandshakeState::Idle);
    assert_eq!(h.start(), Ok(()));
    assert_eq!(h.start(), Err(HandshakeError::OutOfOrder));
    h.push(&wire(Message::SetupClient(offer())));
    assert_eq!(h.poll(), Ok(Step::Decide));
    assert_eq!(h.accept(answer()), Ok(()));
    assert_eq!(h.start(), Err(HandshakeError::OutOfOrder));
    assert_eq!(h.poll(), Err(HandshakeError::OutOfOrder));
    assert_eq!(h.accept(answer()), Err(HandshakeError::OutOfOrder));
    assert_eq!(h.reject(1), Err(HandshakeError::OutOfOrder));
    assert_eq!(h.state(), HandshakeState::Established);
    assert_eq!(h.frame(), &[0x02, 0x01, 0x01]);
}

#[test]
fn handshake_that_is_not_established_is_handed_back() {
    let h = started();
    let mut h = match h.into_session() {
        Ok(_) => panic!("established"),
        Err(h) => h,
    };
    assert_eq!(h.state(), HandshakeState::AwaitingClientSetup);
    assert_eq!(h.poll(), Ok(Step::Wait));
}
