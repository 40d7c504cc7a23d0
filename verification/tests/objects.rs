use moq_transport::coding::{DecodeOutcome, EncodeError};
use moq_transport::varint::VARINT_MAX;
use moq_transport::object::Object;
use moq_transport::objects::{
    AcceptError, Delivery, Fed, FetchError, Next, RecvObjects, SendObjects, DEFAULT_FANOUT,
};
use moq_transport::wire::Wire;

fn header(track: u64, sequence: u64) -> Object {
    Object { track, group: 2, sequence, send_order: 100 }
}

fn frame_of(h: Object) -> Vec<u8> {
    let mut sender = SendObjects::new();
    sender.send(h).unwrap();
    sender.frame().to_vec()
}

#[test]
fn header_frame_is_tag_and_four_numbers() {
    let h = Object { track: 1, group: 64, sequence: 3, send_order: 16384 };
    assert_eq!(frame_of(h), vec![0x00, 0x01, 0x40, 0x40, 0x03, 0x80, 0x00, 0x40, 0x00]);
}

#[test]
fn header_round_trips_in_chunks_of_every_size() {
    let h = Object { track: VARINT_MAX, group: 0, sequence: 70_000, send_order: 63 };
    let frame = frame_of(h);
    assert_eq!(Object::decode(&frame), DecodeOutcome::Decoded { value: h, consumed: frame.len() });
    for size in 1..=frame.len() {
        let mut buf = Vec::new();
        let mut last = DecodeOutcome::NeedMoreData;
        for chunk in frame.chunks(size) {
            assert_eq!(last, DecodeOutcome::NeedMoreData);
            last = RecvObjects::fetch(&mut buf, chunk);
        }
        assert_eq!(last, DecodeOutcome::Decoded { value: h, consumed: frame.len() });
        assert_eq!(buf, frame);
    }
}

#[test]
fn header_that_does_not_start_with_the_tag_is_malformed() {
    assert_eq!(Object::decode(&[0x01]), DecodeOutcome::Malformed);
    assert_eq!(Object::decode(&[0xff, 0, 0, 0, 0]), DecodeOutcome::Malformed);
    assert_eq!(Object::decode(&[]), DecodeOutcome::NeedMoreData);
    assert_eq!(Object::decode(&[0x00]), DecodeOutcome::NeedMoreData);
    assert_eq!(Object::decode(&[0x00, 1, 2, 3]), DecodeOutcome::NeedMoreData);
}

#[test]
fn header_with_a_number_out_of_bounds_is_refused() {
    let mut sender = SendObjects::new();
    sender.send(header(1, 1)).unwrap();
    let bad = Object { track: 1, group: 1, sequence: VARINT_MAX + 1, send_order: 1 };
    assert!(!bad.is_encodable());
    assert_eq!(sender.send(bad), Err(EncodeError::BoundsExceeded));
    assert!(sender.frame().is_empty());
    let mut buf = bytes::BytesMut::new();
    header(1, 1).encode(&mut buf).unwrap();
    assert_eq!(bad.encode(&mut buf), Err(EncodeError::BoundsExceeded));
    assert_eq!(buf.to_vec(), frame_of(header(1, 1)));
}

#[test]
fn sender_scratch_holds_only_the_last_header() {
    let mut sender = SendObjects::new();
    sender.send(header(VARINT_MAX, 1)).unwrap();
    sender.send(header(1, 2)).unwrap();
    assert_eq!(sender.frame(), frame_of(header(1, 2)).as_slice());
}

#[test]
fn late_stream_holds_up_no_other() {
    let mut receiver = RecvObjects::new(DEFAULT_FANOUT);
    let a = receiver.accept().unwrap();
    let b = receiver.accept().unwrap();
    let c = receiver.accept().unwrap();
    assert_eq!((a, b, c), (0, 1, 2));
    assert_eq!(receiver.next(), Next::Idle);

    let frame_a = frame_of(header(1, 0));
    assert_eq!(receiver.feed(a, &frame_a[..2]), Fed::Waiting);
    assert_eq!(receiver.feed(b, &frame_of(header(1, 1))), Fed::Ready);
    assert_eq!(receiver.feed(c, &frame_of(header(1, 2))), Fed::Ready);

    assert_eq!(
        receiver.next(),
        Next::Ready(Delivery::Header { stream: b, header: header(1, 1), rest: vec![] })
    );
    assert_eq!(
        receiver.next(),
        Next::Ready(Delivery::Header { stream: c, header: header(1, 2), rest: vec![] })
    );
    assert_eq!(receiver.next(), Next::Idle);

    assert_eq!(receiver.feed(a, &frame_a[2..]), Fed::Ready);
    assert_eq!(
        receiver.next(),
        Next::Ready(Delivery::Header { stream: a, header: header(1, 0), rest: vec![] })
    );
    assert_eq!(receiver.next(), Next::Idle);
    assert_eq!(receiver.feed(a, &[1]), Fed::Unknown);
    assert_eq!(receiver.feed(b, &[1]), Fed::Unknown);
    assert_eq!(receiver.next(), Next::Idle);
}

#[test]
fn delivery_order_is_completion_order_not_accept_order() {
    let mut receiver = RecvObjects::new(4);
    for stream in 0..4u64 {
        assert_eq!(receiver.accept(), Ok(stream));
    }
    for stream in [2u64, 0, 3, 1] {
        assert_eq!(receiver.feed(stream, &frame_of(header(stream, 0))), Fed::Ready);
    }
    for stream in [2u64, 0, 3, 1] {
        assert_eq!(
            receiver.next(),
            Next::Ready(Delivery::Header { stream, header: header(stream, 0), rest: vec![] })
        );
    }
    assert_eq!(receiver.next(), Next::Idle);
}

#[test]
fn bytes_after_the_header_are_handed_over() {
    let mut receiver = RecvObjects::new(1);
    let stream = receiver.accept().unwrap();
    let mut bytes = frame_of(header(9, 9));
    bytes.extend_from_slice(b"payload");
    assert_eq!(receiver.feed(stream, &bytes[..3]), Fed::Waiting);
    assert_eq!(receiver.feed(stream, &bytes[3..]), Fed::Ready);
    assert_eq!(
        receiver.next(),
        Next::Ready(Delivery::Header { stream, header: header(9, 9), rest: b"payload".to_vec() })
    );
}

#[test]
fn malformed_header_fails_its_stream_only_and_is_reported_once() {
    let mut receiver = RecvObjects::new(2);
    let bad = receiver.accept().unwrap();
    let good = receiver.accept().unwrap();
    assert_eq!(receiver.feed(bad, &[0x07, 1, 2, 3, 4]), Fed::Ready);
    assert_eq!(receiver.feed(good, &frame_of(header(3, 4))), Fed::Ready);
    assert_eq!(
        receiver.next(),
        Next::Ready(Delivery::Failed { stream: bad, error: FetchError::Malformed })
    );
    assert_eq!(
        receiver.next(),
        Next::Ready(Delivery::Header { stream: good, header: header(3, 4), rest: vec![] })
    );
    assert_eq!(receiver.next(), Next::Idle);
    assert_eq!(receiver.feed(bad, &[0x00]), Fed::Unknown);
}

#[test]
fn stream_that_ends_early_is_reported_once() {
    let mut receiver = RecvObjects::new(2);
    let stream = receiver.accept().unwrap();
    assert_eq!(receiver.feed(stream, &[0x00, 1]), Fed::Waiting);
    assert!(receiver.finish(stream));
    assert!(!receiver.finish(stream));
    assert!(!receiver.finish(stream + 1));
    assert_eq!(
        receiver.next(),
        Next::Ready(Delivery::Failed { stream, error: FetchError::NoMoreData })
    );
    assert_eq!(receiver.next(), Next::Idle);
}

#[test]
fn no_more_headers_in_flight_than_the_limit() {
    let mut receiver = RecvObjects::new(2);
    assert!(receiver.can_accept());
    assert_eq!(receiver.accept(), Ok(0));
    assert!(receiver.can_accept());
    assert_eq!(receiver.accept(), Ok(1));
    assert!(!receiver.can_accept());
    assert_eq!(receiver.accept(), Err(AcceptError::Busy));
    assert_eq!(receiver.accept(), Err(AcceptError::Busy));
    assert_eq!(receiver.feed(2, &[0]), Fed::Unknown);
    assert_eq!(receiver.feed(0, &[0, 1]), Fed::Waiting);
    assert!(!receiver.can_accept());
    assert_eq!(receiver.feed(0, &frame_of(header(1, 1))[2..]), Fed::Ready);
    assert!(receiver.can_accept());
    assert_eq!(receiver.accept(), Ok(2));
    assert!(!receiver.can_accept());
    assert_eq!(receiver.accept(), Err(AcceptError::Busy));
    assert!(receiver.finish(1));
    assert_eq!(receiver.accept(), Ok(3));
}

#[test]
fn limit_of_zero_accepts_nothing() {
    let mut receiver = RecvObjects::new(0);
    assert!(!receiver.can_accept());
    assert_eq!(receiver.accept(), Err(AcceptError::Busy));
    assert_eq!(receiver.next(), Next::Idle);
}

#[test]
fn default_fanout_is_sixteen() {
    assert_eq!(DEFAULT_FANOUT, 16);
    let mut receiver = RecvObjects::new(DEFAULT_FANOUT);
    for stream in 0..16u64 {
        assert_eq!(receiver.accept(), Ok(stream));
    }
    assert_eq!(receiver.accept(), Err(AcceptError::Busy));
}

#[test]
fn closed_receiver_hands_out_what_was_ready_and_then_ends() {
    let mut receiver = RecvObjects::new(4);
    let done = receiver.accept().unwrap();
    let late = receiver.accept().unwrap();
    assert_eq!(receiver.feed(done, &frame_of(header(1, 1))), Fed::Ready);
    assert_eq!(receiver.feed(late, &[0x00]), Fed::Waiting);
    receiver.close();
    assert!(!receiver.can_accept());
    assert_eq!(receiver.accept(), Err(AcceptError::Closed));
    assert_eq!(receiver.feed(late, &[1, 2, 3, 4]), Fed::Unknown);
    assert_eq!(
        receiver.next(),
        Next::Ready(Delivery::Header { stream: done, header: header(1, 1), rest: vec![] })
    );
    assert_eq!(receiver.next(), Next::Closed);
    assert_eq!(receiver.next(), Next::Closed);
}
