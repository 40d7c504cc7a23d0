use bytes::BytesMut;
use moq_transport::blob::{decode_blob, put_blob};
use moq_transport::coding::{DecodeOutcome, EncodeError};
use moq_transport::list::{decode_list, decode_varints, in_bounds, put_list};
use moq_transport::varint::{decode_varint, put_varint, varint_len, VARINT_MAX};

fn varint(v: u64) -> Vec<u8> {
    let mut buf = BytesMut::new();
    put_varint(&mut buf, v).unwrap();
    buf.to_vec()
}

#[test]
fn varint_one_byte_up_to_63() {
    assert_eq!(varint(0), vec![0x00]);
    assert_eq!(varint(37), vec![0x25]);
    assert_eq!(varint(63), vec![0x3f]);
}

#[test]
fn varint_two_bytes_from_64() {
    assert_eq!(varint(64), vec![0x40, 0x40]);
    assert_eq!(varint(15293), vec![0x7b, 0xbd]);
    assert_eq!(varint(16383), vec![0x7f, 0xff]);
}

#[test]
fn varint_four_bytes_from_16384() {
    assert_eq!(varint(16384), vec![0x80, 0x00, 0x40, 0x00]);
    assert_eq!(varint(494_878_333), vec![0x9d, 0x7f, 0x3e, 0x7d]);
    assert_eq!(varint(0x3fff_ffff), vec![0xbf, 0xff, 0xff, 0xff]);
}

#[test]
fn varint_eight_bytes_from_two_to_the_thirty() {
    assert_eq!(varint(0x4000_0000), vec![0xc0, 0, 0, 0, 0x40, 0, 0, 0]);
    assert_eq!(
        varint(151_288_809_941_952_652),
        vec![0xc2, 0x19, 0x7c, 0x5e, 0xff, 0x14, 0xe8, 0x8c]
    );
    assert_eq!(varint(VARINT_MAX), vec![0xff; 8]);
}

#[test]
fn varint_len_matches_the_encoding() {
    for v in [0u64, 63, 64, 16383, 16384, 0x3fff_ffff, 0x4000_0000, VARINT_MAX] {
        assert_eq!(varint_len(v), varint(v).len());
    }
}

#[test]
fn varint_above_the_bound_is_refused_and_the_buffer_kept() {
    let mut buf = BytesMut::new();
    put_varint(&mut buf, 7).unwrap();
    assert_eq!(put_varint(&mut buf, VARINT_MAX + 1), Err(EncodeError::BoundsExceeded));
    assert_eq!(put_varint(&mut buf, u64::MAX), Err(EncodeError::BoundsExceeded));
    assert_eq!(buf.to_vec(), vec![7]);
}

#[test]
fn varint_appends_after_what_the_buffer_holds() {
    let mut buf = BytesMut::new();
    put_varint(&mut buf, 1).unwrap();
    put_varint(&mut buf, 64).unwrap();
    assert_eq!(buf.to_vec(), vec![0x01, 0x40, 0x40]);
}

#[test]
fn varint_decodes_what_was_encoded() {
    for v in [0u64, 1, 63, 64, 300, 16383, 16384, 1 << 29, 0x3fff_ffff, 0x4000_0000, VARINT_MAX] {
        let bytes = varint(v);
        assert_eq!(
            decode_varint(&bytes, 0),
            DecodeOutcome::Decoded { value: v, consumed: bytes.len() }
        );
    }
}

#[test]
fn varint_decodes_at_a_position_and_ignores_what_follows() {
    let bytes = [0xaa, 0x7b, 0xbd, 0xee];
    assert_eq!(decode_varint(&bytes, 1), DecodeOutcome::Decoded { value: 15293, consumed: 2 });
}

#[test]
fn varint_longer_than_needed_is_accepted() {
    assert_eq!(decode_varint(&[0x40, 0x25], 0), DecodeOutcome::Decoded { value: 37, consumed: 2 });
}

#[test]
fn varint_cut_short_needs_more_data() {
    assert_eq!(decode_varint(&[], 0), DecodeOutcome::NeedMoreData);
    assert_eq!(decode_varint(&[0x40], 0), DecodeOutcome::NeedMoreData);
    assert_eq!(decode_varint(&[0x80, 1, 2], 0), DecodeOutcome::NeedMoreData);
    assert_eq!(decode_varint(&[0xc0, 1, 2, 3, 4, 5, 6], 0), DecodeOutcome::NeedMoreData);
    assert_eq!(decode_varint(&[0x01], 1), DecodeOutcome::NeedMoreData);
    assert_eq!(decode_varint(&[0x01], 5), DecodeOutcome::NeedMoreData);
}

#[test]
fn blob_is_length_then_bytes() {
    let mut buf = BytesMut::new();
    put_blob(&mut buf, b"abc").unwrap();
    assert_eq!(buf.to_vec(), vec![3, b'a', b'b', b'c']);
    assert_eq!(
        decode_blob(&buf, 0),
        DecodeOutcome::Decoded { value: b"abc".to_vec(), consumed: 4 }
    );
}

#[test]
fn blob_of_64_bytes_has_a_two_byte_length() {
    let data = vec![9u8; 64];
    let mut buf = BytesMut::new();
    put_blob(&mut buf, &data).unwrap();
    assert_eq!(buf.len(), 66);
    assert_eq!(&buf[..2], &[0x40, 0x40]);
    assert_eq!(decode_blob(&buf, 0), DecodeOutcome::Decoded { value: data, consumed: 66 });
}

#[test]
fn empty_blob_is_one_zero_byte() {
    let mut buf = BytesMut::new();
    put_blob(&mut buf, &[]).unwrap();
    assert_eq!(buf.to_vec(), vec![0]);
    assert_eq!(decode_blob(&[0, 7], 0), DecodeOutcome::Decoded { value: vec![], consumed: 1 });
}

#[test]
fn blob_cut_short_needs_more_data() {
    assert_eq!(decode_blob(&[], 0), DecodeOutcome::NeedMoreData);
    assert_eq!(decode_blob(&[3, 1, 2], 0), DecodeOutcome::NeedMoreData);
    assert_eq!(decode_blob(&[0x40], 0), DecodeOutcome::NeedMoreData);
    assert_eq!(decode_blob(&[0xff; 8], 0), DecodeOutcome::NeedMoreData);
}

#[test]
fn list_is_count_then_items() {
    let mut buf = BytesMut::new();
    put_list(&mut buf, &[1, 64, 16384]).unwrap();
    assert_eq!(buf.to_vec(), vec![3, 0x01, 0x40, 0x40, 0x80, 0x00, 0x40, 0x00]);
    assert_eq!(
        decode_list(&buf, 0),
        DecodeOutcome::Decoded { value: vec![1, 64, 16384], consumed: 8 }
    );
}

#[test]
fn empty_list_is_one_zero_byte() {
    let mut buf = BytesMut::new();
    put_list(&mut buf, &[]).unwrap();
    assert_eq!(buf.to_vec(), vec![0]);
    assert_eq!(decode_list(&[0], 0), DecodeOutcome::Decoded { value: vec![], consumed: 1 });
}

#[test]
fn list_cut_short_needs_more_data() {
    assert_eq!(decode_list(&[], 0), DecodeOutcome::NeedMoreData);
    assert_eq!(decode_list(&[2, 1], 0), DecodeOutcome::NeedMoreData);
    assert_eq!(decode_list(&[2, 1, 0x40], 0), DecodeOutcome::NeedMoreData);
    assert_eq!(decode_list(&[0xff; 8], 0), DecodeOutcome::NeedMoreData);
}

#[test]
fn list_with_an_item_out_of_bounds_is_refused_and_the_buffer_kept() {
    let mut buf = BytesMut::new();
    put_varint(&mut buf, 5).unwrap();
    assert_eq!(put_list(&mut buf, &[1, VARINT_MAX + 1]), Err(EncodeError::BoundsExceeded));
    assert_eq!(buf.to_vec(), vec![5]);
    assert!(in_bounds(&[0, VARINT_MAX]));
    assert!(!in_bounds(&[0, VARINT_MAX + 1, 3]));
    assert!(in_bounds(&[]));
}

#[test]
fn run_of_integers_without_a_count() {
    assert_eq!(
        decode_varints(&[9, 1, 0x40, 0x40, 3], 1, 3),
        DecodeOutcome::Decoded { value: vec![1, 64, 3], consumed: 4 }
    );
    assert_eq!(decode_varints(&[9, 1, 0x40], 1, 2), DecodeOutcome::NeedMoreData);
    assert_eq!(decode_varints(&[9], 1, 0), DecodeOutcome::Decoded { value: vec![], consumed: 0 });
    assert_eq!(decode_varints(&[9], 4, 0), DecodeOutcome::Decoded { value: vec![], consumed: 0 });
    assert_eq!(decode_varints(&[9], 4, 1), DecodeOutcome::NeedMoreData);
}
