use silk_client::frame::{decode_frame, decode_kind, encode_frame};

#[test]
fn encode_frame_puts_big_endian_tag_first() {
    let bytes = encode_frame(0x0102, &vec![7, 8, 9]);
    assert_eq!(bytes, vec![1, 2, 7, 8, 9]);
}

#[test]
fn encode_frame_of_empty_payload_is_tag_only() {
    assert_eq!(encode_frame(300, &vec![]), vec![1, 44]);
}

#[test]
fn decode_frame_round_trips() {
    let bytes = encode_frame(65535, &b"hello".to_vec());
    assert_eq!(decode_frame(&bytes), Some((65535, b"hello".to_vec())));
}

#[test]
fn decode_frame_rejects_short_input() {
    assert_eq!(decode_frame(&vec![]), None);
    assert_eq!(decode_frame(&vec![5]), None);
    assert_eq!(decode_kind(&vec![5]), None);
}

#[test]
fn decode_kind_reads_tag() {
    assert_eq!(decode_kind(&vec![0, 9, 1]), Some(9));
    assert_eq!(decode_frame(&vec![0, 9]), Some((9, vec![])));
}
