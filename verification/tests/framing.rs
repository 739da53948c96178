use chatlib::codec::Message;
use chatlib::frame::{encode_frame, take_frame, u32_from_be_bytes, u32_to_be_bytes};

#[test]
fn frame_round_trip_empty() {
    let framed = encode_frame(&[]).unwrap();
    assert_eq!(framed, vec![0, 0, 0, 0]);
    let (payload, used) = take_frame(&framed).unwrap();
    assert_eq!(payload, Vec::<u8>::new());
    assert_eq!(used, 4);
}

#[test]
fn frame_round_trip_one_byte() {
    let framed = encode_frame(&[42]).unwrap();
    assert_eq!(framed, vec![0, 0, 0, 1, 42]);
    let (payload, used) = take_frame(&framed).unwrap();
    assert_eq!(payload, vec![42]);
    assert_eq!(used, 5);
}

#[test]
fn frame_round_trip_over_64k() {
    let big: Vec<u8> = (0..70_000u32).map(|i| (i % 251) as u8).collect();
    let framed = encode_frame(&big).unwrap();
    assert_eq!(framed.len(), big.len() + 4);
    let (payload, used) = take_frame(&framed).unwrap();
    assert_eq!(payload, big);
    assert_eq!(used, framed.len());
}

#[test]
fn frame_round_trip_with_trailing_stream_data() {
    let mut stream = encode_frame(&[7, 8, 9]).unwrap();
    stream.extend_from_slice(&[1, 2, 3, 4, 5]);
    let (payload, used) = take_frame(&stream).unwrap();
    assert_eq!(payload, vec![7, 8, 9]);
    assert_eq!(used, 7);
}

#[test]
fn frame_incomplete_header() {
    assert!(take_frame(&[0, 0, 1]).is_none());
}

#[test]
fn frame_incomplete_payload() {
    assert!(take_frame(&[0, 0, 0, 5, 1, 2]).is_none());
}

#[test]
fn frame_length_prefix_is_big_endian() {
    assert_eq!(u32_to_be_bytes(0x0102_0304), vec![1, 2, 3, 4]);
    assert_eq!(u32_from_be_bytes(&[1, 2, 3, 4]), 0x0102_0304);
    let framed = encode_frame(&[0; 258]).unwrap();
    assert_eq!(&framed[..4], &[0, 0, 1, 2]);
}

#[test]
fn framed_message_comes_back_unchanged() {
    // The framing law end to end: exactly the encoded bytes reappear.
    let msg = Message::new_text_message("over the wire");
    let encoded = msg.encode().unwrap();
    let framed = encode_frame(&encoded).unwrap();
    let (payload, used) = take_frame(&framed).unwrap();
    assert_eq!(payload, encoded);
    assert_eq!(used, framed.len());
    assert_eq!(Message::from_bytes(&payload).unwrap(), msg);
}
