use chatlib::codec::{ChatMessageError, Message};

#[test]
fn test_message_text() {
    let source = Message::Text("text message".to_owned());
    let encoded = source.encode().unwrap();
    let target = Message::from_bytes(&encoded[..]).unwrap();

    assert_eq!(source, target);
}

#[test]
fn test_message_image() {
    let source = Message::Image(
        "file_name".to_owned(),
        "png".to_owned(),
        vec![1, 2, 3, 4, 5, 6],
    );
    let encoded = source.encode().unwrap();
    let target = Message::from_bytes(&encoded[..]).unwrap();

    assert_eq!(source, target);
}

#[test]
fn test_message_file() {
    let source = Message::File("random.dat".to_owned(), vec![10, 20, 30, 40, 50, 60]);
    let encoded = source.encode().unwrap();
    let target = Message::from_bytes(&encoded[..]).unwrap();

    assert_eq!(source, target);
}

#[test]
fn text_serialization() {
    let msg = Message::new_text_message("text message");
    let encoded = msg.encode().unwrap();
    let decoded = Message::from_bytes(&encoded[..]).unwrap();

    assert!(matches!(msg, Message::Text(_)));
    assert_eq!(msg, decoded);
}

#[test]
fn file_serialization() {
    let contents = b"BEGIN:VCALENDAR\r\nEND:VCALENDAR\r\n".to_vec();
    let msg = Message::new_file_message("calendar.ics", contents.clone());
    let encoded = msg.encode().unwrap();
    let decoded = Message::from_bytes(&encoded[..]).unwrap();

    assert!(matches!(msg, Message::File(_, _)));
    assert_eq!(msg, decoded);
    assert_eq!(msg, Message::File("calendar.ics".to_owned(), contents));
}

fn tiny_png() -> Vec<u8> {
    let img = image::RgbaImage::new(1, 1);
    let mut buf = std::io::Cursor::new(Vec::new());
    image::DynamicImage::ImageRgba8(img)
        .write_to(&mut buf, image::ImageFormat::Png)
        .unwrap();
    buf.into_inner()
}

#[test]
fn image_serialization() {
    let bytes = tiny_png();
    let msg = Message::new_image_message("rust.png", bytes).unwrap();
    let encoded = msg.encode().unwrap();
    let decoded = Message::from_bytes(&encoded[..]).unwrap();

    assert!(matches!(msg, Message::Image(_, _, _)));
    assert_eq!(decoded, msg);
}

#[test]
fn invalid_image_format() {
    let msg = Message::new_image_message("calendar.ics", b"not an image".to_vec());
    assert!(msg.is_err());
    assert_eq!(
        msg.unwrap_err(),
        ChatMessageError::InvalidImageFormat("ics".to_owned())
    );
}

#[test]
fn image_rejected_before_any_io() {
    // An unrecognized extension fails at construction, with nothing sent.
    let msg = Message::new_image_message("notes.txt", vec![1, 2, 3]);
    assert_eq!(
        msg.unwrap_err(),
        ChatMessageError::InvalidImageFormat("txt".to_owned())
    );
}

#[test]
fn image_with_undecodable_bytes() {
    // A recognized extension whose bytes do not decode as that format.
    let msg = Message::new_image_message("rust.png", b"not a png".to_vec());
    assert_eq!(
        msg.unwrap_err(),
        ChatMessageError::InvalidImage("rust.png".to_owned())
    );
}

#[test]
fn image_path_without_extension() {
    let msg = Message::new_image_message("rust", vec![1]);
    assert!(matches!(msg.unwrap_err(), ChatMessageError::OtherError(_)));
}

#[test]
fn image_path_without_file_name() {
    let msg = Message::new_image_message("pictures/", vec![1]);
    assert!(matches!(msg.unwrap_err(), ChatMessageError::OtherError(_)));
}

#[test]
fn image_name_extension_split() {
    let bytes = tiny_png();
    let msg = Message::new_image_message("shots/2024/rust.logo.png", bytes.clone()).unwrap();
    assert_eq!(
        msg,
        Message::Image("rust.logo".to_owned(), "png".to_owned(), bytes)
    );
}

#[test]
fn text_exact_wire_bytes() {
    // Tag 0 as 4 little-endian bytes, the body length as 8, then the UTF-8.
    let msg = Message::Text("A".to_owned());
    let encoded = msg.encode().unwrap();
    assert_eq!(encoded, vec![0, 0, 0, 0, 1, 0, 0, 0, 0, 0, 0, 0, 65]);
}

#[test]
fn empty_text_round_trip() {
    let msg = Message::Text(String::new());
    let encoded = msg.encode().unwrap();
    assert_eq!(Message::from_bytes(&encoded[..]).unwrap(), msg);
}

#[test]
fn unicode_text_round_trip() {
    let msg = Message::Text("přílišžluťoučký kůň 🐴".to_owned());
    let encoded = msg.encode().unwrap();
    assert_eq!(Message::from_bytes(&encoded[..]).unwrap(), msg);
}

#[test]
fn empty_payload_file_round_trip() {
    let msg = Message::File("empty.bin".to_owned(), Vec::new());
    let encoded = msg.encode().unwrap();
    assert_eq!(Message::from_bytes(&encoded[..]).unwrap(), msg);
}

#[test]
fn malformed_empty_input() {
    assert_eq!(
        Message::from_bytes(&[]).unwrap_err(),
        ChatMessageError::MalformedPayload
    );
}

#[test]
fn malformed_unknown_tag() {
    assert_eq!(
        Message::from_bytes(&[9, 0, 0, 0, 0, 0, 0, 0, 0, 0, 0, 0]).unwrap_err(),
        ChatMessageError::MalformedPayload
    );
}

#[test]
fn malformed_truncated() {
    let msg = Message::Text("some text".to_owned());
    let encoded = msg.encode().unwrap();
    let truncated = &encoded[..encoded.len() - 1];
    assert_eq!(
        Message::from_bytes(truncated).unwrap_err(),
        ChatMessageError::MalformedPayload
    );
}

#[test]
fn malformed_trailing_bytes() {
    let msg = Message::Text("some text".to_owned());
    let mut encoded = msg.encode().unwrap();
    encoded.push(0);
    assert_eq!(
        Message::from_bytes(&encoded[..]).unwrap_err(),
        ChatMessageError::MalformedPayload
    );
}

#[test]
fn malformed_invalid_utf8_body() {
    // Tag 0, declared length 1, one byte that is no valid UTF-8 encoding.
    let bytes = [0, 0, 0, 0, 1, 0, 0, 0, 0, 0, 0, 0, 0xff];
    assert_eq!(
        Message::from_bytes(&bytes).unwrap_err(),
        ChatMessageError::MalformedPayload
    );
}

#[test]
fn malformed_overlong_declared_length() {
    // Tag 0 and a declared body length far past the end of the input.
    let bytes = [0, 0, 0, 0, 255, 255, 255, 255, 255, 255, 255, 255, 65];
    assert_eq!(
        Message::from_bytes(&bytes).unwrap_err(),
        ChatMessageError::MalformedPayload
    );
}

#[test]
fn new_text_message_carries_line() {
    let msg = Message::new_text_message("hello world");
    assert_eq!(msg, Message::Text("hello world".to_owned()));
}
