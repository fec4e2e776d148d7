use capture_the_flag::codec::{DecodeError, Field};
use capture_the_flag::frame::{read_frame, send_frame};
use capture_the_flag::protocol::Message;

#[test]
fn frame_carries_length_then_payload() {
    let mut out = Vec::new();
    send_frame(&mut out, &Message::Interact { player_id: 1 });
    assert_eq!(out, vec![0, 4, 0x12, 3, 0, 1]);
}

#[test]
fn frames_read_back_in_order() {
    let mut out = Vec::new();
    send_frame(&mut out, &Message::Join { name: "ann".to_string() });
    send_frame(&mut out, &Message::Leave { player_id: 2 });
    let (first, n) = read_frame(&out).unwrap();
    assert_eq!(first, Message::Join { name: "ann".to_string() });
    assert_eq!(n, 2 + 6);
    let (second, m) = read_frame(&out[n..]).unwrap();
    assert_eq!(second, Message::Leave { player_id: 2 });
    assert_eq!(m, 2 + 4);
    assert_eq!(n + m, out.len());
}

#[test]
fn short_frames_are_reported() {
    assert_eq!(read_frame(&[]), Err(DecodeError::UnexpectedEof(Field::U16)));
    assert_eq!(read_frame(&[0]), Err(DecodeError::UnexpectedEof(Field::U16)));
    assert_eq!(read_frame(&[0, 5, 1, 3]), Err(DecodeError::UnexpectedEof(Field::Payload)));
}

#[test]
fn payload_errors_pass_through() {
    assert_eq!(read_frame(&[0, 2, 0x01, 2]), Err(DecodeError::UnsupportedVersion(2)));
    assert_eq!(read_frame(&[0, 2, 0x77, 3]), Err(DecodeError::UnknownMessageType(0x77)));
}
