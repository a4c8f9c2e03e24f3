use pos_relay::codec::{
    decode_client_message, decode_server_message, encode_client_message, encode_server_message,
    DecodeError,
};
use pos_relay::msg::{ClientMessage, ServerMessage};

fn server_round_trip(m: ServerMessage) {
    let bytes = encode_server_message(&m);
    assert_eq!(decode_server_message(&bytes), Ok(m));
}

fn client_round_trip(m: ClientMessage) {
    let bytes = encode_client_message(&m);
    assert_eq!(decode_client_message(&bytes), Ok(m));
}

#[test]
fn server_variants_round_trip() {
    server_round_trip(ServerMessage::Welcome { id: 1 });
    server_round_trip(ServerMessage::Position {
        id: 7,
        x_bits: 5.0f32.to_bits(),
        y_bits: (-2.5f32).to_bits(),
    });
    server_round_trip(ServerMessage::PlayerLeft { id: 42 });
    server_round_trip(ServerMessage::ClientJoined { id: 0 });
    server_round_trip(ServerMessage::ClientLeft { id: u32::MAX });
    server_round_trip(ServerMessage::Chat {
        from: 3,
        text: b"Hey Man!".to_vec(),
    });
    server_round_trip(ServerMessage::Chat { from: 9, text: Vec::new() });
}

#[test]
fn client_variants_round_trip() {
    client_round_trip(ClientMessage::Position {
        x_bits: 0.0f32.to_bits(),
        y_bits: 960.5f32.to_bits(),
    });
    client_round_trip(ClientMessage::Chat { text: b"hello".to_vec() });
    client_round_trip(ClientMessage::Chat { text: Vec::new() });
}

#[test]
fn welcome_frame_layout_is_tag_then_le_id() {
    let bytes = encode_server_message(&ServerMessage::Welcome { id: 0x0102_0304 });
    assert_eq!(bytes, vec![0, 0x04, 0x03, 0x02, 0x01]);
}

#[test]
fn position_frame_layout_is_le_fields() {
    let one = 1.0f32.to_bits(); // 0x3F80_0000
    let bytes = encode_server_message(&ServerMessage::Position { id: 2, x_bits: one, y_bits: 0 });
    assert_eq!(
        bytes,
        vec![1, 2, 0, 0, 0, 0x00, 0x00, 0x80, 0x3F, 0, 0, 0, 0]
    );
}

#[test]
fn empty_frame_is_rejected() {
    assert_eq!(decode_server_message(&[]), Err(DecodeError::Empty));
    assert_eq!(decode_client_message(&[]), Err(DecodeError::Empty));
}

#[test]
fn unknown_tag_is_rejected() {
    assert_eq!(decode_server_message(&[9, 1, 2, 3]), Err(DecodeError::UnknownTag));
    assert_eq!(decode_client_message(&[7]), Err(DecodeError::UnknownTag));
}

#[test]
fn truncated_frames_are_rejected() {
    assert_eq!(decode_server_message(&[0, 1]), Err(DecodeError::Truncated));
    assert_eq!(decode_server_message(&[1, 1, 0, 0, 0, 9]), Err(DecodeError::Truncated));
    assert_eq!(decode_server_message(&[5, 1, 0]), Err(DecodeError::Truncated));
    assert_eq!(decode_client_message(&[0, 1, 0, 0, 0]), Err(DecodeError::Truncated));
}

#[test]
fn trailing_bytes_are_rejected() {
    assert_eq!(decode_server_message(&[0, 1, 0, 0, 0, 7]), Err(DecodeError::TrailingBytes));
    assert_eq!(
        decode_server_message(&[2, 1, 0, 0, 0, 0]),
        Err(DecodeError::TrailingBytes)
    );
    let mut long_position = vec![0u8; 10];
    long_position[0] = 0;
    assert_eq!(decode_client_message(&long_position), Err(DecodeError::TrailingBytes));
}

#[test]
fn chat_text_runs_to_frame_end() {
    let bytes = vec![5, 4, 0, 0, 0, b'h', b'i'];
    assert_eq!(
        decode_server_message(&bytes),
        Ok(ServerMessage::Chat { from: 4, text: b"hi".to_vec() })
    );
}
