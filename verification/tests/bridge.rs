use pos_relay::bridge::{process_message_queue, ClientBridge};
use pos_relay::client::ClientState;
use pos_relay::codec::{decode_client_message, encode_server_message, DecodeError};
use pos_relay::msg::{ClientMessage, PlayerPosition, ServerMessage};

#[test]
fn inbound_messages_reach_the_reconciliation_state_in_order() {
    let bridge = ClientBridge::new(8, 8);
    let mut state = ClientState::new();
    assert!(bridge.deliver_inbound(ServerMessage::Welcome { id: 4 }));
    assert!(bridge.deliver_inbound(ServerMessage::Position {
        id: 2,
        x_bits: 1.0f32.to_bits(),
        y_bits: 2.0f32.to_bits(),
    }));
    assert!(bridge.deliver_inbound(ServerMessage::Position {
        id: 2,
        x_bits: 3.0f32.to_bits(),
        y_bits: 4.0f32.to_bits(),
    }));
    let handled = process_message_queue(&bridge, &mut state, 16);
    assert_eq!(handled.len(), 3);
    assert_eq!(state.player_id(), Some(4));
    assert_eq!(
        state.remote_position(2),
        Some(PlayerPosition { x_bits: 3.0f32.to_bits(), y_bits: 4.0f32.to_bits() })
    );
}

#[test]
fn processing_respects_the_tick_budget() {
    let bridge = ClientBridge::new(8, 8);
    let mut state = ClientState::new();
    for id in 1..=5u32 {
        assert!(bridge.deliver_inbound(ServerMessage::ClientJoined { id }));
    }
    let first = process_message_queue(&bridge, &mut state, 2);
    assert_eq!(first.len(), 2);
    let rest = process_message_queue(&bridge, &mut state, 16);
    assert_eq!(rest.len(), 3);
    assert_eq!(process_message_queue(&bridge, &mut state, 16).len(), 0);
}

#[test]
fn full_inbound_queue_drops_instead_of_blocking() {
    let bridge = ClientBridge::new(1, 1);
    assert!(bridge.deliver_inbound(ServerMessage::Welcome { id: 1 }));
    assert!(!bridge.deliver_inbound(ServerMessage::Welcome { id: 2 }));
    let mut state = ClientState::new();
    let handled = process_message_queue(&bridge, &mut state, 16);
    assert_eq!(handled, vec![ServerMessage::Welcome { id: 1 }]);
    assert_eq!(state.player_id(), Some(1));
}

#[test]
fn outbound_messages_come_back_out_as_their_frames() {
    let bridge = ClientBridge::new(4, 4);
    let sent = ClientMessage::Position {
        x_bits: 5.0f32.to_bits(),
        y_bits: 6.0f32.to_bits(),
    };
    assert!(bridge.send_message(sent));
    let frame = bridge.next_outbound_frame().unwrap();
    assert_eq!(
        decode_client_message(&frame),
        Ok(ClientMessage::Position { x_bits: 5.0f32.to_bits(), y_bits: 6.0f32.to_bits() })
    );
    assert_eq!(bridge.next_outbound_frame(), None);
}

#[test]
fn full_outbound_queue_drops_the_message() {
    let bridge = ClientBridge::new(1, 1);
    assert!(bridge.send_message(ClientMessage::Chat { text: b"one".to_vec() }));
    assert!(!bridge.send_message(ClientMessage::Chat { text: b"two".to_vec() }));
    let frame = bridge.next_outbound_frame().unwrap();
    assert_eq!(decode_client_message(&frame), Ok(ClientMessage::Chat { text: b"one".to_vec() }));
    assert_eq!(bridge.next_outbound_frame(), None);
}

#[test]
fn malformed_inbound_frames_are_reported_not_fatal() {
    let bridge = ClientBridge::new(4, 4);
    assert_eq!(bridge.deliver_inbound_frame(&[99, 0]), Err(DecodeError::UnknownTag));
    assert_eq!(bridge.deliver_inbound_frame(&[]), Err(DecodeError::Empty));
    // the bridge keeps working after a bad frame
    let good = encode_server_message(&ServerMessage::Welcome { id: 3 });
    assert_eq!(bridge.deliver_inbound_frame(&good), Ok(true));
    let mut state = ClientState::new();
    process_message_queue(&bridge, &mut state, 16);
    assert_eq!(state.player_id(), Some(3));
}
