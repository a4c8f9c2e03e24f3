use pos_relay::client::ClientState;
use pos_relay::msg::{PlayerPosition, ServerMessage};

fn pos(x: f32, y: f32) -> PlayerPosition {
    PlayerPosition { x_bits: x.to_bits(), y_bits: y.to_bits() }
}

fn position_report(id: u32, x: f32, y: f32) -> ServerMessage {
    ServerMessage::Position { id, x_bits: x.to_bits(), y_bits: y.to_bits() }
}

#[test]
fn welcome_assigns_identity() {
    let mut state = ClientState::new();
    assert_eq!(state.player_id(), None);
    state.apply_message(&ServerMessage::Welcome { id: 6 });
    assert_eq!(state.player_id(), Some(6));
}

#[test]
fn duplicate_position_reports_are_idempotent() {
    let mut state = ClientState::new();
    state.apply_message(&position_report(3, 7.0, 8.0));
    state.apply_message(&position_report(3, 7.0, 8.0));
    assert_eq!(state.remote_count(), 1);
    assert_eq!(state.remote_position(3), Some(pos(7.0, 8.0)));
}

#[test]
fn position_reports_replace_wholesale_last_value_wins() {
    let mut state = ClientState::new();
    state.apply_message(&position_report(3, 1.0, 2.0));
    state.apply_message(&position_report(3, 9.0, 10.0));
    assert_eq!(state.remote_count(), 1);
    assert_eq!(state.remote_position(3), Some(pos(9.0, 10.0)));
}

#[test]
fn own_position_reports_are_ignored() {
    let mut state = ClientState::new();
    state.apply_message(&ServerMessage::Welcome { id: 5 });
    state.apply_message(&position_report(5, 1.0, 1.0));
    assert_eq!(state.remote_count(), 0);
    assert_eq!(state.remote_position(5), None);
    // another id is tracked as usual
    state.apply_message(&position_report(6, 2.0, 2.0));
    assert_eq!(state.remote_position(6), Some(pos(2.0, 2.0)));
}

#[test]
fn departure_notices_remove_the_entry() {
    let mut state = ClientState::new();
    state.apply_message(&position_report(1, 1.0, 1.0));
    state.apply_message(&position_report(2, 2.0, 2.0));
    state.apply_message(&ServerMessage::PlayerLeft { id: 1 });
    assert_eq!(state.remote_position(1), None);
    assert_eq!(state.remote_count(), 1);
    state.apply_message(&ServerMessage::ClientLeft { id: 2 });
    assert_eq!(state.remote_count(), 0);
    // removing an id that is already gone changes nothing
    state.apply_message(&ServerMessage::PlayerLeft { id: 1 });
    assert_eq!(state.remote_count(), 0);
}

#[test]
fn join_notices_and_chat_leave_the_table_alone() {
    let mut state = ClientState::new();
    state.apply_message(&position_report(1, 1.0, 1.0));
    state.apply_message(&ServerMessage::ClientJoined { id: 9 });
    state.apply_message(&ServerMessage::Chat { from: 1, text: b"hi".to_vec() });
    assert_eq!(state.remote_count(), 1);
    assert_eq!(state.player_id(), None);
    assert_eq!(state.remote_position(1), Some(pos(1.0, 1.0)));
}
