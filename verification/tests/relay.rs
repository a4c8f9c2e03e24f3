use pos_relay::msg::{ClientMessage, PlayerPosition, ServerMessage};
use pos_relay::relay::Relay;

fn pos(x: f32, y: f32) -> PlayerPosition {
    PlayerPosition { x_bits: x.to_bits(), y_bits: y.to_bits() }
}

fn position_update(x: f32, y: f32) -> ClientMessage {
    ClientMessage::Position { x_bits: x.to_bits(), y_bits: y.to_bits() }
}

#[test]
fn ids_are_monotonic_and_never_reused() {
    let mut relay = Relay::new(16);
    let a = relay.accept().unwrap();
    let b = relay.accept().unwrap();
    assert_eq!(a, 1);
    assert_eq!(b, 2);
    relay.disconnect(a);
    let c = relay.accept().unwrap();
    assert_eq!(c, 3);
}

#[test]
fn registry_count_balances_joins_and_leaves() {
    let mut relay = Relay::new(16);
    assert_eq!(relay.connection_count(), 0);
    let a = relay.accept().unwrap();
    let b = relay.accept().unwrap();
    let c = relay.accept().unwrap();
    assert_eq!(relay.connection_count(), 3);
    relay.disconnect(b);
    assert_eq!(relay.connection_count(), 2);
    // a second teardown for the same session removes nothing more
    relay.disconnect(b);
    assert_eq!(relay.connection_count(), 2);
    // unknown ids are a no-op, not an error
    relay.unregister(999);
    assert_eq!(relay.connection_count(), 2);
    relay.disconnect(a);
    relay.disconnect(c);
    assert_eq!(relay.connection_count(), 0);
}

#[test]
fn broadcast_skips_the_excluded_sender() {
    let mut relay = Relay::new(16);
    let a = relay.accept().unwrap();
    let b = relay.accept().unwrap();
    // clear the join-time messages
    relay.drain_outbound(a);
    relay.drain_outbound(b);
    relay.broadcast(&ServerMessage::ClientJoined { id: 9 }, Some(a));
    assert_eq!(relay.drain_outbound(a), vec![]);
    assert_eq!(relay.drain_outbound(b), vec![ServerMessage::ClientJoined { id: 9 }]);
}

#[test]
fn full_outbound_queue_drops_the_message_for_that_recipient() {
    let mut relay = Relay::new(1);
    let a = relay.accept().unwrap();
    let b = relay.accept().unwrap();
    relay.drain_outbound(a);
    relay.drain_outbound(b);
    relay.broadcast(&ServerMessage::ClientJoined { id: 8 }, None);
    relay.broadcast(&ServerMessage::ClientJoined { id: 9 }, None);
    // capacity 1: the second broadcast was dropped for both recipients
    assert_eq!(relay.drain_outbound(a), vec![ServerMessage::ClientJoined { id: 8 }]);
    assert_eq!(relay.drain_outbound(b), vec![ServerMessage::ClientJoined { id: 8 }]);
}

#[test]
fn snapshot_has_one_entry_per_reporting_connection() {
    let mut relay = Relay::new(16);
    let a = relay.accept().unwrap();
    let b = relay.accept().unwrap();
    let c = relay.accept().unwrap();
    relay.update_position(a, pos(1.0, 2.0));
    relay.update_position(b, pos(3.0, 4.0));
    // c never reported, so it has no entry
    let snap = relay.snapshot_positions(c);
    assert_eq!(snap, vec![(a, pos(1.0, 2.0)), (b, pos(3.0, 4.0))]);
    // the excluded id never appears, even when it has reported
    let snap_for_a = relay.snapshot_positions(a);
    assert_eq!(snap_for_a, vec![(b, pos(3.0, 4.0))]);
    // updating twice keeps one entry, with the latest value
    relay.update_position(b, pos(9.0, 9.0));
    assert_eq!(relay.snapshot_positions(c), vec![(a, pos(1.0, 2.0)), (b, pos(9.0, 9.0))]);
}

#[test]
fn update_position_on_unknown_id_is_a_no_op() {
    let mut relay = Relay::new(16);
    let a = relay.accept().unwrap();
    relay.update_position(77, pos(1.0, 1.0));
    assert_eq!(relay.snapshot_positions(0), vec![]);
    assert_eq!(relay.position_of(77), None);
    assert_eq!(relay.position_of(a), None);
    relay.update_position(a, pos(2.0, 3.0));
    assert_eq!(relay.position_of(a), Some(pos(2.0, 3.0)));
}

#[test]
fn joining_third_connection_gets_snapshot_and_updates_fan_out() {
    let mut relay = Relay::new(16);
    let a = relay.accept().unwrap();
    let b = relay.accept().unwrap();
    relay.handle_message(a, position_update(1.0, 1.0));
    relay.handle_message(b, position_update(2.0, 2.0));
    let c = relay.accept().unwrap();

    // C's join-time messages: its Welcome, then A's and B's positions — not C's
    let joined = relay.drain_outbound(c);
    assert_eq!(
        joined,
        vec![
            ServerMessage::Welcome { id: c },
            ServerMessage::Position { id: a, x_bits: 1.0f32.to_bits(), y_bits: 1.0f32.to_bits() },
            ServerMessage::Position { id: b, x_bits: 2.0f32.to_bits(), y_bits: 2.0f32.to_bits() },
        ]
    );

    // clear earlier traffic, then A reports (5, 5)
    relay.drain_outbound(a);
    relay.drain_outbound(b);
    relay.handle_message(a, position_update(5.0, 5.0));

    let expected = ServerMessage::Position {
        id: a,
        x_bits: 5.0f32.to_bits(),
        y_bits: 5.0f32.to_bits(),
    };
    assert_eq!(relay.drain_outbound(b), vec![expected.clone()]);
    assert_eq!(relay.drain_outbound(c), vec![expected]);
    // A receives nothing back from its own update
    assert_eq!(relay.drain_outbound(a), vec![]);
}

#[test]
fn abrupt_disconnect_notifies_each_peer_exactly_once() {
    let mut relay = Relay::new(16);
    let a = relay.accept().unwrap();
    let b = relay.accept().unwrap();
    let c = relay.accept().unwrap();
    relay.handle_message(a, position_update(1.0, 1.0));
    relay.drain_outbound(a);
    relay.drain_outbound(b);
    relay.drain_outbound(c);

    // A's transport closes without a leave message; the session tears down
    relay.disconnect(a);
    assert_eq!(relay.drain_outbound(b), vec![ServerMessage::PlayerLeft { id: a }]);
    assert_eq!(relay.drain_outbound(c), vec![ServerMessage::PlayerLeft { id: a }]);
    // both of A's pipelines terminating must not notify twice
    relay.disconnect(a);
    assert_eq!(relay.drain_outbound(b), vec![]);
    assert_eq!(relay.drain_outbound(c), vec![]);

    // a later joiner's snapshot no longer includes A
    let d = relay.accept().unwrap();
    let joined = relay.drain_outbound(d);
    assert_eq!(joined, vec![ServerMessage::Welcome { id: d }]);
    assert!(!relay.is_registered(a));
    assert_eq!(relay.position_of(a), None);
}

#[test]
fn chat_is_relayed_to_everyone_else_stamped_with_the_sender() {
    let mut relay = Relay::new(16);
    let a = relay.accept().unwrap();
    let b = relay.accept().unwrap();
    relay.drain_outbound(a);
    relay.drain_outbound(b);
    relay.handle_message(a, ClientMessage::Chat { text: b"Hey Man!".to_vec() });
    assert_eq!(
        relay.drain_outbound(b),
        vec![ServerMessage::Chat { from: a, text: b"Hey Man!".to_vec() }]
    );
    assert_eq!(relay.drain_outbound(a), vec![]);
}
