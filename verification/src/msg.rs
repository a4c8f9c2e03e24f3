//! Application messages exchanged between clients and the relay.
//!
//! Positions are pairs of 32-bit IEEE-754 bit patterns. The relay never does
//! arithmetic on a coordinate: positions are overwritten wholesale and
//! forwarded as-is, so the bit patterns carry everything the core reads.
//! Callers that work in floating point convert with `f32::to_bits` /
//! `f32::from_bits` at the boundary.

use vstd::prelude::*;

verus! {

/// A player's last reported position: the bit patterns of the two `f32`
/// coordinates.
#[derive(Clone, Copy, PartialEq, Eq, Structural, Debug)]
pub struct PlayerPosition {
    pub x_bits: u32,
    pub y_bits: u32,
}

/// A message a client sends to the relay.
#[derive(PartialEq, Eq, Debug)]
pub enum ClientMessage {
    /// Authoritative update of the sender's own position.
    Position { x_bits: u32, y_bits: u32 },
    /// Free-form chat text (UTF-8 bytes; the core does not inspect them).
    Chat { text: Vec<u8> },
}

/// A message the relay sends to a client.
#[derive(PartialEq, Eq, Debug)]
pub enum ServerMessage {
    /// Assigns the receiving connection its identity.
    Welcome { id: u32 },
    /// Another connection's position update, or a join-time snapshot entry.
    Position { id: u32, x_bits: u32, y_bits: u32 },
    /// A connection's session ended.
    PlayerLeft { id: u32 },
    /// Membership notice: a connection joined.
    ClientJoined { id: u32 },
    /// Membership notice: a connection left.
    ClientLeft { id: u32 },
    /// Chat text relayed from another connection.
    Chat { from: u32, text: Vec<u8> },
}

/// Mathematical model of a [`ClientMessage`]: byte payloads become `Seq<u8>`.
pub enum ClientMessageModel {
    Position { x_bits: u32, y_bits: u32 },
    Chat { text: Seq<u8> },
}

/// Mathematical model of a [`ServerMessage`]: byte payloads become `Seq<u8>`.
pub enum ServerMessageModel {
    Welcome { id: u32 },
    Position { id: u32, x_bits: u32, y_bits: u32 },
    PlayerLeft { id: u32 },
    ClientJoined { id: u32 },
    ClientLeft { id: u32 },
    Chat { from: u32, text: Seq<u8> },
}

impl View for ClientMessage {
    type V = ClientMessageModel;

    open spec fn view(&self) -> ClientMessageModel {
        match self {
            ClientMessage::Position { x_bits, y_bits } => ClientMessageModel::Position {
                x_bits: *x_bits,
                y_bits: *y_bits,
            },
            ClientMessage::Chat { text } => ClientMessageModel::Chat { text: text@ },
        }
    }
}

impl View for ServerMessage {
    type V = ServerMessageModel;

    open spec fn view(&self) -> ServerMessageModel {
        match self {
            ServerMessage::Welcome { id } => ServerMessageModel::Welcome { id: *id },
            ServerMessage::Position { id, x_bits, y_bits } => ServerMessageModel::Position {
                id: *id,
                x_bits: *x_bits,
                y_bits: *y_bits,
            },
            ServerMessage::PlayerLeft { id } => ServerMessageModel::PlayerLeft { id: *id },
            ServerMessage::ClientJoined { id } => ServerMessageModel::ClientJoined { id: *id },
            ServerMessage::ClientLeft { id } => ServerMessageModel::ClientLeft { id: *id },
            ServerMessage::Chat { from, text } => ServerMessageModel::Chat {
                from: *from,
                text: text@,
            },
        }
    }
}

impl Clone for ServerMessage {
    /// A clone carries the same model value; broadcast fan-out relies on this
    /// to hand every recipient an identical copy.
    fn clone(&self) -> (res: Self)
        ensures
            res@ == self@,
    {
        match self {
            ServerMessage::Welcome { id } => ServerMessage::Welcome { id: *id },
            ServerMessage::Position { id, x_bits, y_bits } => ServerMessage::Position {
                id: *id,
                x_bits: *x_bits,
                y_bits: *y_bits,
            },
            ServerMessage::PlayerLeft { id } => ServerMessage::PlayerLeft { id: *id },
            ServerMessage::ClientJoined { id } => ServerMessage::ClientJoined { id: *id },
            ServerMessage::ClientLeft { id } => ServerMessage::ClientLeft { id: *id },
            ServerMessage::Chat { from, text } => ServerMessage::Chat {
                from: *from,
                text: clone_bytes(text),
            },
        }
    }
}

/// The models of a sequence of messages.
pub open spec fn msg_models(s: Seq<ServerMessage>) -> Seq<ServerMessageModel> {
    s.map_values(|m: ServerMessage| m@)
}

/// Copies a byte vector; the copy views equal.
fn clone_bytes(v: &Vec<u8>) -> (res: Vec<u8>)
    ensures
        res@ == v@,
{
    let mut out: Vec<u8> = Vec::new();
    let mut i: usize = 0;
    while i < v.len()
        invariant
            i <= v.len(),
            out@ == v@.subrange(0, i as int),
        decreases v.len() - i,
    {
        out.push(v[i]);
        i = i + 1;
        proof {
            assert(out@ =~= v@.subrange(0, i as int));
        }
    }
    proof {
        assert(v@.subrange(0, v.len() as int) =~= v@);
    }
    out
}

} // verus!
