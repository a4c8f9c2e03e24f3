//! Wire codec: one message per length-bounded binary frame.
//!
//! A frame is a tag byte followed by the variant's fields; `u32` fields are
//! little-endian, and a trailing chat payload runs to the end of the frame
//! (the transport delivers frame boundaries). Decoding rejects empty frames,
//! unknown tags, and frames whose length does not match the tagged variant,
//! each with its own error, so protocol drift surfaces instead of being
//! silently skipped.

use crate::msg::{ClientMessage, ClientMessageModel, ServerMessage, ServerMessageModel};
use vstd::bytes::*;
use vstd::prelude::*;
use vstd::slice::*;

verus! {

pub const SERVER_TAG_WELCOME: u8 = 0;

pub const SERVER_TAG_POSITION: u8 = 1;

pub const SERVER_TAG_PLAYER_LEFT: u8 = 2;

pub const SERVER_TAG_CLIENT_JOINED: u8 = 3;

pub const SERVER_TAG_CLIENT_LEFT: u8 = 4;

pub const SERVER_TAG_CHAT: u8 = 5;

pub const CLIENT_TAG_POSITION: u8 = 0;

pub const CLIENT_TAG_CHAT: u8 = 1;

/// Why a frame was rejected. A malformed frame is reported and discarded by
/// callers; it never ends a session.
#[derive(Clone, Copy, PartialEq, Eq, Structural, Debug)]
pub enum DecodeError {
    /// The frame holds no bytes at all.
    Empty,
    /// The tag byte names no known variant.
    UnknownTag,
    /// The frame ends before the tagged variant's fields do.
    Truncated,
    /// The frame has bytes left over after the tagged variant's fields.
    TrailingBytes,
}

/// The exact frame a server message encodes to.
pub open spec fn spec_encode_server(m: ServerMessageModel) -> Seq<u8> {
    match m {
        ServerMessageModel::Welcome { id } => seq![SERVER_TAG_WELCOME] + spec_u32_to_le_bytes(id),
        ServerMessageModel::Position { id, x_bits, y_bits } => seq![SERVER_TAG_POSITION]
            + spec_u32_to_le_bytes(id) + spec_u32_to_le_bytes(x_bits) + spec_u32_to_le_bytes(
            y_bits,
        ),
        ServerMessageModel::PlayerLeft { id } => seq![SERVER_TAG_PLAYER_LEFT]
            + spec_u32_to_le_bytes(id),
        ServerMessageModel::ClientJoined { id } => seq![SERVER_TAG_CLIENT_JOINED]
            + spec_u32_to_le_bytes(id),
        ServerMessageModel::ClientLeft { id } => seq![SERVER_TAG_CLIENT_LEFT]
            + spec_u32_to_le_bytes(id),
        ServerMessageModel::Chat { from, text } => seq![SERVER_TAG_CHAT] + spec_u32_to_le_bytes(
            from,
        ) + text,
    }
}

/// The message (or error) every frame decodes to, server direction.
pub open spec fn spec_decode_server(b: Seq<u8>) -> Result<ServerMessageModel, DecodeError> {
    if b.len() == 0 {
        Err(DecodeError::Empty)
    } else if b[0] == SERVER_TAG_WELCOME {
        if b.len() < 5 {
            Err(DecodeError::Truncated)
        } else if b.len() > 5 {
            Err(DecodeError::TrailingBytes)
        } else {
            Ok(ServerMessageModel::Welcome { id: spec_u32_from_le_bytes(b.subrange(1, 5)) })
        }
    } else if b[0] == SERVER_TAG_POSITION {
        if b.len() < 13 {
            Err(DecodeError::Truncated)
        } else if b.len() > 13 {
            Err(DecodeError::TrailingBytes)
        } else {
            Ok(
                ServerMessageModel::Position {
                    id: spec_u32_from_le_bytes(b.subrange(1, 5)),
                    x_bits: spec_u32_from_le_bytes(b.subrange(5, 9)),
                    y_bits: spec_u32_from_le_bytes(b.subrange(9, 13)),
                },
            )
        }
    } else if b[0] == SERVER_TAG_PLAYER_LEFT {
        if b.len() < 5 {
            Err(DecodeError::Truncated)
        } else if b.len() > 5 {
            Err(DecodeError::TrailingBytes)
        } else {
            Ok(ServerMessageModel::PlayerLeft { id: spec_u32_from_le_bytes(b.subrange(1, 5)) })
        }
    } else if b[0] == SERVER_TAG_CLIENT_JOINED {
        if b.len() < 5 {
            Err(DecodeError::Truncated)
        } else if b.len() > 5 {
            Err(DecodeError::TrailingBytes)
        } else {
            Ok(ServerMessageModel::ClientJoined { id: spec_u32_from_le_bytes(b.subrange(1, 5)) })
        }
    } else if b[0] == SERVER_TAG_CLIENT_LEFT {
        if b.len() < 5 {
            Err(DecodeError::Truncated)
        } else if b.len() > 5 {
            Err(DecodeError::TrailingBytes)
        } else {
            Ok(ServerMessageModel::ClientLeft { id: spec_u32_from_le_bytes(b.subrange(1, 5)) })
        }
    } else if b[0] == SERVER_TAG_CHAT {
        if b.len() < 5 {
            Err(DecodeError::Truncated)
        } else {
            Ok(
                ServerMessageModel::Chat {
                    from: spec_u32_from_le_bytes(b.subrange(1, 5)),
                    text: b.subrange(5, b.len() as int),
                },
            )
        }
    } else {
        Err(DecodeError::UnknownTag)
    }
}

/// The exact frame a client message encodes to.
pub open spec fn spec_encode_client(m: ClientMessageModel) -> Seq<u8> {
    match m {
        ClientMessageModel::Position { x_bits, y_bits } => seq![CLIENT_TAG_POSITION]
            + spec_u32_to_le_bytes(x_bits) + spec_u32_to_le_bytes(y_bits),
        ClientMessageModel::Chat { text } => seq![CLIENT_TAG_CHAT] + text,
    }
}

/// The message (or error) every frame decodes to, client direction.
pub open spec fn spec_decode_client(b: Seq<u8>) -> Result<ClientMessageModel, DecodeError> {
    if b.len() == 0 {
        Err(DecodeError::Empty)
    } else if b[0] == CLIENT_TAG_POSITION {
        if b.len() < 9 {
            Err(DecodeError::Truncated)
        } else if b.len() > 9 {
            Err(DecodeError::TrailingBytes)
        } else {
            Ok(
                ClientMessageModel::Position {
                    x_bits: spec_u32_from_le_bytes(b.subrange(1, 5)),
                    y_bits: spec_u32_from_le_bytes(b.subrange(5, 9)),
                },
            )
        }
    } else if b[0] == CLIENT_TAG_CHAT {
        Ok(ClientMessageModel::Chat { text: b.subrange(1, b.len() as int) })
    } else {
        Err(DecodeError::UnknownTag)
    }
}

/// Law: decoding an encoded server message gives the message back, for every
/// variant and every field value.
pub proof fn lemma_server_round_trip(m: ServerMessageModel)
    ensures
        spec_decode_server(spec_encode_server(m)) == Ok::<ServerMessageModel, DecodeError>(m),
{
    lemma_auto_spec_u32_to_from_le_bytes();
    let e = spec_encode_server(m);
    match m {
        ServerMessageModel::Welcome { id } => {
            assert(e.subrange(1, 5) =~= spec_u32_to_le_bytes(id));
        },
        ServerMessageModel::Position { id, x_bits, y_bits } => {
            assert(e.subrange(1, 5) =~= spec_u32_to_le_bytes(id));
            assert(e.subrange(5, 9) =~= spec_u32_to_le_bytes(x_bits));
            assert(e.subrange(9, 13) =~= spec_u32_to_le_bytes(y_bits));
        },
        ServerMessageModel::PlayerLeft { id } => {
            assert(e.subrange(1, 5) =~= spec_u32_to_le_bytes(id));
        },
        ServerMessageModel::ClientJoined { id } => {
            assert(e.subrange(1, 5) =~= spec_u32_to_le_bytes(id));
        },
        ServerMessageModel::ClientLeft { id } => {
            assert(e.subrange(1, 5) =~= spec_u32_to_le_bytes(id));
        },
        ServerMessageModel::Chat { from, text } => {
            assert(e.subrange(1, 5) =~= spec_u32_to_le_bytes(from));
            assert(e.subrange(5, e.len() as int) =~= text);
        },
    }
}

/// Law: decoding an encoded client message gives the message back, for every
/// variant and every field value.
pub proof fn lemma_client_round_trip(m: ClientMessageModel)
    ensures
        spec_decode_client(spec_encode_client(m)) == Ok::<ClientMessageModel, DecodeError>(m),
{
    lemma_auto_spec_u32_to_from_le_bytes();
    let e = spec_encode_client(m);
    match m {
        ClientMessageModel::Position { x_bits, y_bits } => {
            assert(e.subrange(1, 5) =~= spec_u32_to_le_bytes(x_bits));
            assert(e.subrange(5, 9) =~= spec_u32_to_le_bytes(y_bits));
        },
        ClientMessageModel::Chat { text } => {
            assert(e.subrange(1, e.len() as int) =~= text);
        },
    }
}

/// Appends the bytes of `src` to `out`.
fn append_bytes(out: &mut Vec<u8>, src: &Vec<u8>)
    ensures
        final(out)@ == old(out)@ + src@,
{
    let mut i: usize = 0;
    while i < src.len()
        invariant
            i <= src.len(),
            out@ == old(out)@ + src@.subrange(0, i as int),
        decreases src.len() - i,
    {
        out.push(src[i]);
        i = i + 1;
        proof {
            assert(out@ =~= old(out)@ + src@.subrange(0, i as int));
        }
    }
    proof {
        assert(old(out)@ + src@.subrange(0, src@.len() as int) =~= old(out)@ + src@);
    }
}

/// Appends the little-endian bytes of `v` to `out`.
fn append_u32_le(out: &mut Vec<u8>, v: u32)
    ensures
        final(out)@ == old(out)@ + spec_u32_to_le_bytes(v),
{
    let mut le = u32_to_le_bytes(v);
    out.append(&mut le);
}

/// Encodes a server message into one frame.
pub fn encode_server_message(m: &ServerMessage) -> (r: Vec<u8>)
    ensures
        r@ == spec_encode_server(m@),
{
    let mut out: Vec<u8> = Vec::new();
    match m {
        ServerMessage::Welcome { id } => {
            out.push(SERVER_TAG_WELCOME);
            append_u32_le(&mut out, *id);
        },
        ServerMessage::Position { id, x_bits, y_bits } => {
            out.push(SERVER_TAG_POSITION);
            append_u32_le(&mut out, *id);
            append_u32_le(&mut out, *x_bits);
            append_u32_le(&mut out, *y_bits);
        },
        ServerMessage::PlayerLeft { id } => {
            out.push(SERVER_TAG_PLAYER_LEFT);
            append_u32_le(&mut out, *id);
        },
        ServerMessage::ClientJoined { id } => {
            out.push(SERVER_TAG_CLIENT_JOINED);
            append_u32_le(&mut out, *id);
        },
        ServerMessage::ClientLeft { id } => {
            out.push(SERVER_TAG_CLIENT_LEFT);
            append_u32_le(&mut out, *id);
        },
        ServerMessage::Chat { from, text } => {
            out.push(SERVER_TAG_CHAT);
            append_u32_le(&mut out, *from);
            append_bytes(&mut out, text);
        },
    }
    proof {
        assert(out@ =~= spec_encode_server(m@));
    }
    out
}

/// Encodes a client message into one frame.
pub fn encode_client_message(m: &ClientMessage) -> (r: Vec<u8>)
    ensures
        r@ == spec_encode_client(m@),
{
    let mut out: Vec<u8> = Vec::new();
    match m {
        ClientMessage::Position { x_bits, y_bits } => {
            out.push(CLIENT_TAG_POSITION);
            append_u32_le(&mut out, *x_bits);
            append_u32_le(&mut out, *y_bits);
        },
        ClientMessage::Chat { text } => {
            out.push(CLIENT_TAG_CHAT);
            append_bytes(&mut out, text);
        },
    }
    proof {
        assert(out@ =~= spec_encode_client(m@));
    }
    out
}

/// The model a decode result carries.
pub open spec fn server_result_model(r: Result<ServerMessage, DecodeError>) -> Result<
    ServerMessageModel,
    DecodeError,
> {
    match r {
        Ok(m) => Ok(m@),
        Err(e) => Err(e),
    }
}

/// The model a decode result carries.
pub open spec fn client_result_model(r: Result<ClientMessage, DecodeError>) -> Result<
    ClientMessageModel,
    DecodeError,
> {
    match r {
        Ok(m) => Ok(m@),
        Err(e) => Err(e),
    }
}

/// Decodes one server-direction frame.
pub fn decode_server_message(bytes: &[u8]) -> (r: Result<ServerMessage, DecodeError>)
    ensures
        server_result_model(r) == spec_decode_server(bytes@),
{
    let n = bytes.len();
    if n == 0 {
        return Err(DecodeError::Empty);
    }
    let tag = *slice_index_get(bytes, 0);
    if tag == SERVER_TAG_WELCOME || tag == SERVER_TAG_PLAYER_LEFT || tag == SERVER_TAG_CLIENT_JOINED
        || tag == SERVER_TAG_CLIENT_LEFT {
        if n < 5 {
            return Err(DecodeError::Truncated);
        }
        if n > 5 {
            return Err(DecodeError::TrailingBytes);
        }
        let id = u32_from_le_bytes(slice_subrange(bytes, 1, 5));
        if tag == SERVER_TAG_WELCOME {
            Ok(ServerMessage::Welcome { id })
        } else if tag == SERVER_TAG_PLAYER_LEFT {
            Ok(ServerMessage::PlayerLeft { id })
        } else if tag == SERVER_TAG_CLIENT_JOINED {
            Ok(ServerMessage::ClientJoined { id })
        } else {
            Ok(ServerMessage::ClientLeft { id })
        }
    } else if tag == SERVER_TAG_POSITION {
        if n < 13 {
            return Err(DecodeError::Truncated);
        }
        if n > 13 {
            return Err(DecodeError::TrailingBytes);
        }
        let id = u32_from_le_bytes(slice_subrange(bytes, 1, 5));
        let x_bits = u32_from_le_bytes(slice_subrange(bytes, 5, 9));
        let y_bits = u32_from_le_bytes(slice_subrange(bytes, 9, 13));
        Ok(ServerMessage::Position { id, x_bits, y_bits })
    } else if tag == SERVER_TAG_CHAT {
        if n < 5 {
            return Err(DecodeError::Truncated);
        }
        let from = u32_from_le_bytes(slice_subrange(bytes, 1, 5));
        let text = slice_to_vec(slice_subrange(bytes, 5, n));
        Ok(ServerMessage::Chat { from, text })
    } else {
        Err(DecodeError::UnknownTag)
    }
}

/// Decodes one client-direction frame.
pub fn decode_client_message(bytes: &[u8]) -> (r: Result<ClientMessage, DecodeError>)
    ensures
        client_result_model(r) == spec_decode_client(bytes@),
{
    let n = bytes.len();
    if n == 0 {
        return Err(DecodeError::Empty);
    }
    let tag = *slice_index_get(bytes, 0);
    if tag == CLIENT_TAG_POSITION {
        if n < 9 {
            return Err(DecodeError::Truncated);
        }
        if n > 9 {
            return Err(DecodeError::TrailingBytes);
        }
        let x_bits = u32_from_le_bytes(slice_subrange(bytes, 1, 5));
        let y_bits = u32_from_le_bytes(slice_subrange(bytes, 5, 9));
        Ok(ClientMessage::Position { x_bits, y_bits })
    } else if tag == CLIENT_TAG_CHAT {
        let text = slice_to_vec(slice_subrange(bytes, 1, n));
        Ok(ClientMessage::Chat { text })
    } else {
        Err(DecodeError::UnknownTag)
    }
}

} // verus!
