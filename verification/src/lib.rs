//! Verified core of a multiplayer position relay.
//!
//! Many clients report their own 2D position to a relay; the relay fans each
//! update out to every other connected client and sends newly joined clients
//! a snapshot of everyone already present. This crate holds the relay's
//! connection registry and broadcast logic, the wire codec, and the
//! client-side reconciliation state and network bridge. Transport I/O and
//! rendering live outside the library and talk to it through plain values.

pub mod bridge;
pub mod client;
pub mod codec;
pub mod laws;
pub mod msg;
pub mod relay;
