//! A room-scoped, real-time message relay.
//!
//! Clients join a named room over a persistent bidirectional connection,
//! receive a snapshot of the peers already present, and from then on receive
//! join / leave / typing / message events broadcast to everyone in the room.
//! An external caller can also inject a chat message into a room without
//! holding a connection itself.
//!
//! The library is the relay's core: the wire-frame encoding, the inbound
//! frame router, and the room / presence state with its lifecycle and
//! broadcast rules. Transport and HTTP plumbing live outside it and hand it
//! plain values.

pub mod frames;
pub mod laws;
pub mod messages;
pub mod rooms;
pub mod wire;
