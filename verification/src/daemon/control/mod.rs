//! Daemon control socket.
//!
//! The CLI talks to the running daemon over a unix socket. Every request is one
//! request/response exchange; joining a pairing merely keeps its connection open
//! so the daemon notices a cancelling client.
//!
//! The daemon is the only holder of the machine-key endpoint and the only writer
//! of the mesh state, so live peer state, pairing and every user-driven mesh
//! mutation go through here. Gossip-driven mutations reach the same store from
//! the daemon's membership loop.

pub mod client;
pub mod clone;
pub mod protocol;
pub mod server;
