//! The sync daemon's logic.

pub mod accept;
pub mod backoff;
pub mod control;
pub mod guarantees;
pub mod health;
pub mod hub;
pub mod pairing;
pub mod peers;
pub mod repos;
pub mod store;
