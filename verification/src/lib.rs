//! jj-mesh is a peer-to-peer sync service for personal jj repositories. It
//! syncs op log and git objects across machines to instantly replicate
//! changes.
//!
//! This crate is the service's logic: the mesh state and its gossip, the sync
//! hub, the tasks behind repos and peers, the control protocol and what the
//! command line shows. Everything here works on plain values; sockets, files
//! and clocks belong to the program around it.

pub mod cli;
pub mod config;
pub mod daemon;
pub mod net;
pub mod order;
pub mod sorted_map;
pub mod text;
