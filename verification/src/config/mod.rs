//! Configuration directory files and state.
//!
//! The following files live under the config directory (usually
//! `~/.config/jj-mesh`):
//! - `machine.key`: private identity key of the current machine
//! - `mesh.json`: the mesh state (paired peers and registered repos), owned
//!   and written by the daemon only; the CLI mutates it through the control
//!   socket
//! - `config.toml`: user-tunable daemon behavior, edited by the user and read
//!   once at daemon start
//! - `service.toml`: records which program installed the daemon service and
//!   under which label

pub mod key;
pub mod name;
pub mod path;
pub mod state;
pub mod resolve;
pub mod service;
pub mod settings;
