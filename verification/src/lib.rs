//! A verified core for a desktop rich-presence broadcaster.
//!
//! The library owns the pieces of the tool that decide things: the
//! configuration record and its file format, the activity payload built from
//! a configuration, and the state machine of the background worker that keeps
//! the broadcast alive until it is told to stop. The surrounding program
//! (window, file dialogs, the IPC socket, threads) performs the actions this
//! library chooses and feeds the outcomes back in.

pub mod codec;
pub mod config;
pub mod payload;
pub mod worker;

pub use codec::{encode_config, parse_config};
pub use config::PresenceConfig;
pub use payload::{build_payload, ActivityPayload};
pub use worker::PresenceWorker;
