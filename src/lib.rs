//! A broadcast chat relay: fixed-width framing, an in-band command
//! protocol, per-connection session state and a registry of the sessions
//! that receive broadcasts.

pub mod frame;
pub mod text;
pub mod session;
pub mod registry;
pub mod message;
pub mod config;
pub mod client;
pub mod listener;
