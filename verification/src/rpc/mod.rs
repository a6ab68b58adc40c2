//! The host that an editor talks to: commands in, events out, one line each.
pub mod client;
pub mod command;
pub mod host;
pub mod laws;
