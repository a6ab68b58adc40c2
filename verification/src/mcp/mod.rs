//! Remote tools of MCP servers.
pub mod config;
pub mod laws;
pub mod manager;
pub mod names;
pub mod oauth;
pub mod tool;
