//! Tools: what they return, their registry and the built-in ones.
pub mod builtin;
pub mod file_laws;
pub mod files;
pub mod output;
pub mod registry;
pub mod registry_laws;
pub mod schema;
pub mod schema_laws;
pub mod search;
pub mod workspace;
