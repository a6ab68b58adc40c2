//! Verified core of the Asteria agent: conversation memory, context
//! preparation, tool routing, retrieval and session bookkeeping.
pub mod agent;
pub mod agent_laws;
pub mod agent_loop;
pub mod agent_loop_laws;
pub mod agent_tool_laws;
pub mod agent_turn_laws;
pub mod boot;
pub mod clock;
pub mod command_laws;
pub mod commands;
pub mod console;
pub mod context;
pub mod context_builder;
pub mod context_builder_laws;
pub mod context_laws;
pub mod event_laws;
pub mod events;
pub mod hashing;
pub mod history_laws;
pub mod intent;
pub mod intent_laws;
pub mod json;
pub mod json_laws;
pub mod mcp;
pub mod message;
pub mod namemap;
pub mod path_laws;
pub mod paths;
pub mod permission;
pub mod provider;
pub mod rag;
pub mod retry;
pub mod rpc;
pub mod seqs;
pub mod session;
pub mod session_laws;
pub mod terminal;
pub mod text;
pub mod tokens;
pub mod tool_router;
pub mod tool_router_laws;
pub mod tools;
pub mod tui;
