//! The rules of a proxy that stands in front of several MCP (Model Context
//! Protocol) servers: how it is configured, how it names what its servers
//! offer, which tools it shows to a client and where it sends a call.
//!
//! Nothing in this library waits for a peer, reads a file or spawns a process.
//! What such work brings back is handed in as plain values, and what is to be
//! done next is handed out as plain values.

pub mod config;
pub mod description_enricher;
pub mod error;
pub mod http_server;
pub mod json;
pub mod middleware;
pub mod model;
pub mod naming;
pub mod order;
pub mod proxy;
pub mod query;
pub mod score;
pub mod search_index;
pub mod text;
pub mod tool_search;
