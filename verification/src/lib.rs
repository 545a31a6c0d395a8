//! Verified core of the spall command-line client: request-shaping rules,
//! header redaction, hypermedia link parsing, MCP tool registry logic,
//! Arazzo action dispatch and the auth-material rules.

pub mod text;
pub mod error;
pub mod history;
pub mod json;
pub mod links;
pub mod order;
pub mod paginate;
pub mod mcp;
pub mod ir;
pub mod http;
pub mod strmap;
pub mod execute;
pub mod output;
pub mod completions;
pub mod chain;
pub mod fetch;
pub mod arazzo;
pub mod auth;
pub mod discover;
pub mod filter;
pub mod command;
pub mod repl;
pub mod apis;
pub mod validate;
pub mod headers;
pub mod preview;
