//! The MCP server's decisions: tool naming and selection, argument
//! placement, JSON-RPC routing and origin checks.

pub mod verbose;
pub mod tools;
pub mod args;
pub mod schema;
pub mod rpc;
pub mod http;
pub mod tags;
pub mod profiles;
