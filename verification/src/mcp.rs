//! MCP client pieces: messages, the client's decisions, the configuration
//! rules, the HTTP transport's framing and the tools handed to the kernel.
pub mod http;
pub mod tool;
pub mod wire;
pub mod client;
pub mod config;
