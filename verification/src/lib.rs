//! Verified core of an HTTP relay for LLM provider APIs: configuration and its rules, the
//! command line, the relay API key, and what the relay decides about each proxied request.

pub mod cli;
pub mod config;
pub mod error;
pub mod ip;
pub mod paths;
pub mod providers;
pub mod proxy;
pub mod security;
pub mod text;
pub mod url;
