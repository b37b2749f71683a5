//! 42: a search-augmented answer engine. This crate holds its verified core:
//! citation repair, prompt assembly, SSE decoding, the ask flow and the
//! small pieces of session and routing logic around them.

pub mod text;
pub mod engine;
pub mod store;
pub mod config;
pub mod auth;
pub mod server;
