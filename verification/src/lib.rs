//! A verified core of a small RESP-speaking key/value server:
//! a frame decoder for the wire grammar, a typed command model,
//! an in-memory store with per-key expiry, and the executor that
//! ties one request together.

pub mod bytes;
pub mod command_type;
pub mod commands;
pub mod constants;
pub mod decoder;
pub mod executor;
pub mod identifier;
pub mod parser;
pub mod resp;
pub mod store;
pub mod strategy;
pub mod value;

pub use value::Value;
