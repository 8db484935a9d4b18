//! Wire-level core of the STUN protocol (RFC 8489): message framing, a builder
//! that emits finished messages, a parser that locates attributes, and the
//! attribute codecs, all with machine-checked contracts.

pub mod wire;
pub mod error;
pub mod crypto;
pub mod header;
pub mod builder;
pub mod parse;
pub mod attributes;
pub mod client;
pub mod guarantees;
