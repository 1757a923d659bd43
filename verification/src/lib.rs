//! Request-response protocols multiplexed over peer-to-peer substreams.
//!
//! The crate holds the decisions of the multiplexer and of its wire format as plain
//! functions on plain values: bytes come in, bytes and events come out, and the time is
//! an argument. Moving the bytes is left to the host.

pub mod behaviour;
pub mod codec;
pub mod counting;
pub mod database;
pub mod endpoint;
pub mod laws;
pub mod types;
pub mod varint;
