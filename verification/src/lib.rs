//! Network-protocol core for a length-framed, varint-encoded binary protocol.
//!
//! The library is organised bottom-up: an in-memory byte stream
//! ([`mem_stream`]), a primitive binary codec layered on it
//! ([`minecraft_stream`]), typed packets ([`packets`]), the per-connection
//! frame transport and protocol state machine ([`connection`]), and the
//! server configuration ([`minecraft_server`]). Socket I/O and thread
//! scheduling live outside this crate; everything here is pure computation
//! over bytes.

pub mod connection;
pub mod mem_stream;
pub mod minecraft_server;
pub mod minecraft_stream;
pub mod packets;
