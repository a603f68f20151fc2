//! Client-side protocol engine for Minecraft Java Edition, protocol version 47.
//!
//! The crate holds the wire codec, the packet catalogue, the framing and cipher
//! layers and the session state machine. Every function is verified against the
//! contract written on it; the few calls into other crates sit behind small
//! wrappers whose contracts are taken on trust and say so.
//!
//! From the bottom up:
//!
//! - `wire`, `fixed`, `varint`, `basic`, `text`, `arrays`, `optional`, `slot` and
//!   `metadata` are the values of the wire format;
//! - `ids`, `registry` and `packets` are the catalogue of packets;
//! - `framing` and `stream` turn packet bodies into frames and back, `cipher`
//!   encrypts the stream;
//! - `minecraft_server` is the transport of one connection, `session` the
//!   session on top of it, and `join` the handshake that switches encryption on.
//!
//! Nothing here touches a socket: bytes go in and bytes come out.

pub mod arrays;
pub mod auth;
pub mod basic;
pub mod cipher;
pub mod fixed;
pub mod framing;
pub mod ids;
pub mod join;
pub mod metadata;
pub mod minecraft_server;
pub mod optional;
pub mod packets;
pub mod registry;
pub mod session;
pub mod slot;
pub mod stream;
pub mod text;
pub mod varint;
pub mod version;
pub mod wire;
