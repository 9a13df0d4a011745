//! The core of a domain-switching reverse proxy for a length-prefixed, stateful
//! binary game protocol: the wire codec, the packet framer, the stream cryptor,
//! the per-connection protocol state machine, and route selection.
//!
//! Everything here works on plain values. Sockets, files and tasks live with the
//! program that links this library.

pub mod address;
pub mod bridge;
pub mod client;
pub mod config;
pub mod cryptor;
pub mod error;
pub mod io;
pub mod login;
pub mod packet;
pub mod protocol;
pub mod proxy;
pub mod server;
pub mod trusted;
pub mod varint;
pub mod wire;
