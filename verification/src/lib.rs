//! The MD2 message-digest algorithm, verified.
//!
//! `hasher::Md2Core` holds the 48-byte working buffer and the 16-byte
//! running checksum and exposes the per-block compression step,
//! finalization, reset and state (de)serialization. `hasher::Md2`
//! buffers arbitrary-length input into 16-byte blocks on top of it.
//! `model` states the whole transform as spec functions; every
//! operation's contract is proved against them.
//!
//! MD2 is cryptographically broken; it is provided for interoperability
//! with legacy systems only.

pub mod hasher;
pub mod model;
pub mod table;
