//! A LAN file and playlist sharing library: a hand-built HTTP wire codec,
//! a fixed-capacity buffered sink, a byte-template engine, a concurrently
//! accessed content registry, and the pure decision logic of the connection
//! dispatcher and the peer federation protocol.

pub mod bytes;
pub mod http;
pub mod numbers;
pub mod parse;
pub mod peers;
pub mod registry;
pub mod roundtrip;
pub mod routes;
pub mod sink;
pub mod template;
pub mod tokens;

pub use bytes::split_slice_uninclusive;
