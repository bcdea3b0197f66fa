//! A persistent key/value store built on an append-only log with an
//! in-memory index, its wire protocol and the decisions of its server.

pub mod codec;
pub mod engine;
pub mod err;
pub mod network;
pub mod server;
pub mod thread_pool;
pub mod laws;
pub mod sled_engine;
