//! Client-side building blocks for a binary database wire protocol:
//! big-endian primitive codecs, typed column/row (de)serialization,
//! frame framing, stream-id multiplexing, a prepared-statement cache,
//! token-aware routing, and the execute/re-prepare decision machine.

pub mod codec;
pub mod connection;
pub mod frame;
pub mod prepared;
pub mod rows;
pub mod session;
pub mod shape;
pub mod topology;
pub mod types;
pub mod wire;
