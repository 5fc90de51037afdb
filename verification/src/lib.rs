//! Wire codec for the unidirectional-stream layer of WebTransport over HTTP/3:
//! QUIC variable-length integers, zero-copy buffer cursors with transactional
//! children, resumable state machines for incremental I/O, and the stream
//! header framing built on top of them.

pub mod bytes;
pub mod ids;
pub mod stream;
pub mod tasks;
pub mod varint;

pub use varint::VarInt;
