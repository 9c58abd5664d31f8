//! Message framing over a byte stream: a fixed-size frame header, an
//! incremental decoder and encoder, and the state machines that drive them
//! over one connection or its two halves.

pub mod header;
pub mod buffer;
pub mod frame;
pub mod ser;
pub mod read;
pub mod write;
pub mod connection;
pub mod stream;
pub mod fuse;
pub mod api;
