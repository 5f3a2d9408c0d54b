//! Streaming-style JSON reading and writing over byte buffers

pub mod error;
pub mod reader;
pub mod value;
pub mod writer;
pub mod roundtrip;
pub mod order;
pub mod typed;
pub mod whitespace;
