//! Reading, editing and writing the chunk layer of PNG files.
//!
//! A PNG stream is a fixed eight-byte signature followed by a sequence of
//! chunks. Each chunk carries a big-endian payload length, a four-letter type
//! tag, the payload, and a CRC-32 over the tag and payload.

pub mod be;
pub mod text;
pub mod error;
pub mod chunk_type;
pub mod chunk;
pub mod png;
pub mod commands;
