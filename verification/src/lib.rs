//! A verified codec for the PNG chunk container format.
//!
//! The library models a PNG file as its fixed 8-byte signature followed by an
//! ordered sequence of chunks. Each chunk carries a 4-byte type tag, an opaque
//! payload, and a CRC-32 checksum over tag and payload. Callers can parse a
//! byte buffer into a `Png`, append, look up and remove chunks, and serialize
//! the container back to bytes.

pub mod bytes;
pub mod chunk;
pub mod chunk_type;
pub mod crc32;
pub mod png;
mod utf8;
