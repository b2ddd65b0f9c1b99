//! Decoder and encoder for the block-stream structure of a RAR5-style
//! container: a fixed 8-byte signature followed by self-describing blocks,
//! each made of a checksummed general header, a type-specific payload, and
//! an optional trailing data region.

pub mod error;
pub mod format;
pub mod crc32;
pub mod structures;
pub mod decoder;
pub mod encoder;
pub mod block;
pub mod archive;
pub mod decompression;
