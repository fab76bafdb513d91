//! Chunk codec and container model for PNG files: validated chunk type
//! codes, checksummed chunk records, and the ordered document that holds
//! them.

pub mod error;
pub mod chunk_type;
pub mod checksum;
pub mod wire;
pub mod chunk;
pub mod png;
