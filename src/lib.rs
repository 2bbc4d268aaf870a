//! Chunk-level codec for PNG streams: chunk type tags, checksummed chunks,
//! and the signed container that holds them in order.

pub mod chunk;
pub mod commands;
pub mod chunk_type;
pub mod error;
pub mod png;
pub mod text;
