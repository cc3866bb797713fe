//! A codec for the chunk layer of the PNG container format: typed,
//! length-prefixed, CRC-protected chunks behind a fixed signature.

pub mod bytes;
pub mod chunk;
pub mod chunk_type;
pub mod error;
pub mod png;
pub mod download;
pub mod commands;
