use vstd::prelude::*;

verus! {

/// Why a four-byte chunk type tag was refused.
#[derive(Debug, Clone, Copy, PartialEq, Eq, Structural)]
pub enum ChunkTypeDecodingError {
    /// A byte of the tag is not an ASCII letter.
    BadByte(u8),
    /// The text form of the tag does not have four characters.
    BadLength(usize),
    /// The text form of the tag holds a character outside ASCII.
    BadChar(char),
}

/// Why a chunk could not be read back from its bytes.
#[derive(Debug, Clone, Copy, PartialEq, Eq, Structural)]
pub enum ChunkEncodingError {
    /// The declared CRC (carried here) differs from the one computed.
    InvalidCrc(u32),
    /// The declared length (carried here) differs from the data's size.
    InvalidLength(u32),
    /// Fewer bytes remain (carried here) than the twelve a chunk needs.
    Truncated(usize),
}

/// Every failure of the codec.
#[derive(Debug, Clone, Copy, PartialEq, Eq, Structural)]
pub enum Error {
    ChunkType(ChunkTypeDecodingError),
    Chunk(ChunkEncodingError),
    /// The input does not start with the PNG signature.
    BadSignature,
    /// No chunk has the requested type.
    ChunkNotFound,
}

} // verus!
