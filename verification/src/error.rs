//! The ways in which decoding or editing a PNG byte stream can fail.

use vstd::prelude::*;

verus! {

/// Why a buffer, a chunk type or a request was rejected.
#[derive(Debug, Clone, Copy, PartialEq, Eq, Structural)]
pub enum FormatError {
    /// A chunk type candidate is not four ASCII letters.
    InvalidChunkType,
    /// The input ends before a field or a record that it announces.
    Truncated,
    /// The input does not start with the PNG signature.
    BadSignature,
    /// The checksum stored in a record differs from the one computed over
    /// its type and payload.
    CrcMismatch,
    /// No chunk of the requested type is present.
    ChunkNotFound,
    /// A payload requested as text is not valid UTF-8.
    InvalidUtf8,
}

} // verus!
