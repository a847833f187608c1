//! The failures that parsing, building and editing chunks can report.

use vstd::prelude::*;

verus! {

/// Everything that can go wrong in this library.
#[derive(Debug, Clone, PartialEq, Eq)]
pub enum PngError {
    /// A type tag was given as text or bytes whose byte count is not four.
    InvalidLength { len: usize },
    /// A type tag holds a byte that is not an ASCII letter.
    InvalidTypeBytes,
    /// A chunk record is shorter than its twelve fixed bytes, or than the
    /// payload length it declares.
    TooShort { len: usize },
    /// A parsed chunk's type tag has its reserved bit set.
    InvalidTag,
    /// The CRC stored in a chunk disagrees with the one computed over its tag
    /// and payload.
    ChecksumMismatch { stored: u32, computed: u32 },
    /// The stream does not start with the PNG signature.
    BadSignature,
    /// No chunk carries the requested type tag.
    ChunkNotFound,
    /// A payload read as text is not valid UTF-8.
    NotUtf8,
}

} // verus!
