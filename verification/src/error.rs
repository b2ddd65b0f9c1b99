//! Error taxonomy for decoding a block stream.

use vstd::prelude::*;

verus! {

/// Everything that can go wrong while decoding (or iterating over) a block
/// stream. No error is ever swallowed or retried internally; each one is
/// surfaced to the caller through the operation's result.
#[derive(Debug, Clone, Copy, PartialEq, Eq, Structural)]
pub enum ArchiveError {
    /// A variable-length integer ran past its 10-byte bound.
    MalformedVint,
    /// The byte source was exhausted in the middle of a field.
    UnexpectedEndOfInput,
    /// A general header carried a `header_type` tag this library does not know.
    UnknownBlockType,
    /// A file name (or the symlink target derived from it) was not valid UTF-8.
    InvalidEncoding,
}

impl ArchiveError {
    /// A human-readable description of the error.
    pub fn describe(&self) -> &'static str {
        match self {
            ArchiveError::MalformedVint => "variable-length integer is too long",
            ArchiveError::UnexpectedEndOfInput => "unexpected end of input",
            ArchiveError::UnknownBlockType => "unknown block type",
            ArchiveError::InvalidEncoding => "invalid UTF-8 in file name",
        }
    }
}

} // verus!
