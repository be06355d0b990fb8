//! Error kinds surfaced at the API boundary.

use vstd::prelude::*;

verus! {

/// Everything the loader or the re-serializer can report.
///
/// Framing and header problems are input-validation failures of the byte
/// source; `CorruptTag` is a load-method tag outside the permitted set; and
/// `CorruptGraph` is a reservation or rewrite invariant violation, which
/// indicates a malformed archive.
#[derive(Debug, Clone, Copy, PartialEq, Eq, Structural)]
pub enum ArcError {
    /// The outer archive metadata does not start with the expected magic.
    BadMagic,
    /// The compressed-block header's table size is not the expected `0x10`.
    BadBlockSize,
    /// The decompressed payload does not have the size the block header declares.
    SizeMismatch,
    /// The compressed payload could not be decompressed.
    DecompressFailed,
    /// The resource table header's locale count is not 14.
    BadLocaleCount,
    /// The resource table header's region count is not 5.
    BadRegionCount,
    /// The byte buffer ends before the structure it should hold.
    Truncated,
    /// A file descriptor's load-method tag is outside the permitted set.
    CorruptTag,
    /// A reservation or rewrite invariant was violated: a duplicate
    /// reservation where uniqueness is required, or a reference to an entry
    /// that is missing or was never reserved.
    CorruptGraph,
}

impl ArcError {
    /// A short name for the error, for reporting outside the library.
    pub fn describe(&self) -> &'static str {
        match self {
            ArcError::BadMagic => "bad archive magic",
            ArcError::BadBlockSize => "unexpected compressed-block table size",
            ArcError::SizeMismatch => "decompressed size mismatch",
            ArcError::DecompressFailed => "decompression failed",
            ArcError::BadLocaleCount => "expected 14 locales",
            ArcError::BadRegionCount => "expected 5 regions",
            ArcError::Truncated => "input ends before the structure it should hold",
            ArcError::CorruptTag => "unsupported load method tag",
            ArcError::CorruptGraph => "reservation or rewrite invariant violated",
        }
    }
}

} // verus!
