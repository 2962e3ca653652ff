use vstd::prelude::*;

verus! {

/// Why a blob could not be decoded.
#[derive(Debug, Clone, Copy, PartialEq, Eq, Structural)]
pub enum DecodeError {
    /// A magic tag (`PACK`, `IDPO`) does not match.
    BadMagic,
    /// The magic tag matches but the version word is not the supported one.
    UnsupportedVersion,
    /// The window `[offset, offset + len)` that a read needs ends past
    /// `available`, the end of the region being read.
    Truncated { offset: u64, len: u64, available: u64 },
    /// A directory record, a lump or an index points outside what it refers to.
    CorruptOffset,
    /// No directory record carries the requested name.
    NotFound,
}

/// The `Truncated` error for a window that does not fit.
pub open spec fn truncated(offset: int, len: int, available: int) -> DecodeError {
    DecodeError::Truncated { offset: offset as u64, len: len as u64, available: available as u64 }
}

} // verus!
