use vstd::prelude::*;

verus! {

/// The ways a query can fail.
#[derive(Debug, Clone, Copy, PartialEq, Eq, Structural)]
pub enum Error {
    /// A bad header or tag, a truncated buffer, or an oversized size field.
    InvalidResponse,
    /// A fragment of another transaction arrived mid-collection.
    MismatchID,
    /// The declared decompressed size is over the one-mebibyte bound.
    InvalidBz2Size,
    /// The compressed stream is short or malformed.
    Decompress,
    /// The decompressed bytes do not match the declared checksum.
    CheckSumMismatch,
    /// No answer came within the configured deadline.
    ErrTimeout,
    /// The transport failed.
    Io,
    /// A buffer reservation was refused.
    AllocationFailure,
}

} // verus!
