//! Failure kinds of the staging engine. Nothing is retried; every error
//! surfaces to the caller of the operation that triggered the work.

use vstd::prelude::*;

verus! {

/// What went wrong while staging a batch. The filesystem kinds are raised
/// by the unverified shell that writes artifacts to disk; the engine itself
/// raises `BlobCompress`.
#[derive(Clone, Copy, Debug, PartialEq, Eq, Structural)]
pub enum BatchError {
    /// LZ4 could not compress a value for a blob artifact.
    BlobCompress,
    /// A blob file could not be created.
    BlobCreate,
    /// A blob file could not be written.
    BlobWrite,
    /// A blob file could not be flushed.
    BlobFlush,
    /// The SST builder or its file write failed; the sequence number names
    /// the file concerned.
    SstWrite { sequence_number: u32 },
    /// An error was captured during the parallel flush of `finish`; the
    /// first error wins.
    FlushError,
}

} // verus!
