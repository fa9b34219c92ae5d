//! Tuning constants of the staging engine.

use vstd::prelude::*;

verus! {

/// Largest value stored inline with the `Small` class hint.
pub const MAX_SMALL_VALUE_SIZE: usize = 16;

/// Largest value stored inline at all; anything longer is diverted into a
/// blob artifact.
pub const MAX_MEDIUM_VALUE_SIZE: usize = 64;

/// Capacity exponent of the per-worker collectors: small, so filling is
/// common and a drain into the shared collector stays cheap.
pub const THREAD_LOCAL_SIZE_SHIFT: u32 = 6;

/// Capacity exponent of the per-family shared collectors: larger, so each
/// SST is meaningful.
pub const GLOBAL_COLLECTOR_SIZE_SHIFT: u32 = 12;

/// Every capacity exponent stays below this, so a collector threshold fits
/// comfortably in a `usize` on any machine.
pub const COLLECTOR_SIZE_SHIFT_LIMIT: u32 = 30;

/// Largest capacity cost (key bytes plus inline value bytes) of one entry;
/// keeps a collector's running totals free of overflow.
pub const MAX_ENTRY_COST: usize = usize::MAX - (1usize << COLLECTOR_SIZE_SHIFT_LIMIT);

/// Largest input the LZ4 block format accepts.
pub const MAX_BLOB_VALUE_SIZE: usize = 0x7E00_0000;

} // verus!
