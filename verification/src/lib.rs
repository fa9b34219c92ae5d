//! Staging engine for write batches of an append-only, log-structured
//! key-value store with column families.
//!
//! A [`batch::WriteBatch`] accumulates `put` and `delete` mutations in
//! per-worker collectors, spills oversized values into LZ4-compressed blob
//! artifacts, and on `finish` emits key-sorted SST artifacts together with
//! the blobs, all stamped with sequence numbers from one shared counter.

pub mod batch;
pub mod blob;
pub mod collector;
pub mod constants;
pub mod entry;
pub mod error;
pub mod sort;

pub use batch::WriteBatch;
