//! Access tracking for a benchmarking harness that runs the same unit of work
//! several times against a key-value store.
//!
//! The tracker answers two questions about a benchmark case: how much of the
//! measured time was spent in repeat executions, and which storage keys were
//! read or written by the first, meaningful execution.
//!
//! - [`access`]: how important an access was, and how a record changes.
//! - [`keyed`], [`records`], [`partitions`]: the records of the flat and of
//!   the child keyspaces, in the order in which keys were first seen.
//! - [`summary`], [`report`]: the counts per 32-byte address prefix, as a
//!   definition and as the list that the tracker fills.
//! - [`state`], [`tracker`]: what a tracker holds and what each operation
//!   makes of it; the tracker itself.
//! - [`laws`]: what holds of every tracker.
//! - [`clock`], [`encoding`]: the clock and the codec, which are taken on
//!   trust.

pub mod access;
pub mod clock;
pub mod encoding;
pub mod keyed;
pub mod laws;
pub mod partitions;
pub mod records;
pub mod report;
pub mod state;
pub mod summary;
pub mod tracker;

pub use access::{AccessInfo, AccessType};
pub use partitions::ChildTable;
pub use records::AccessTable;
pub use report::AccessReport;
pub use state::TrackerState;
pub use tracker::BenchTracker;
