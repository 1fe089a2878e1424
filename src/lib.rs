//! Per-block change aggregation for Supernova pools: creation records, attribute
//! and balance updates folded per transaction with last-write-wins, and the merge
//! of both into one change record per transaction.
pub mod model;
pub mod encoding;
pub mod changes;
pub mod merge;
pub mod v2;
pub mod v3;
pub mod laws;
