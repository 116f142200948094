//! A versioned key-value store with version-pinned snapshots and a
//! read-your-own-writes transaction overlay.
//!
//! Consensus data is keyed by strings and can be listed by key prefix in
//! ascending key order; non-consensus data is keyed by bytes. A `State`
//! stages changes over a `Snapshot`; a `Transaction` stages changes over a
//! borrowed `State` and merges them in on `commit`; a `Storage` writes what a
//! state reads as a new version and hands out snapshots of every version.
pub mod changes;
pub mod keys;
pub mod laws;
pub mod snapshot;
pub mod state;
pub mod transaction;
pub mod tree;
