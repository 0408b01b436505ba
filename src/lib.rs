//! Reconciliation of pending test snapshots against their accepted baselines.
//!
//! The library decides; the caller performs the file work that the decisions
//! call for (reading pending artifacts, asking a source patcher where call
//! sites are, writing and removing files).

pub mod operation;
pub mod pending;
pub mod container;
pub mod laws;
pub mod summary;
pub mod snapshot_value;
pub mod sort_key;
