//! Lifecycle of a per-owner counter kept as a compressed account: a record
//! whose authoritative state lives in an external Merkle-tree-backed ledger
//! and is presented to the program through validity proofs rather than
//! direct storage.
//!
//! The library owns the pure core of that protocol: deterministic address
//! derivation, the construction of proof-gated record diffs for the three
//! lifecycle operations, and a verified model of the atomic commit sink the
//! diffs are handed to.

pub mod address;
pub mod laws;
pub mod ledger;
pub mod ops;
pub mod types;
