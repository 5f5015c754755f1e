//! A minimal transactional key-value store behind a named-route dispatcher.
//!
//! Callers invoke a named operation with a JSON payload; the operation either
//! reads the store or mutates it under all-or-nothing commit semantics, and
//! every operation reports its outcome as a single notification string.

pub mod jsonio;
pub mod leaderboard;
pub mod protocol;
pub mod router;
pub mod store;
pub mod text;
pub mod txn;
