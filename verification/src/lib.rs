//! A reorg-safe ingestion library for a rebasing vault contract.
//!
//! The library materialises two on-chain event streams — user deposits and
//! index rebases — into durable, queryable records, together with a cursor
//! that marks ingestion progress. Every piece of decision logic (decoding,
//! deduplication, reorg reconciliation, atomic commits) lives here and is
//! verified; the surrounding process supplies chain data and mirrors the
//! committed state into its persistent store.

pub mod chain;
pub mod decode;
pub mod engine;
pub mod laws;
pub mod reconcile;
pub mod store;
pub mod types;
