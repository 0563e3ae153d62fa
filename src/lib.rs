//! Deterministic block execution: seigniorage records with their canonical
//! byte encoding, and the decisions that thread a global-state root through
//! the deploys of a finalized block and an optional end-of-era step.

pub mod auction_info;
pub mod bytesrepr;
pub mod executor;
pub mod operations;
pub mod types;
pub mod u512;
