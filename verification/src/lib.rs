//! The execution core of a proof-aggregation coordinator: it pairs each
//! data-availability header with a snapshot of pending transactions, runs
//! a deterministic state transition over a versioned, Merkle-committed
//! account store, drives an abstract prover whose journal commits to the
//! resulting canonical header, and persists the batch atomically before
//! advancing the mempool watermark.
//!
//! Every function in this crate carries a contract checked by Verus. The
//! host process around it (networking, clocks, durability of the store)
//! lives outside and hands the core plain values.

pub mod avail;
pub mod codec;
pub mod db;
pub mod hash;
pub mod host;
pub mod mempool;
pub mod state;
pub mod state_machine;
pub mod stf;
pub mod types;
pub mod zkvm;
