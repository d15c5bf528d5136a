//! A proof-of-work chain whose unit of value is a planar triangle.
//!
//! The crate holds the consensus engine: fixed-point geometry, the three
//! transaction kinds and their validation, the UTXO state with its derived
//! balances, blocks with proof of work, the mempool, and the engine that
//! applies blocks atomically and retargets the difficulty.

pub mod api;
pub mod assoc;
pub mod block;
pub mod blockchain;
pub mod bytes;
mod clock;
pub mod codec;
pub mod config;
pub mod coord;
pub mod crypto;
pub mod digest;
pub mod discovery;
pub mod error;
pub mod fees;
pub mod geometry;
pub mod hdwallet;
pub mod mempool;
pub mod miner;
pub mod network;
pub mod state;
pub mod transaction;
pub mod wallet;
