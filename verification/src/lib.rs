//! Consensus validation for a minimal cryptocurrency.
//!
//! The library decodes binary blocks and transactions, checks the consensus
//! rules (structure, proof of work, chain continuity, balance, signatures),
//! and commits the resulting unspent-output and chain-store updates as a
//! single atomic write to a persistent key-value store.

pub mod bytes;
pub mod errors;
pub mod crypto;
pub mod store;
pub mod records;
pub mod tx;
pub mod block;
pub mod mempool;
pub mod laws;
