//! An append-only ledger of hash-chained blocks: transactions are committed
//! by a Merkle tree, and a block is finalised by a quorum of validator
//! signatures.
pub mod consensus;
pub mod ledger;
pub mod merkle;
pub mod types;
