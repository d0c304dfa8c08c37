//! A small proof-of-work blockchain: blocks chained by SHA-256 hashes,
//! pending transactions, coinbase rewards, chain validation, the longest
//! valid chain rule between nodes, and ECDSA-signed transactions.

pub mod encoding;
pub mod transaction;
pub mod crypto;
pub mod blockchain;
pub mod node;
pub mod wallet;
