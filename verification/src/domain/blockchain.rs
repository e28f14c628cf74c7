//! Blocks, the Merkle tree over their transactions, and the rules of the chain.

pub mod block;
pub mod blockchain;
pub mod merkle_tree;
pub mod rescan;
