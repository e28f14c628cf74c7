//! The blockchain's data types and the rules that act on them.

pub mod block;
pub mod blockchain;
pub mod byte_map;
pub mod proof_of_work;
pub mod server;
pub mod transaction;
pub mod wallet;
