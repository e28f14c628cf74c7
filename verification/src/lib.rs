//! A small Bitcoin-style blockchain: blocks mined by proof of work, Merkle
//! roots over transactions, UTXO bookkeeping, wallets and addresses.

pub mod crypto;
pub mod domain;
