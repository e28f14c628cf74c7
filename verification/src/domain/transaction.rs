//! Transactions. This module holds the first, script-string form of
//! transactions; its submodules hold the key-locked form the chain uses.

pub mod input;
pub mod output;
pub mod transaction;

use vstd::prelude::*;

verus! {

/// An input that unlocks an output with a script string.
pub struct TxInput {
    pub txid: Vec<u8>,
    pub vout: u32,
    pub script_sig: String,
}

/// An amount locked by a script string.
pub struct TxOutput {
    pub value: u32,
    pub script_pubkey: String,
}

/// A transaction of script-string inputs and outputs.
pub struct Transaction {
    pub id: Vec<u8>,
    pub vin: Vec<TxInput>,
    pub vout: Vec<TxOutput>,
}

/// The reward of a script-string coinbase transaction.
pub const COINBASE_REWARD: u32 = 10;

impl Transaction {
    /// A coinbase transaction: one input with no previous transaction whose
    /// script is `data` (or "Reward to" when `data` is empty), and one output
    /// of ten coins whose script is `to`.
    pub fn new_coinbase_tx(to: String, data: String) -> (tx: Self)
        ensures
            tx.id@.len() == 0,
            tx.vin@.len() == 1,
            tx.vin@[0].txid@.len() == 0,
            tx.vin@[0].vout == 0,
            tx.vin@[0].script_sig@ == if data@.len() == 0 { "Reward to"@ } else { data@ },
            tx.vout@.len() == 1,
            tx.vout@[0].value == COINBASE_REWARD,
            tx.vout@[0].script_pubkey@ == to@,
    {
        let data = if data.as_str().is_empty() {
            "Reward to".to_owned()
        } else {
            data
        };
        let txin = TxInput::new(data);
        let txout = TxOutput { value: COINBASE_REWARD, script_pubkey: to };
        Transaction { id: Vec::new(), vin: vec![txin], vout: vec![txout] }
    }
}

impl TxInput {
    /// An input with no previous transaction and the script `data`.
    pub fn new(data: String) -> (txin: Self)
        ensures
            txin.txid@.len() == 0,
            txin.vout == 0,
            txin.script_sig@ == data@,
    {
        TxInput { txid: Vec::new(), vout: 0, script_sig: data }
    }

    /// Whether `unlocking_data` is exactly the input's script.
    pub fn can_unlock_output_with(&self, unlocking_data: String) -> (b: bool)
        ensures
            b == (self.script_sig@ == unlocking_data@),
    {
        self.script_sig == unlocking_data
    }
}

} // verus!
