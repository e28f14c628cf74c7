//! Transaction inputs.

use vstd::prelude::*;

verus! {

/// A reference to an output of an earlier transaction, with the data that
/// unlocks it.
pub struct TxInput {
    /// The id of the transaction whose output is spent.
    pub txid: Vec<u8>,
    /// The index of the spent output in that transaction.
    pub vout: u8,
    /// The DER signature of the spending transaction, once signed.
    pub signature: Option<Vec<u8>>,
    /// The public key (or other unlocking data) of the spender.
    pub pubkey: Option<Vec<u8>>,
}

/// The mathematical value of a [`TxInput`].
pub struct TxInputModel {
    pub txid: Seq<u8>,
    pub vout: u8,
    pub signature: Option<Seq<u8>>,
    pub pubkey: Option<Seq<u8>>,
}

/// The contents of optional bytes.
pub open spec fn opt_bytes(b: Option<Vec<u8>>) -> Option<Seq<u8>> {
    match b {
        Some(v) => Some(v@),
        None => None,
    }
}

impl View for TxInput {
    type V = TxInputModel;

    open spec fn view(&self) -> TxInputModel {
        TxInputModel {
            txid: self.txid@,
            vout: self.vout,
            signature: opt_bytes(self.signature),
            pubkey: opt_bytes(self.pubkey),
        }
    }
}

/// A copy of some bytes.
pub fn copy_bytes(b: &Vec<u8>) -> (r: Vec<u8>)
    ensures
        r@ == b@,
{
    let c = b.clone();
    assert(c@ =~= b@);
    c
}

/// A copy of optional bytes.
pub fn copy_opt_bytes(b: &Option<Vec<u8>>) -> (r: Option<Vec<u8>>)
    ensures
        opt_bytes(r) == opt_bytes(*b),
{
    match b {
        Some(v) => Some(copy_bytes(v)),
        None => None,
    }
}

impl Clone for TxInput {
    fn clone(&self) -> (r: Self)
        ensures
            r@ == self@,
    {
        TxInput {
            txid: copy_bytes(&self.txid),
            vout: self.vout,
            signature: copy_opt_bytes(&self.signature),
            pubkey: copy_opt_bytes(&self.pubkey),
        }
    }
}

} // verus!
