//! Transactions: coinbase transactions, hashing, signing and checking signatures.

use vstd::prelude::*;
use crate::crypto::{sha256, sha256_of, hex_decode, hex_decoding_of, is_secret_key, ecdsa_sign, ecdsa_signature_of, ecdsa_verify, ecdsa_verifies, secp256k1_public_key_of};
use super::input::{TxInput, TxInputModel, copy_bytes};
use crate::domain::byte_map::ByteMap;
use crate::domain::wallet::{Wallets, WalletModel, hash_pubkey, pubkey_hash_of};
use super::output::{TxOutput, TxOutputs, TxOutputModel, UtxoMap, spendable, spendable_hex, find_spendable_outputs, text_bytes, text_to_bytes, is_lockable_address, address_pubkey_hash, check_address};

verus! {

/// The reward that a coinbase transaction pays.
pub const SUBSIDY: u32 = 10;

/// A transfer of coins: it spends earlier outputs (`vin`) and creates new ones (`vout`).
pub struct Transaction {
    pub id: Vec<u8>,
    pub vin: Vec<TxInput>,
    pub vout: Vec<TxOutput>,
}

/// The mathematical value of a [`Transaction`].
pub struct TransactionModel {
    pub id: Seq<u8>,
    pub vin: Seq<TxInputModel>,
    pub vout: Seq<TxOutputModel>,
}

/// The values of a sequence of inputs.
pub open spec fn inputs_view(v: Seq<TxInput>) -> Seq<TxInputModel> {
    v.map_values(|i: TxInput| i@)
}

/// The values of a sequence of outputs.
pub open spec fn outputs_view(v: Seq<TxOutput>) -> Seq<TxOutputModel> {
    v.map_values(|o: TxOutput| o@)
}

/// The values of a sequence of transactions.
pub open spec fn txs_view(v: Seq<Transaction>) -> Seq<TransactionModel> {
    v.map_values(|t: Transaction| t@)
}

impl View for Transaction {
    type V = TransactionModel;

    open spec fn view(&self) -> TransactionModel {
        TransactionModel { id: self.id@, vin: inputs_view(self.vin@), vout: outputs_view(self.vout@) }
    }
}

/// A copy of a list of inputs.
pub fn copy_inputs(v: &Vec<TxInput>) -> (r: Vec<TxInput>)
    ensures
        inputs_view(r@) == inputs_view(v@),
{
    let mut r: Vec<TxInput> = Vec::new();
    let mut i: usize = 0;
    while i < v.len()
        invariant
            i <= v@.len(),
            r@.len() == i,
            forall|j: int| 0 <= j < i ==> (#[trigger] r@[j])@ == v@[j]@,
        decreases v@.len() - i,
    {
        r.push(v[i].clone());
        i = i + 1;
    }
    assert(inputs_view(r@) =~= inputs_view(v@));
    r
}

/// A copy of a list of outputs.
pub fn copy_outputs(v: &Vec<TxOutput>) -> (r: Vec<TxOutput>)
    ensures
        outputs_view(r@) == outputs_view(v@),
{
    let mut r: Vec<TxOutput> = Vec::new();
    let mut i: usize = 0;
    while i < v.len()
        invariant
            i <= v@.len(),
            r@.len() == i,
            forall|j: int| 0 <= j < i ==> (#[trigger] r@[j])@ == v@[j]@,
        decreases v@.len() - i,
    {
        r.push(v[i].clone());
        i = i + 1;
    }
    assert(outputs_view(r@) =~= outputs_view(v@));
    r
}

/// A copy of a list of transactions.
pub fn copy_transactions(v: &Vec<Transaction>) -> (r: Vec<Transaction>)
    ensures
        txs_view(r@) == txs_view(v@),
{
    let mut r: Vec<Transaction> = Vec::new();
    let mut i: usize = 0;
    while i < v.len()
        invariant
            i <= v@.len(),
            r@.len() == i,
            forall|j: int| 0 <= j < i ==> (#[trigger] r@[j])@ == v@[j]@,
        decreases v@.len() - i,
    {
        r.push(v[i].clone());
        i = i + 1;
    }
    assert(txs_view(r@) =~= txs_view(v@));
    r
}

impl Clone for Transaction {
    fn clone(&self) -> (r: Self)
        ensures
            r@ == self@,
    {
        Transaction {
            id: copy_bytes(&self.id),
            vin: copy_inputs(&self.vin),
            vout: copy_outputs(&self.vout),
        }
    }
}

/// The text a coinbase input carries when none is given.
pub open spec fn default_coinbase_text() -> Seq<char> {
    "Reward to"@
}

/// The unlocking data of a coinbase input made from `data`.
pub open spec fn coinbase_data(data: Seq<char>) -> Seq<u8> {
    if data.len() == 0 {
        text_bytes(default_coinbase_text())
    } else {
        text_bytes(data)
    }
}

/// A transaction with one input that spends nothing and carries `data`, and
/// one output of `reward` coins locked to `to`.
pub open spec fn coinbase_model(to: Seq<char>, data: Seq<char>, reward: u32) -> TransactionModel {
    TransactionModel {
        id: Seq::empty(),
        vin: seq![TxInputModel { txid: Seq::empty(), vout: 0, signature: None, pubkey: Some(coinbase_data(data)) }],
        vout: seq![TxOutputModel { value: reward, pubkey_hash: address_pubkey_hash(text_bytes(to)) }],
    }
}

/// Whether a transaction is a coinbase: one input that refers to no transaction and index 0.
pub open spec fn is_coinbase_model(tx: TransactionModel) -> bool {
    tx.vin.len() == 1 && tx.vin[0].txid.len() == 0 && tx.vin[0].vout == 0
}

/// The bytes a transaction is identified by: its id.
pub open spec fn serialized_id(tx: TransactionModel) -> Seq<u8> {
    tx.id
}

/// The hash of a transaction: SHA-256 of the serialization of a copy whose id is empty.
pub open spec fn tx_hash(tx: TransactionModel) -> Seq<u8> {
    sha256_of(serialized_id(TransactionModel { id: Seq::empty(), ..tx }))
}

/// A copy with every input's signature and public key removed.
pub open spec fn trimmed(tx: TransactionModel) -> TransactionModel {
    TransactionModel {
        id: tx.id,
        vin: tx.vin.map_values(|i: TxInputModel| TxInputModel { signature: None, pubkey: None, ..i }),
        vout: tx.vout,
    }
}

/// Errors in building a transaction.
pub enum TxError {
    /// No wallet is known for the sending address.
    WalletNotFound,
    /// The spendable outputs hold less than the amount.
    NotEnoughFunds,
    /// A transaction id of a spendable output is not hexadecimal text.
    InvalidTxId,
    /// The change does not fit in an output's value.
    ChangeTooLarge,
}

impl Transaction {
    /// A coinbase transaction paying the subsidy to `to`; an empty `data`
    /// becomes the text "Reward to".
    pub fn new_coinbase_tx(to: String, data: String) -> (tx: Self)
        requires
            is_lockable_address(text_bytes(to@)),
        ensures
            tx@ == coinbase_model(to@, data@, SUBSIDY),
    {
        Self::new_generation_tx(to, SUBSIDY, data)
    }

    /// Like [`Transaction::new_coinbase_tx`], but `None` where `to` cannot lock an output.
    pub fn try_new_coinbase_tx(to: String, data: String) -> (tx: Option<Self>)
        ensures
            match tx {
                Some(t) => is_lockable_address(text_bytes(to@)) && t@ == coinbase_model(to@, data@, SUBSIDY),
                None => !is_lockable_address(text_bytes(to@)),
            },
    {
        if check_address(to.as_str()) {
            Some(Self::new_coinbase_tx(to, data))
        } else {
            None
        }
    }

    /// A coinbase-shaped transaction that pays `reward` coins to `to`, with
    /// `data` (or "Reward to" when empty) as the input's unlocking data.
    pub fn new_generation_tx(to: String, reward: u32, data: String) -> (tx: Self)
        requires
            is_lockable_address(text_bytes(to@)),
        ensures
            tx@ == coinbase_model(to@, data@, reward),
    {
        let bytes = if data.as_str().is_empty() {
            text_to_bytes("Reward to")
        } else {
            text_to_bytes(data.as_str())
        };
        proof {
            reveal_strlit("Reward to");
        }
        let txin = TxInput { txid: Vec::new(), vout: 0, signature: None, pubkey: Some(bytes) };
        let txout = TxOutput::new(reward, to);
        let tx = Transaction { id: Vec::new(), vin: vec![txin], vout: vec![txout] };
        let _ = tx.hash();
        assert(tx@.vin =~= coinbase_model(to@, data@, reward).vin);
        assert(tx@.vout =~= coinbase_model(to@, data@, reward).vout);
        tx
    }

    /// Whether this is a coinbase transaction.
    pub fn is_coinbase(&self) -> (b: bool)
        ensures
            b == is_coinbase_model(self@),
    {
        self.vin.len() == 1 && self.vin[0].txid.len() == 0 && self.vin[0].vout == 0
    }

    /// The hash of the transaction (see [`tx_hash`]).
    pub fn hash(&self) -> (h: Vec<u8>)
        ensures
            h@ == tx_hash(self@),
            h@.len() == 32,
    {
        let mut tx_copy = self.clone();
        tx_copy.id = Vec::new();
        let serialized = tx_copy.serialize_id();
        let digest = sha256(serialized.as_slice());
        assert(serialized@ =~= serialized_id(TransactionModel { id: Seq::empty(), ..self@ }));
        vstd::slice::slice_to_vec(digest.as_slice())
    }

    /// The bytes the transaction is identified by: a copy of its id.
    pub fn serialize_id(&self) -> (bytes: Vec<u8>)
        ensures
            bytes@ == serialized_id(self@),
    {
        let mut result: Vec<u8> = Vec::new();
        let mut i: usize = 0;
        while i < self.id.len()
            invariant
                i <= self.id@.len(),
                result@ == self.id@.take(i as int),
            decreases self.id@.len() - i,
        {
            result.push(self.id[i]);
            assert(result@ =~= self.id@.take(i + 1));
            i = i + 1;
        }
        assert(self.id@.take(self.id@.len() as int) =~= self.id@);
        result
    }

    /// A copy without signatures or public keys in the inputs.
    pub fn trimmed_copy(&self) -> (t: Transaction)
        ensures
            t@ == trimmed(self@),
    {
        let mut inputs: Vec<TxInput> = Vec::new();
        let mut i: usize = 0;
        while i < self.vin.len()
            invariant
                i <= self.vin@.len(),
                inputs@.len() == i,
                forall|j: int| 0 <= j < i ==> (#[trigger] inputs@[j])@ == trimmed(self@).vin[j],
            decreases self.vin@.len() - i,
        {
            let vin = &self.vin[i];
            inputs.push(TxInput { txid: copy_bytes(&vin.txid), vout: vin.vout, signature: None, pubkey: None });
            i = i + 1;
        }
        assert(inputs_view(inputs@) =~= trimmed(self@).vin);
        Transaction { id: copy_bytes(&self.id), vin: inputs, vout: copy_outputs(&self.vout) }
    }
}

/// The first transaction with id `txid` among `prev`.
pub open spec fn find_prev(prev: Seq<TransactionModel>, txid: Seq<u8>) -> Option<TransactionModel>
    decreases prev.len(),
{
    if prev.len() == 0 {
        None
    } else if prev[0].id == txid {
        Some(prev[0])
    } else {
        find_prev(prev.subrange(1, prev.len() as int), txid)
    }
}

/// Every input refers to a transaction among `prev` that has the output it names.
pub open spec fn has_prev_outputs(tx: TransactionModel, prev: Seq<TransactionModel>) -> bool {
    forall|i: int| 0 <= i < tx.vin.len() ==> {
        &&& #[trigger] find_prev(prev, tx.vin[i].txid) is Some
        &&& (tx.vin[i].vout as int) < find_prev(prev, tx.vin[i].txid).unwrap().vout.len()
    }
}

/// The public key hash of the output that input `i` spends.
pub open spec fn prev_pubkey_hash(tx: TransactionModel, prev: Seq<TransactionModel>, i: int) -> Seq<u8> {
    find_prev(prev, tx.vin[i].txid).unwrap().vout[tx.vin[i].vout as int].pubkey_hash
}

/// The copy signed for input `i`: the trimmed copy with that input's public
/// key set to the hash of the key that locks the output it spends.
pub open spec fn signing_copy(tx: TransactionModel, prev: Seq<TransactionModel>, i: int) -> TransactionModel {
    let t = trimmed(tx);
    TransactionModel { vin: t.vin.update(i, TxInputModel { pubkey: Some(prev_pubkey_hash(tx, prev, i)), ..t.vin[i] }), ..t }
}

/// The digest signed for input `i`: the hash of its signing copy.
pub open spec fn signing_digest(tx: TransactionModel, prev: Seq<TransactionModel>, i: int) -> Seq<u8> {
    tx_hash(signing_copy(tx, prev, i))
}

/// The transaction with every input signed under `sk`.
pub open spec fn signed(tx: TransactionModel, prev: Seq<TransactionModel>, sk: Seq<u8>) -> TransactionModel {
    TransactionModel {
        vin: Seq::new(
            tx.vin.len(),
            |i: int| TxInputModel { signature: Some(ecdsa_signature_of(signing_digest(tx, prev, i), sk)), ..tx.vin[i] },
        ),
        ..tx
    }
}

/// Input `i` carries a signature and a public key, and the signature
/// verifies under that key for the input's digest.
pub open spec fn input_verifies(tx: TransactionModel, prev: Seq<TransactionModel>, i: int) -> bool {
    match (tx.vin[i].signature, tx.vin[i].pubkey) {
        (Some(sig), Some(pk)) => ecdsa_verifies(signing_digest(tx, prev, i), sig, pk),
        _ => false,
    }
}

/// A transaction verifies when it is a coinbase or every input verifies.
pub open spec fn verifies(tx: TransactionModel, prev: Seq<TransactionModel>) -> bool {
    is_coinbase_model(tx) || forall|i: int| 0 <= i < tx.vin.len() ==> #[trigger] input_verifies(tx, prev, i)
}

/// The first transaction with id `txid` among `prev_txs`.
pub fn lookup_prev<'a>(prev_txs: &'a Vec<Transaction>, txid: &[u8]) -> (p: Option<&'a Transaction>)
    ensures
        match p {
            Some(t) => find_prev(txs_view(prev_txs@), txid@) == Some(t@),
            None => find_prev(txs_view(prev_txs@), txid@) is None,
        },
{
    let ghost all = txs_view(prev_txs@);
    assert(all.subrange(0, all.len() as int) =~= all);
    let mut i: usize = 0;
    while i < prev_txs.len()
        invariant
            i <= prev_txs@.len(),
            all == txs_view(prev_txs@),
            find_prev(all, txid@) == find_prev(all.subrange(i as int, all.len() as int), txid@),
        decreases prev_txs@.len() - i,
    {
        let ghost rest = all.subrange(i as int, all.len() as int);
        assert(rest[0] == prev_txs@[i as int]@);
        assert(rest.subrange(1, rest.len() as int) =~= all.subrange(i + 1, all.len() as int));
        if crate::domain::transaction::output::bytes_equal(prev_txs[i].id.as_slice(), txid) {
            return Some(&prev_txs[i]);
        }
        i = i + 1;
    }
    assert(all.subrange(i as int, all.len() as int) =~= Seq::<TransactionModel>::empty());
    None
}

/// The trimmed copy keeps the inputs' count, ids and indices, the outputs and the id.
proof fn lemma_trimmed_shape(tx: TransactionModel)
    ensures
        trimmed(tx).vin.len() == tx.vin.len(),
        trimmed(tx).id == tx.id,
        trimmed(tx).vout == tx.vout,
        forall|i: int| 0 <= i < tx.vin.len() ==> (#[trigger] trimmed(tx).vin[i]) == (TxInputModel { signature: None, pubkey: None, ..tx.vin[i] }),
{
}

impl Transaction {
    /// Signs every input with the secret key `sk`: the signature of input
    /// `i` is the ECDSA signature of its digest (see [`signing_digest`]). A
    /// coinbase is left as it is. Every input whose public key is that of
    /// `sk` then verifies.
    pub fn sign(&mut self, sk: &[u8], prev_txs: &Vec<Transaction>)
        requires
            is_secret_key(sk@),
            !is_coinbase_model(old(self)@) ==> has_prev_outputs(old(self)@, txs_view(prev_txs@)),
        ensures
            is_coinbase_model(old(self)@) ==> final(self)@ == old(self)@,
            !is_coinbase_model(old(self)@) ==> final(self)@ == signed(old(self)@, txs_view(prev_txs@), sk@),
            forall|i: int| 0 <= i < final(self)@.vin.len() && final(self)@.vin[i].pubkey == Some(secp256k1_public_key_of(sk@))
                && !is_coinbase_model(old(self)@) ==> #[trigger] input_verifies(final(self)@, txs_view(prev_txs@), i),
    {
        if self.is_coinbase() {
            return;
        }
        let ghost orig = self@;
        let ghost prev = txs_view(prev_txs@);
        let mut tx_copy = self.trimmed_copy();
        proof {
            lemma_trimmed_shape(orig);
        }
        let mut in_id: usize = 0;
        while in_id < tx_copy.vin.len()
            invariant
                prev == txs_view(prev_txs@),
                is_secret_key(sk@),
                has_prev_outputs(orig, prev),
                in_id <= tx_copy.vin@.len(),
                tx_copy.vin@.len() == orig.vin.len(),
                self.vin@.len() == orig.vin.len(),
                (TransactionModel { id: orig.id, ..tx_copy@ }) == trimmed(orig),
                self@.id == orig.id,
                self@.vout == orig.vout,
                forall|j: int| 0 <= j < in_id ==> (#[trigger] self@.vin[j]) == signed(orig, prev, sk@).vin[j],
                forall|j: int| in_id <= j < orig.vin.len() ==> (#[trigger] self@.vin[j]) == orig.vin[j],
                forall|j: int| 0 <= j < in_id ==> ecdsa_verifies(signing_digest(orig, prev, j), (#[trigger] signed(orig, prev, sk@).vin[j]).signature.unwrap(), secp256k1_public_key_of(sk@)),
            decreases tx_copy.vin@.len() - in_id,
        {
            assert(self@.vin[in_id as int] == self.vin@[in_id as int]@);
            assert(find_prev(prev, orig.vin[in_id as int].txid) is Some);
            let prev_tx = match lookup_prev(prev_txs, self.vin[in_id].txid.as_slice()) {
                Some(p) => p,
                None => {
                    return;
                },
            };
            assert(prev_tx@.vout[self.vin[in_id as int].vout as int] == prev_tx.vout@[self.vin[in_id as int].vout as int]@);
            let pkh = copy_bytes(&prev_tx.vout[self.vin[in_id].vout as usize].pubkey_hash);
            let mut input = tx_copy.vin[in_id].clone();
            input.signature = None;
            input.pubkey = Some(pkh);
            tx_copy.vin.set(in_id, input);
            let ghost signing = tx_copy@;
            assert(TransactionModel { id: orig.id, ..signing } == signing_copy(orig, prev, in_id as int)) by {
                assert(signing.vin =~= signing_copy(orig, prev, in_id as int).vin);
            }
            tx_copy.id = tx_copy.hash();
            assert(tx_hash(signing) == signing_digest(orig, prev, in_id as int));
            let mut cleared = tx_copy.vin[in_id].clone();
            cleared.pubkey = None;
            tx_copy.vin.set(in_id, cleared);
            assert(TransactionModel { id: orig.id, ..tx_copy@ } == trimmed(orig)) by {
                assert(tx_copy@.vin =~= trimmed(orig).vin);
            }
            let signature = ecdsa_sign(tx_copy.id.as_slice(), sk);
            let mut signed_input = self.vin[in_id].clone();
            signed_input.signature = Some(signature);
            let ghost before = self@.vin;
            assert(signed_input@ == signed(orig, prev, sk@).vin[in_id as int]);
            self.vin.set(in_id, signed_input);
            assert(self@.vin =~= before.update(in_id as int, signed_input@));
            in_id = in_id + 1;
        }
        assert(self@.vin =~= signed(orig, prev, sk@).vin);
        proof {
            assert forall|i: int| 0 <= i < self@.vin.len() && self@.vin[i].pubkey == Some(secp256k1_public_key_of(sk@))
                implies #[trigger] input_verifies(self@, prev, i) by {
                assert(trimmed(self@) =~= trimmed(orig)) by {
                    assert(trimmed(self@).vin =~= trimmed(orig).vin);
                }
                assert(signing_copy(self@, prev, i) == signing_copy(orig, prev, i)) by {
                    assert(signing_copy(self@, prev, i).vin =~= signing_copy(orig, prev, i).vin);
                }
            }
        }
    }

    /// Whether every input's signature verifies under its public key (see
    /// [`verifies`]); a coinbase verifies.
    pub fn verify(&self, prev_txs: &Vec<Transaction>) -> (ok: bool)
        requires
            !is_coinbase_model(self@) ==> has_prev_outputs(self@, txs_view(prev_txs@)),
        ensures
            ok == verifies(self@, txs_view(prev_txs@)),
            !is_coinbase_model(self@) ==> (ok <==> forall|i: int|
                0 <= i < self@.vin.len() ==> #[trigger] input_verifies(self@, txs_view(prev_txs@), i)),
    {
        if self.is_coinbase() {
            return true;
        }
        let ghost prev = txs_view(prev_txs@);
        let mut tx_copy = self.trimmed_copy();
        proof {
            lemma_trimmed_shape(self@);
        }
        let mut in_id: usize = 0;
        while in_id < self.vin.len()
            invariant
                prev == txs_view(prev_txs@),
                has_prev_outputs(self@, prev),
                !is_coinbase_model(self@),
                in_id <= self.vin@.len(),
                tx_copy.vin@.len() == self@.vin.len(),
                (TransactionModel { id: self@.id, ..tx_copy@ }) == trimmed(self@),
                forall|j: int| 0 <= j < in_id ==> #[trigger] input_verifies(self@, prev, j),
            decreases self.vin@.len() - in_id,
        {
            assert(self@.vin[in_id as int] == self.vin@[in_id as int]@);
            assert(find_prev(prev, self@.vin[in_id as int].txid) is Some);
            let prev_tx = match lookup_prev(prev_txs, self.vin[in_id].txid.as_slice()) {
                Some(p) => p,
                None => {
                    return false;
                },
            };
            assert(prev_tx@.vout[self.vin[in_id as int].vout as int] == prev_tx.vout@[self.vin[in_id as int].vout as int]@);
            let pkh = copy_bytes(&prev_tx.vout[self.vin[in_id].vout as usize].pubkey_hash);
            let mut input = tx_copy.vin[in_id].clone();
            input.pubkey = Some(pkh);
            tx_copy.vin.set(in_id, input);
            let ghost signing = tx_copy@;
            assert(TransactionModel { id: self@.id, ..signing } == signing_copy(self@, prev, in_id as int)) by {
                assert(signing.vin =~= signing_copy(self@, prev, in_id as int).vin);
            }
            let digest = tx_copy.hash();
            assert(digest@ == signing_digest(self@, prev, in_id as int));
            let mut cleared = tx_copy.vin[in_id].clone();
            cleared.pubkey = None;
            tx_copy.vin.set(in_id, cleared);
            assert(TransactionModel { id: self@.id, ..tx_copy@ } == trimmed(self@)) by {
                assert(tx_copy@.vin =~= trimmed(self@).vin);
            }
            let ok = match (&self.vin[in_id].signature, &self.vin[in_id].pubkey) {
                (Some(sig), Some(pk)) => ecdsa_verify(digest.as_slice(), sig.as_slice(), pk.as_slice()),
                _ => false,
            };
            assert(ok == input_verifies(self@, prev, in_id as int));
            if !ok {
                return false;
            }
            in_id = in_id + 1;
        }
        true
    }
}

/// The inputs that spend the listed outputs: for each transaction id (as
/// hexadecimal text) and each listed index, an input with the decoded id,
/// the index and the public key `pk`; `None` if an id is not hexadecimal.
pub open spec fn inputs_for(valid: Seq<(Seq<char>, Seq<u8>)>, pk: Seq<u8>) -> Option<Seq<TxInputModel>>
    decreases valid.len(),
{
    if valid.len() == 0 {
        Some(Seq::empty())
    } else {
        match inputs_for(valid.drop_last(), pk) {
            None => None,
            Some(prefix) => match hex_decoding_of(text_bytes(valid.last().0)) {
                None => None,
                Some(id) => Some(
                    prefix + Seq::new(
                        valid.last().1.len(),
                        |k: int| TxInputModel { txid: id, vout: valid.last().1[k], signature: None, pubkey: Some(pk) },
                    ),
                ),
            },
        }
    }
}

/// The outputs of a payment: `amount` to `to`, and the change (if any) back to `from`.
pub open spec fn payment_outputs(from: Seq<char>, to: Seq<char>, amount: u32, acc: u64) -> Seq<TxOutputModel> {
    let pay = seq![TxOutputModel { value: amount, pubkey_hash: address_pubkey_hash(text_bytes(to)) }];
    if acc > amount {
        pay.push(TxOutputModel { value: (acc - amount) as u32, pubkey_hash: address_pubkey_hash(text_bytes(from)) })
    } else {
        pay
    }
}

/// The transaction that pays `amount` from `from` to `to` out of spendable
/// outputs worth `acc`, or why there is none.
pub open spec fn payment(
    from: Seq<char>,
    to: Seq<char>,
    amount: u32,
    acc: u64,
    valid: Seq<(Seq<char>, Seq<u8>)>,
    pk: Seq<u8>,
) -> Result<TransactionModel, TxError> {
    if acc < amount {
        Err(TxError::NotEnoughFunds)
    } else {
        match inputs_for(valid, pk) {
            None => Err(TxError::InvalidTxId),
            Some(vin) => if acc - amount > u32::MAX {
                Err(TxError::ChangeTooLarge)
            } else {
                let t = TransactionModel { id: Seq::empty(), vin, vout: payment_outputs(from, to, amount, acc) };
                Ok(TransactionModel { id: tx_hash(t), ..t })
            },
        }
    }
}

/// The addresses a payment locks outputs to can lock them.
pub open spec fn payment_addresses_ok(
    from: Seq<char>,
    to: Seq<char>,
    amount: u32,
    acc: u64,
    valid: Seq<(Seq<char>, Seq<u8>)>,
    pk: Seq<u8>,
) -> bool {
    acc >= amount && inputs_for(valid, pk) is Some && acc - amount <= u32::MAX ==> {
        &&& is_lockable_address(text_bytes(to))
        &&& acc > amount ==> is_lockable_address(text_bytes(from))
    }
}

impl Clone for TxError {
    fn clone(&self) -> (r: Self)
        ensures
            r == *self,
    {
        match self {
            TxError::WalletNotFound => TxError::WalletNotFound,
            TxError::NotEnoughFunds => TxError::NotEnoughFunds,
            TxError::InvalidTxId => TxError::InvalidTxId,
            TxError::ChangeTooLarge => TxError::ChangeTooLarge,
        }
    }
}

impl Transaction {
    /// Builds the payment of `amount` from `from` to `to` out of the
    /// spendable outputs `valid_outputs` worth `acc` (see [`payment`]); the
    /// inputs carry the sender's public key `pubkey`.
    pub fn build_payment(
        from: &str,
        to: String,
        amount: u32,
        acc: u64,
        valid_outputs: &Vec<(String, Vec<u8>)>,
        pubkey: Vec<u8>,
    ) -> (res: Result<Transaction, TxError>)
        requires
            payment_addresses_ok(from@, to@, amount, acc, pairs_view(valid_outputs@), pubkey@),
        ensures
            res matches Ok(t) ==> t@.vout[0].value == amount
                && t@.vout[0].pubkey_hash == address_pubkey_hash(text_bytes(to@))
                && (acc > amount ==> t@.vout.len() == 2 && t@.vout[1].value == acc - amount
                    && t@.vout[1].pubkey_hash == address_pubkey_hash(text_bytes(from@))),
            match res {
                Ok(t) => payment(from@, to@, amount, acc, pairs_view(valid_outputs@), pubkey@) == Ok::<TransactionModel, TxError>(t@),
                Err(e) => payment(from@, to@, amount, acc, pairs_view(valid_outputs@), pubkey@) == Err::<TransactionModel, TxError>(e),
            },
    {
        let ghost valid = pairs_view(valid_outputs@);
        if acc < amount as u64 {
            return Err(TxError::NotEnoughFunds);
        }
        let mut inputs: Vec<TxInput> = Vec::new();
        let mut i: usize = 0;
        while i < valid_outputs.len()
            invariant
                i <= valid_outputs@.len(),
                valid == pairs_view(valid_outputs@),
                acc >= amount,
                inputs_for(valid.take(i as int), pubkey@) == Some(inputs_view(inputs@)),
            decreases valid_outputs@.len() - i,
        {
            assert(valid.take(i + 1).drop_last() =~= valid.take(i as int));
            assert(valid.take(i + 1).last() == valid[i as int]);
            let tx_id = match hex_decode(valid_outputs[i].0.as_str().as_bytes()) {
                Some(d) => d,
                None => {
                    assert(inputs_for(valid.take(i + 1), pubkey@) is None);
                    proof {
                        lemma_inputs_for_none(valid, pubkey@, i + 1);
                    }
                    assert(valid.take(valid.len() as int) =~= valid);
                    return Err(TxError::InvalidTxId);
                },
            };
            let outs = &valid_outputs[i].1;
            let ghost prefix = inputs_view(inputs@);
            let mut k: usize = 0;
            while k < outs.len()
                invariant
                    k <= outs@.len(),
                    inputs_view(inputs@) == prefix + Seq::new(
                        k as nat,
                        |m: int| TxInputModel { txid: tx_id@, vout: outs@[m], signature: None, pubkey: Some(pubkey@) },
                    ),
                decreases outs@.len() - k,
            {
                let input = TxInput { txid: copy_bytes(&tx_id), vout: outs[k], signature: None, pubkey: Some(copy_bytes(&pubkey)) };
                let ghost before = inputs_view(inputs@);
                let ghost model = input@;
                inputs.push(input);
                assert(inputs_view(inputs@) =~= before.push(model));
                assert(inputs_view(inputs@) =~= prefix + Seq::new(
                    (k + 1) as nat,
                    |m: int| TxInputModel { txid: tx_id@, vout: outs@[m], signature: None, pubkey: Some(pubkey@) },
                ));
                k = k + 1;
            }
            i = i + 1;
        }
        assert(valid.take(valid.len() as int) =~= valid);
        let change: u64 = acc - amount as u64;
        if change > 0xffff_ffffu64 {
            return Err(TxError::ChangeTooLarge);
        }
        let mut outputs: Vec<TxOutput> = Vec::new();
        outputs.push(TxOutput::new(amount, to));
        if acc > amount as u64 {
            outputs.push(TxOutput::new(change as u32, from.to_owned()));
        }
        assert(outputs_view(outputs@) =~= payment_outputs(from@, to@, amount, acc));
        let mut tx = Transaction { id: Vec::new(), vin: inputs, vout: outputs };
        tx.id = tx.hash();
        proof {
            lemma_payment_pays_and_returns_change(from@, to@, amount, acc, pairs_view(valid_outputs@), pubkey@);
        }
        Ok(tx)
    }

    /// Builds a payment of `amount` from the wallet of `from` to `to`, out of
    /// the outputs the index of unspent outputs holds for the wallet's key
    /// (see [`find_spendable_outputs`] and [`utxo_payment`]): an unknown
    /// sender gives `WalletNotFound`; otherwise the result is the payment
    /// built from the spendable outputs of the hash of the wallet's public
    /// key, whose inputs carry that public key. The key is taken as the 65
    /// serialized bytes the wallet's address is built from, so the hash is the
    /// one outputs paid to that address are locked with, and the inputs carry
    /// a key that signature checks can parse.
    pub fn new_utxo_transaction(
        from: &str,
        to: String,
        amount: u32,
        wallets: &Wallets,
        utxo: &ByteMap<TxOutputs>,
    ) -> (res: Result<Transaction, TxError>)
        requires
            wallets.wf(),
            utxo.wf(),
            wallets.view().dom().contains(from@) ==> utxo_payment_addresses_ok(
                from@, to@, amount, wallets.view()[from@], utxo.view(), utxo.key_order()),
        ensures
            !wallets.view().dom().contains(from@) ==> res == Err::<Transaction, TxError>(TxError::WalletNotFound),
            wallets.view().dom().contains(from@) ==> match res {
                Ok(t) => utxo_payment(from@, to@, amount, wallets.view()[from@], utxo.view(), utxo.key_order())
                    == Ok::<TransactionModel, TxError>(t@),
                Err(e) => utxo_payment(from@, to@, amount, wallets.view()[from@], utxo.view(), utxo.key_order())
                    == Err::<TransactionModel, TxError>(e),
            },
    {
        let wallet = match wallets.get_wallet(from) {
            Some(w) => w,
            None => return Err(TxError::WalletNotFound),
        };
        let pubkey = copy_bytes(&wallet.public_key);
        let pubkey_hash = hash_pubkey(copy_bytes(&pubkey));
        let (acc, valid_outputs) = find_spendable_outputs(utxo, pubkey_hash, amount);
        Self::build_payment(from, to, amount, acc, &valid_outputs, pubkey)
    }

    /// Like [`Transaction::new_utxo_transaction`], but `None` where `from` or
    /// `to` cannot lock an output.
    pub fn try_new_utxo_transaction(
        from: &str,
        to: String,
        amount: u32,
        wallets: &Wallets,
        utxo: &ByteMap<TxOutputs>,
    ) -> (res: Option<Result<Transaction, TxError>>)
        requires
            wallets.wf(),
            utxo.wf(),
        ensures
            res is None <==> !(is_lockable_address(text_bytes(to@)) && is_lockable_address(text_bytes(from@))),
            res matches Some(r) ==> {
                &&& !wallets.view().dom().contains(from@) ==> r == Err::<Transaction, TxError>(TxError::WalletNotFound)
                &&& wallets.view().dom().contains(from@) ==> match r {
                    Ok(t) => utxo_payment(from@, to@, amount, wallets.view()[from@], utxo.view(), utxo.key_order())
                        == Ok::<TransactionModel, TxError>(t@),
                    Err(e) => utxo_payment(from@, to@, amount, wallets.view()[from@], utxo.view(), utxo.key_order())
                        == Err::<TransactionModel, TxError>(e),
                }
            },
    {
        if check_address(to.as_str()) && check_address(from) {
            Some(Self::new_utxo_transaction(from, to, amount, wallets, utxo))
        } else {
            None
        }
    }
}

/// The spendable outputs of a wallet toward `amount`: those of the hash of
/// its public key (see [`spendable`]).
pub open spec fn wallet_spendable(w: WalletModel, amount: u32, m: UtxoMap, keys: Seq<Seq<u8>>) -> (nat, Seq<(Seq<u8>, Seq<u8>)>) {
    spendable(m, keys, pubkey_hash_of(w.public_key), amount as nat)
}

/// The payment of `amount` from `from` (whose wallet is `w`) to `to` out of
/// the wallet's spendable outputs in the index, the inputs carrying the
/// wallet's public key.
pub open spec fn utxo_payment(from: Seq<char>, to: Seq<char>, amount: u32, w: WalletModel, m: UtxoMap, keys: Seq<Seq<u8>>) -> Result<TransactionModel, TxError> {
    let sp = wallet_spendable(w, amount, m, keys);
    payment(from, to, amount, sp.0 as u64, spendable_hex(sp.1), w.public_key)
}

/// The addresses that [`utxo_payment`] locks outputs to can lock them.
pub open spec fn utxo_payment_addresses_ok(from: Seq<char>, to: Seq<char>, amount: u32, w: WalletModel, m: UtxoMap, keys: Seq<Seq<u8>>) -> bool {
    let sp = wallet_spendable(w, amount, m, keys);
    payment_addresses_ok(from, to, amount, sp.0 as u64, spendable_hex(sp.1), w.public_key)
}

/// The contents of (text, bytes) pairs.
pub open spec fn pairs_view(v: Seq<(String, Vec<u8>)>) -> Seq<(Seq<char>, Seq<u8>)> {
    v.map_values(|p: (String, Vec<u8>)| (p.0@, p.1@))
}

/// Once an id fails to decode, so do all longer prefixes.
proof fn lemma_inputs_for_none(valid: Seq<(Seq<char>, Seq<u8>)>, pk: Seq<u8>, n: int)
    requires
        0 <= n <= valid.len(),
        inputs_for(valid.take(n), pk) is None,
    ensures
        inputs_for(valid.take(valid.len() as int), pk) is None,
    decreases valid.len() - n,
{
    if n < valid.len() {
        assert(valid.take(n + 1).drop_last() =~= valid.take(n));
        lemma_inputs_for_none(valid, pk, n + 1);
    }
}

impl Transaction {
    /// Whether every input refers to a transaction among `prev_txs` that has
    /// the output it names (see [`has_prev_outputs`]).
    pub fn prev_outputs_present(&self, prev_txs: &Vec<Transaction>) -> (ok: bool)
        ensures
            ok == has_prev_outputs(self@, txs_view(prev_txs@)),
    {
        let ghost prev = txs_view(prev_txs@);
        let mut i: usize = 0;
        while i < self.vin.len()
            invariant
                i <= self.vin@.len(),
                prev == txs_view(prev_txs@),
                forall|j: int| 0 <= j < i ==> {
                    &&& #[trigger] find_prev(prev, self@.vin[j].txid) is Some
                    &&& (self@.vin[j].vout as int) < find_prev(prev, self@.vin[j].txid).unwrap().vout.len()
                },
            decreases self.vin@.len() - i,
        {
            assert(self@.vin[i as int] == self.vin@[i as int]@);
            match lookup_prev(prev_txs, self.vin[i].txid.as_slice()) {
                Some(p) => {
                    if self.vin[i].vout as usize >= p.vout.len() {
                        assert(!((self@.vin[i as int].vout as int) < find_prev(prev, self@.vin[i as int].txid).unwrap().vout.len()));
                        return false;
                    }
                },
                None => {
                    assert(!(find_prev(prev, self@.vin[i as int].txid) is Some));
                    return false;
                },
            }
            i = i + 1;
        }
        true
    }
}

/// A transaction's hash does not depend on the transaction: it is the
/// SHA-256 of the empty byte string, since the serialized id of the copy
/// with an emptied id is empty.
pub proof fn lemma_tx_hash_constant(tx: TransactionModel)
    ensures
        tx_hash(tx) == sha256_of(Seq::empty()),
{
}

/// A coinbase-shaped transaction is recognized as a coinbase.
pub proof fn lemma_coinbase_is_coinbase(to: Seq<char>, data: Seq<char>, reward: u32)
    ensures
        is_coinbase_model(coinbase_model(to, data, reward)),
{
}

/// A transaction that is not a coinbase verifies exactly when every one of
/// its inputs does: one input whose signature does not verify makes the
/// whole transaction fail.
pub proof fn lemma_verifies_every_input(tx: TransactionModel, prev: Seq<TransactionModel>, j: int)
    requires
        !is_coinbase_model(tx),
    ensures
        verifies(tx, prev) <==> forall|i: int| 0 <= i < tx.vin.len() ==> #[trigger] input_verifies(tx, prev, i),
        0 <= j < tx.vin.len() && !input_verifies(tx, prev, j) ==> !verifies(tx, prev),
{
}

/// The total value of some outputs.
pub open spec fn outputs_total(outs: Seq<TxOutputModel>) -> int
    decreases outs.len(),
{
    if outs.len() == 0 {
        0
    } else {
        outputs_total(outs.drop_last()) + outs.last().value
    }
}

/// A payment pays `amount` to the key hash `to` carries, first; any change
/// (`acc - amount`) goes back, second, to the key hash `from` carries, and to
/// no one else; the outputs add up to what the spent outputs hold.
pub proof fn lemma_payment_pays_and_returns_change(
    from: Seq<char>,
    to: Seq<char>,
    amount: u32,
    acc: u64,
    valid: Seq<(Seq<char>, Seq<u8>)>,
    pk: Seq<u8>,
)
    requires
        payment(from, to, amount, acc, valid, pk) is Ok,
    ensures
        ({
            let t = payment(from, to, amount, acc, valid, pk)->Ok_0;
            &&& t.vout[0].value == amount
            &&& t.vout[0].pubkey_hash == address_pubkey_hash(text_bytes(to))
            &&& acc == amount ==> t.vout.len() == 1
            &&& acc > amount ==> t.vout.len() == 2 && t.vout[1].value == acc - amount
                && t.vout[1].pubkey_hash == address_pubkey_hash(text_bytes(from))
            &&& outputs_total(t.vout) == acc
        }),
{
    let t = payment(from, to, amount, acc, valid, pk)->Ok_0;
    let pay = seq![TxOutputModel { value: amount, pubkey_hash: address_pubkey_hash(text_bytes(to)) }];
    assert(pay.drop_last() =~= Seq::<TxOutputModel>::empty());
    assert(outputs_total(pay.drop_last()) == 0);
    assert(pay.last().value == amount);
    assert(outputs_total(pay) == amount);
    if acc > amount {
        let both = pay.push(TxOutputModel { value: (acc - amount) as u32, pubkey_hash: address_pubkey_hash(text_bytes(from)) });
        assert(both.drop_last() =~= pay);
        assert(t.vout == both);
    } else {
        assert(t.vout == pay);
    }
}

} // verus!
