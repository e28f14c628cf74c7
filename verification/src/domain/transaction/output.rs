//! Transaction outputs, and the index of unspent outputs kept beside the chain.

use vstd::prelude::*;
use vstd::utf8::encode_utf8;
use crate::crypto::{bs58_decode, bs58_decoding_of, hex_encode, hex_text};
use super::input::{copy_bytes, TxInputModel};
use super::transaction::{Transaction, TransactionModel, is_coinbase_model, outputs_view, copy_outputs, pairs_view};
use crate::domain::byte_map::{ByteMap, CopyView};
use crate::domain::blockchain::block::Block;

verus! {

/// An amount of coins locked to the hash of a public key.
pub struct TxOutput {
    pub value: u32,
    pub pubkey_hash: Vec<u8>,
}

/// The mathematical value of a [`TxOutput`].
pub struct TxOutputModel {
    pub value: u32,
    pub pubkey_hash: Seq<u8>,
}

impl View for TxOutput {
    type V = TxOutputModel;

    open spec fn view(&self) -> TxOutputModel {
        TxOutputModel { value: self.value, pubkey_hash: self.pubkey_hash@ }
    }
}

impl Clone for TxOutput {
    fn clone(&self) -> (r: Self)
        ensures
            r@ == self@,
    {
        TxOutput { value: self.value, pubkey_hash: copy_bytes(&self.pubkey_hash) }
    }
}

/// The UTF-8 bytes of a text.
pub open spec fn text_bytes(text: Seq<char>) -> Seq<u8> {
    encode_utf8(text)
}

/// An address can lock an output when its Base58 decoding exists and is at
/// least 21 bytes long (a version byte and a 20-byte public key hash).
pub open spec fn is_lockable_address(address: Seq<u8>) -> bool {
    match bs58_decoding_of(address) {
        Some(d) => d.len() >= 21,
        None => false,
    }
}

/// The public key hash that an address carries: bytes 1 to 20 of its decoding.
pub open spec fn address_pubkey_hash(address: Seq<u8>) -> Seq<u8> {
    bs58_decoding_of(address).unwrap().subrange(1, 21)
}

/// The bytes of a text, in a vector.
pub fn text_to_bytes(text: &str) -> (bytes: Vec<u8>)
    ensures
        bytes@ == text_bytes(text@),
{
    vstd::slice::slice_to_vec(text.as_bytes())
}

/// Decodes an address and checks that it can lock an output.
pub fn check_address(address: &str) -> (ok: bool)
    ensures
        ok == is_lockable_address(text_bytes(address@)),
{
    match bs58_decode(address.as_bytes()) {
        Some(d) => d.len() >= 21,
        None => false,
    }
}

impl TxOutput {
    /// An output of `value` coins locked to the public key hash that `address` carries.
    pub fn new(value: u32, address: String) -> (txo: Self)
        requires
            is_lockable_address(text_bytes(address@)),
        ensures
            txo.value == value,
            txo.pubkey_hash@ == address_pubkey_hash(text_bytes(address@)),
    {
        let mut txo = TxOutput { value: value, pubkey_hash: Vec::new() };
        txo.lock(text_to_bytes(address.as_str()));
        txo
    }

    /// Like [`TxOutput::new`], but gives `None` where the address cannot lock
    /// an output.
    pub fn try_new(value: u32, address: String) -> (txo: Option<Self>)
        ensures
            match txo {
                Some(o) => is_lockable_address(text_bytes(address@)) && o.value == value
                    && o.pubkey_hash@ == address_pubkey_hash(text_bytes(address@)),
                None => !is_lockable_address(text_bytes(address@)),
            },
    {
        if check_address(address.as_str()) {
            Some(TxOutput::new(value, address))
        } else {
            None
        }
    }

    /// Whether the output is locked to exactly `pubkey_hash`.
    pub fn is_locked_with_key(&self, pubkey_hash: Vec<u8>) -> (locked: bool)
        ensures
            locked == (self.pubkey_hash@ == pubkey_hash@),
    {
        bytes_equal(self.pubkey_hash.as_slice(), pubkey_hash.as_slice())
    }

    /// Locks the output to the public key hash carried by the Base58 `address`.
    pub fn lock(&mut self, address: Vec<u8>)
        requires
            is_lockable_address(address@),
        ensures
            final(self).value == old(self).value,
            final(self).pubkey_hash@ == address_pubkey_hash(address@),
    {
        let decoded = bs58_decode(address.as_slice());
        match decoded {
            Some(d) => {
                let part = vstd::slice::slice_subrange(d.as_slice(), 1, 21);
                self.pubkey_hash = vstd::slice::slice_to_vec(part);
            },
            None => {},
        }
    }
}

/// Byte-wise equality of two byte strings.
pub fn bytes_equal(a: &[u8], b: &[u8]) -> (eq: bool)
    ensures
        eq == (a@ == b@),
{
    if a.len() != b.len() {
        return false;
    }
    let mut i: usize = 0;
    while i < a.len()
        invariant
            a@.len() == b@.len(),
            i <= a@.len(),
            forall|j: int| 0 <= j < i ==> a@[j] == b@[j],
        decreases a@.len() - i,
    {
        if a[i] != b[i] {
            return false;
        }
        i = i + 1;
    }
    assert(a@ =~= b@);
    true
}

/// The unspent outputs of one transaction, as kept in the index of unspent
/// outputs: each output with its index in the transaction.
pub struct TxOutputs {
    pub outputs: Vec<(u8, TxOutput)>,
}

/// The values of indexed outputs.
pub open spec fn indexed_view(v: Seq<(u8, TxOutput)>) -> Seq<(u8, TxOutputModel)> {
    v.map_values(|e: (u8, TxOutput)| (e.0, e.1@))
}

impl View for TxOutputs {
    type V = Seq<(u8, TxOutputModel)>;

    open spec fn view(&self) -> Seq<(u8, TxOutputModel)> {
        indexed_view(self.outputs@)
    }
}

/// A copy of a list of indexed outputs.
pub fn copy_indexed(v: &Vec<(u8, TxOutput)>) -> (r: Vec<(u8, TxOutput)>)
    ensures
        indexed_view(r@) == indexed_view(v@),
{
    let mut r: Vec<(u8, TxOutput)> = Vec::new();
    let mut i: usize = 0;
    while i < v.len()
        invariant
            i <= v@.len(),
            r@.len() == i,
            forall|j: int| 0 <= j < i ==> (#[trigger] r@[j]).0 == v@[j].0 && r@[j].1@ == v@[j].1@,
        decreases v@.len() - i,
    {
        r.push((v[i].0, v[i].1.clone()));
        i = i + 1;
    }
    assert(indexed_view(r@) =~= indexed_view(v@));
    r
}

impl CopyView for TxOutputs {
    fn copy(&self) -> (r: Self) {
        TxOutputs { outputs: copy_indexed(&self.outputs) }
    }
}

/// Unspent outputs by transaction id, each with its index in its transaction.
pub type UtxoMap = Map<Seq<u8>, Seq<(u8, TxOutputModel)>>;

/// The outputs of a transaction, each with its index (as a byte, the width
/// of an input's output index).
pub open spec fn indexed(vout: Seq<TxOutputModel>) -> Seq<(u8, TxOutputModel)> {
    Seq::new(vout.len(), |k: int| (k as u8, vout[k]))
}

/// The outputs without those stored with index `vout`.
pub open spec fn without_output(outs: Seq<(u8, TxOutputModel)>, vout: u8) -> Seq<(u8, TxOutputModel)>
    decreases outs.len(),
{
    if outs.len() == 0 {
        outs
    } else {
        let rest = without_output(outs.drop_last(), vout);
        if outs.last().0 == vout {
            rest
        } else {
            rest.push(outs.last())
        }
    }
}

/// Spends the output an input refers to: the output stored with the input's
/// index leaves its transaction's entry, and an entry left empty is removed;
/// an input whose transaction has no entry changes nothing.
pub open spec fn spend_input(m: UtxoMap, vin: TxInputModel) -> UtxoMap {
    if m.dom().contains(vin.txid) {
        let rest = without_output(m[vin.txid], vin.vout);
        if rest.len() == 0 {
            m.remove(vin.txid)
        } else {
            m.insert(vin.txid, rest)
        }
    } else {
        m
    }
}

/// Spends the outputs the inputs refer to, in order.
pub open spec fn spend_inputs(m: UtxoMap, vins: Seq<TxInputModel>) -> UtxoMap
    decreases vins.len(),
{
    if vins.len() == 0 {
        m
    } else {
        spend_input(spend_inputs(m, vins.drop_last()), vins.last())
    }
}

/// Applies a transaction: unless it is a coinbase its inputs spend their
/// outputs; then its own outputs are recorded under its id.
pub open spec fn apply_tx(m: UtxoMap, tx: TransactionModel) -> UtxoMap {
    let spent = if is_coinbase_model(tx) {
        m
    } else {
        spend_inputs(m, tx.vin)
    };
    spent.insert(tx.id, indexed(tx.vout))
}

/// Applies the transactions in order.
pub open spec fn apply_txs(m: UtxoMap, txs: Seq<TransactionModel>) -> UtxoMap
    decreases txs.len(),
{
    if txs.len() == 0 {
        m
    } else {
        apply_tx(apply_txs(m, txs.drop_last()), txs.last())
    }
}

/// The outputs without those stored with index `vout`.
pub fn remove_output(outs: &TxOutputs, vout: u8) -> (r: TxOutputs)
    ensures
        r@ == without_output(outs@, vout),
{
    let mut updated: Vec<(u8, TxOutput)> = Vec::new();
    let mut i: usize = 0;
    while i < outs.outputs.len()
        invariant
            i <= outs.outputs@.len(),
            indexed_view(updated@) == without_output(outs@.take(i as int), vout),
        decreases outs.outputs@.len() - i,
    {
        let ghost before = indexed_view(updated@);
        assert(outs@.take(i + 1).drop_last() =~= outs@.take(i as int));
        if outs.outputs[i].0 != vout {
            updated.push((outs.outputs[i].0, outs.outputs[i].1.clone()));
            assert(indexed_view(updated@) =~= before.push(outs@[i as int]));
        }
        i = i + 1;
    }
    assert(outs@.take(outs@.len() as int) =~= outs@);
    TxOutputs { outputs: updated }
}

/// The outputs of a transaction with their indices.
pub fn index_outputs(vout: &Vec<TxOutput>) -> (r: TxOutputs)
    ensures
        r@ == indexed(outputs_view(vout@)),
{
    let mut outputs: Vec<(u8, TxOutput)> = Vec::new();
    let mut k: usize = 0;
    while k < vout.len()
        invariant
            k <= vout@.len(),
            indexed_view(outputs@) == indexed(outputs_view(vout@)).take(k as int),
        decreases vout@.len() - k,
    {
        let idx: u8 = #[verifier::truncate] (k as u8);
        let ghost before = indexed_view(outputs@);
        outputs.push((idx, vout[k].clone()));
        assert(indexed_view(outputs@) =~= indexed(outputs_view(vout@)).take(k + 1)) by {
            assert(indexed_view(outputs@) =~= before.push((idx, vout@[k as int]@)));
        }
        k = k + 1;
    }
    assert(indexed(outputs_view(vout@)).take(vout@.len() as int) =~= indexed(outputs_view(vout@)));
    TxOutputs { outputs }
}

/// Brings the index of unspent outputs up to date with a block: each
/// transaction's inputs spend the outputs they name by index (coinbases
/// excepted), then the transaction's outputs are recorded under its id.
pub fn update_utxo_index(index: &mut ByteMap<TxOutputs>, block: &Block)
    requires
        old(index).wf(),
    ensures
        final(index).wf(),
        final(index).view() == apply_txs(old(index).view(), block@.transactions),
{
    let ghost m0 = index.view();
    let mut i: usize = 0;
    while i < block.transactions.len()
        invariant
            index.wf(),
            i <= block.transactions@.len(),
            index.view() == apply_txs(m0, block@.transactions.take(i as int)),
        decreases block.transactions@.len() - i,
    {
        let tx = &block.transactions[i];
        let ghost mi = index.view();
        if !tx.is_coinbase() {
            let mut j: usize = 0;
            while j < tx.vin.len()
                invariant
                    index.wf(),
                    j <= tx.vin@.len(),
                    index.view() == spend_inputs(mi, tx@.vin.take(j as int)),
                decreases tx.vin@.len() - j,
            {
                let vin = &tx.vin[j];
                let ghost before = index.view();
                match index.get(vin.txid.as_slice()) {
                    Some(outs) => {
                        let updated_outs = remove_output(&outs, vin.vout);
                        if updated_outs.outputs.len() == 0 {
                            index.remove(vin.txid.as_slice());
                        } else {
                            index.insert(copy_bytes(&vin.txid), updated_outs);
                        }
                    },
                    None => {},
                }
                assert(index.view() == spend_input(before, vin@));
                assert(tx@.vin.take(j + 1).drop_last() =~= tx@.vin.take(j as int));
                j = j + 1;
            }
            assert(tx@.vin.take(tx@.vin.len() as int) =~= tx@.vin);
        }
        index.insert(copy_bytes(&tx.id), index_outputs(&tx.vout));
        assert(block@.transactions.take(i + 1).drop_last() =~= block@.transactions.take(i as int));
        i = i + 1;
    }
    assert(block@.transactions.take(block@.transactions.len() as int) =~= block@.transactions);
}

/// The outputs among `outs` locked to `pubkey_hash`, in order.
pub open spec fn locked_in(outs: Seq<(u8, TxOutputModel)>, pubkey_hash: Seq<u8>) -> Seq<TxOutputModel>
    decreases outs.len(),
{
    if outs.len() == 0 {
        Seq::empty()
    } else {
        let rest = locked_in(outs.drop_last(), pubkey_hash);
        if outs.last().1.pubkey_hash == pubkey_hash {
            rest.push(outs.last().1)
        } else {
            rest
        }
    }
}

/// The outputs of the index locked to `pubkey_hash`: transaction by
/// transaction in the order of `keys`, and in each in stored order.
pub open spec fn locked_outputs(m: UtxoMap, keys: Seq<Seq<u8>>, pubkey_hash: Seq<u8>) -> Seq<TxOutputModel>
    decreases keys.len(),
{
    if keys.len() == 0 {
        Seq::empty()
    } else {
        locked_outputs(m, keys.drop_last(), pubkey_hash) + locked_in(m[keys.last()], pubkey_hash)
    }
}

/// The total value of some outputs.
pub open spec fn total_value(outs: Seq<TxOutputModel>) -> nat
    decreases outs.len(),
{
    if outs.len() == 0 {
        0
    } else {
        (total_value(outs.drop_last()) + outs.last().value) as nat
    }
}

/// Picks outputs of one transaction toward `amount`, starting from a total
/// `acc`: in stored order, an output locked to `pubkey_hash` is taken while
/// the total is still below `amount`. Gives the new total and the indices taken.
pub open spec fn pick_outputs(outs: Seq<(u8, TxOutputModel)>, pubkey_hash: Seq<u8>, amount: nat, acc: nat) -> (nat, Seq<u8>)
    decreases outs.len(),
{
    if outs.len() == 0 {
        (acc, Seq::empty())
    } else {
        let (a, idxs) = pick_outputs(outs.drop_last(), pubkey_hash, amount, acc);
        let e = outs.last();
        if e.1.pubkey_hash == pubkey_hash && a < amount {
            ((a + e.1.value) as nat, idxs.push(e.0))
        } else {
            (a, idxs)
        }
    }
}

/// The spendable outputs of `pubkey_hash` toward `amount`: transactions are
/// visited in the order of `keys`; each contributes the indices it gives
/// (see [`pick_outputs`]), listed under its id when there are any. Gives the
/// total and the (id, indices) list.
pub open spec fn spendable(m: UtxoMap, keys: Seq<Seq<u8>>, pubkey_hash: Seq<u8>, amount: nat) -> (nat, Seq<(Seq<u8>, Seq<u8>)>)
    decreases keys.len(),
{
    if keys.len() == 0 {
        (0, Seq::empty())
    } else {
        let (a, groups) = spendable(m, keys.drop_last(), pubkey_hash, amount);
        let (a2, idxs) = pick_outputs(m[keys.last()], pubkey_hash, amount, a);
        if idxs.len() > 0 {
            (a2, groups.push((keys.last(), idxs)))
        } else {
            (a2, groups)
        }
    }
}

/// The (hexadecimal id, indices) list of [`spendable`].
pub open spec fn spendable_hex(groups: Seq<(Seq<u8>, Seq<u8>)>) -> Seq<(Seq<char>, Seq<u8>)> {
    groups.map_values(|g: (Seq<u8>, Seq<u8>)| (hex_text(g.0), g.1))
}

/// Picking never takes the total past `amount` by more than one output's value.
proof fn lemma_pick_bound(outs: Seq<(u8, TxOutputModel)>, pubkey_hash: Seq<u8>, amount: nat, acc: nat)
    requires
        acc <= amount + 0xffff_ffff,
    ensures
        pick_outputs(outs, pubkey_hash, amount, acc).0 <= amount + 0xffff_ffff,
        pick_outputs(outs, pubkey_hash, amount, acc).0 >= acc,
    decreases outs.len(),
{
    if outs.len() > 0 {
        lemma_pick_bound(outs.drop_last(), pubkey_hash, amount, acc);
    }
}

/// The total value of two lists is the sum of their totals.
proof fn lemma_total_value_concat(a: Seq<TxOutputModel>, b: Seq<TxOutputModel>)
    ensures
        total_value(a + b) == total_value(a) + total_value(b),
    decreases b.len(),
{
    if b.len() > 0 {
        lemma_total_value_concat(a, b.drop_last());
        assert((a + b).drop_last() =~= a + b.drop_last());
    }
}

/// When picking within a transaction ends below `amount`, it took every
/// output locked to the key.
proof fn lemma_pick_all_when_short(outs: Seq<(u8, TxOutputModel)>, pubkey_hash: Seq<u8>, amount: nat, acc: nat)
    requires
        pick_outputs(outs, pubkey_hash, amount, acc).0 < amount,
    ensures
        pick_outputs(outs, pubkey_hash, amount, acc).0 == acc + total_value(locked_in(outs, pubkey_hash)),
    decreases outs.len(),
{
    if outs.len() > 0 {
        lemma_pick_monotone(outs, pubkey_hash, amount, acc);
        lemma_pick_monotone(outs.drop_last(), pubkey_hash, amount, acc);
        lemma_pick_all_when_short(outs.drop_last(), pubkey_hash, amount, acc);
        let l = locked_in(outs.drop_last(), pubkey_hash);
        if outs.last().1.pubkey_hash == pubkey_hash {
            assert(l.push(outs.last().1).drop_last() =~= l);
        }
    }
}

/// Picking never lowers the total.
proof fn lemma_pick_monotone(outs: Seq<(u8, TxOutputModel)>, pubkey_hash: Seq<u8>, amount: nat, acc: nat)
    ensures
        pick_outputs(outs, pubkey_hash, amount, acc).0 >= acc,
        outs.len() > 0 ==> pick_outputs(outs, pubkey_hash, amount, acc).0 >= pick_outputs(outs.drop_last(), pubkey_hash, amount, acc).0,
    decreases outs.len(),
{
    if outs.len() > 0 {
        lemma_pick_monotone(outs.drop_last(), pubkey_hash, amount, acc);
    }
}

/// The spendable outputs of a key hash toward an amount fall short of it
/// only when they are all the outputs of the index locked to that key hash:
/// then the total is the total value of those outputs.
pub proof fn lemma_spendable_short_takes_all(m: UtxoMap, keys: Seq<Seq<u8>>, pubkey_hash: Seq<u8>, amount: nat)
    requires
        spendable(m, keys, pubkey_hash, amount).0 < amount,
    ensures
        spendable(m, keys, pubkey_hash, amount).0 == total_value(locked_outputs(m, keys, pubkey_hash)),
    decreases keys.len(),
{
    if keys.len() > 0 {
        let a = spendable(m, keys.drop_last(), pubkey_hash, amount).0;
        lemma_pick_monotone(m[keys.last()], pubkey_hash, amount, a);
        lemma_spendable_short_takes_all(m, keys.drop_last(), pubkey_hash, amount);
        lemma_pick_all_when_short(m[keys.last()], pubkey_hash, amount, a);
        lemma_total_value_concat(locked_outputs(m, keys.drop_last(), pubkey_hash), locked_in(m[keys.last()], pubkey_hash));
    }
}

/// The spendable outputs of `pubkey_hash` toward `amount` (see
/// [`spendable`]): the total, and under each transaction id (as
/// hexadecimal text) the indices of the outputs taken: what a payment of
/// `amount` spends.
pub fn find_spendable_outputs(index: &ByteMap<TxOutputs>, pubkey_hash: Vec<u8>, amount: u32) -> (res: (u64, Vec<(String, Vec<u8>)>))
    requires
        index.wf(),
    ensures
        res.0 == spendable(index.view(), index.key_order(), pubkey_hash@, amount as nat).0,
        pairs_view(res.1@) == spendable_hex(spendable(index.view(), index.key_order(), pubkey_hash@, amount as nat).1),
{
    let ghost keys = index.key_order();
    let ghost m = index.view();
    let mut unspent_outputs: Vec<(String, Vec<u8>)> = Vec::new();
    let mut accumulated: u64 = 0;
    let n = index.len();
    let mut i: usize = 0;
    while i < n
        invariant
            index.wf(),
            keys == index.key_order(),
            m == index.view(),
            n == keys.len(),
            i <= n,
            accumulated as nat == spendable(m, keys.take(i as int), pubkey_hash@, amount as nat).0,
            accumulated <= amount + 0xffff_ffff,
            pairs_view(unspent_outputs@) == spendable_hex(spendable(m, keys.take(i as int), pubkey_hash@, amount as nat).1),
        decreases n - i,
    {
        let (key, outs) = index.entry_at(i);
        let ghost a0 = accumulated as nat;
        let mut idxs: Vec<u8> = Vec::new();
        let mut k: usize = 0;
        while k < outs.outputs.len()
            invariant
                k <= outs@.len(),
                (accumulated as nat, idxs@) == pick_outputs(outs@.take(k as int), pubkey_hash@, amount as nat, a0),
                a0 <= amount + 0xffff_ffff,
            decreases outs@.len() - k,
        {
            assert(outs@.take(k + 1).drop_last() =~= outs@.take(k as int));
            proof {
                lemma_pick_bound(outs@.take(k as int), pubkey_hash@, amount as nat, a0);
            }
            let e = &outs.outputs[k];
            if bytes_equal(e.1.pubkey_hash.as_slice(), pubkey_hash.as_slice()) && accumulated < amount as u64 {
                accumulated = accumulated + e.1.value as u64;
                idxs.push(e.0);
            }
            k = k + 1;
        }
        assert(outs@.take(outs@.len() as int) =~= outs@);
        assert(keys.take(i + 1).drop_last() =~= keys.take(i as int));
        proof {
            lemma_pick_bound(outs@, pubkey_hash@, amount as nat, a0);
        }
        if idxs.len() > 0 {
            let ghost before = pairs_view(unspent_outputs@);
            let id = hex_encode(key.as_slice());
            let ghost idxs_view = idxs@;
            unspent_outputs.push((id, idxs));
            let ghost prev = spendable(m, keys.take(i as int), pubkey_hash@, amount as nat);
            assert(keys.take(i + 1).last() == key@);
            assert(spendable(m, keys.take(i + 1), pubkey_hash@, amount as nat).1 == prev.1.push((key@, idxs_view)));
            assert(pairs_view(unspent_outputs@) =~= before.push((hex_text(key@), idxs_view)));
            assert(pairs_view(unspent_outputs@) =~= spendable_hex(spendable(m, keys.take(i + 1), pubkey_hash@, amount as nat).1));
        }
        i = i + 1;
    }
    assert(keys.take(n as int) =~= keys);
    (accumulated, unspent_outputs)
}

/// The outputs of the index locked to `pubkey_hash` (see [`locked_outputs`]):
/// what an address's balance is summed over.
pub fn find_utxo(index: &ByteMap<TxOutputs>, pubkey_hash: Vec<u8>) -> (outs: Vec<TxOutput>)
    requires
        index.wf(),
    ensures
        outputs_view(outs@) == locked_outputs(index.view(), index.key_order(), pubkey_hash@),
{
    let ghost keys = index.key_order();
    let ghost m = index.view();
    let mut found: Vec<TxOutput> = Vec::new();
    let n = index.len();
    let mut i: usize = 0;
    while i < n
        invariant
            index.wf(),
            keys == index.key_order(),
            m == index.view(),
            n == keys.len(),
            i <= n,
            outputs_view(found@) == locked_outputs(m, keys.take(i as int), pubkey_hash@),
        decreases n - i,
    {
        let (key, outs) = index.entry_at(i);
        let ghost start = outputs_view(found@);
        let mut k: usize = 0;
        while k < outs.outputs.len()
            invariant
                k <= outs@.len(),
                outputs_view(found@) == start + locked_in(outs@.take(k as int), pubkey_hash@),
            decreases outs@.len() - k,
        {
            assert(outs@.take(k + 1).drop_last() =~= outs@.take(k as int));
            let ghost before = outputs_view(found@);
            if bytes_equal(outs.outputs[k].1.pubkey_hash.as_slice(), pubkey_hash.as_slice()) {
                found.push(outs.outputs[k].1.clone());
                assert(outputs_view(found@) =~= before.push(outs@[k as int].1));
            }
            k = k + 1;
        }
        assert(outs@.take(outs@.len() as int) =~= outs@);
        assert(keys.take(i + 1).drop_last() =~= keys.take(i as int));
        i = i + 1;
    }
    assert(keys.take(n as int) =~= keys);
    found
}

/// The balance of an address: the total value of the index's outputs locked
/// to the key hash the address carries (bytes 1 to the fourth last of its
/// Base58 decoding); `None` where the address does not decode to at least
/// five bytes.
pub fn address_balance(address: &str, index: &ByteMap<TxOutputs>) -> (b: Option<u128>)
    requires
        index.wf(),
    ensures
        b is None <==> !(bs58_decoding_of(text_bytes(address@)) matches Some(d) && d.len() >= 5),
        b matches Some(v) ==> v == total_value(locked_outputs(index.view(), index.key_order(),
            bs58_decoding_of(text_bytes(address@)).unwrap().subrange(1, bs58_decoding_of(text_bytes(address@)).unwrap().len() - 4))),
{
    let decoded = match bs58_decode(address.as_bytes()) {
        Some(d) => d,
        None => return None,
    };
    if decoded.len() < 5 {
        return None;
    }
    let pubkey_hash = vstd::slice::slice_to_vec(vstd::slice::slice_subrange(decoded.as_slice(), 1, decoded.len() - 4));
    let outs = find_utxo(index, pubkey_hash);
    let mut balance: u128 = 0;
    let mut i: usize = 0;
    while i < outs.len()
        invariant
            i <= outs@.len(),
            balance == total_value(outputs_view(outs@).take(i as int)),
            balance <= i * 0xffff_ffff,
        decreases outs@.len() - i,
    {
        assert(outputs_view(outs@).take(i + 1).drop_last() =~= outputs_view(outs@).take(i as int));
        assert(balance + outs@[i as int].value <= (i + 1) * 0xffff_ffff) by (nonlinear_arith)
            requires
                balance <= i * 0xffff_ffff,
                outs@[i as int].value <= 0xffff_ffff,
        ;
        balance = balance + outs[i].value as u128;
        i = i + 1;
    }
    assert(outputs_view(outs@).take(outs@.len() as int) =~= outputs_view(outs@));
    Some(balance)
}

} // verus!
