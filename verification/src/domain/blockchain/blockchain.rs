//! The rules of walking the chain: moving the cursor from block to block,
//! finding a transaction, and collecting the unspent outputs.

use vstd::prelude::*;
use crate::crypto::{hex_encode, hex_text, hex_decoding_of, lemma_hex_roundtrip};
use crate::domain::byte_map::ByteMap;
use crate::domain::transaction::input::{TxInputModel, copy_bytes};
use crate::domain::transaction::output::{TxOutputs, TxOutputModel, UtxoMap, bytes_equal, spend_inputs, apply_txs, indexed, indexed_view};
use crate::domain::transaction::transaction::{Transaction, TransactionModel, is_coinbase_model, outputs_view};
use crate::domain::blockchain::block::{Block, BlockModel, is_mined_block};
use crate::domain::transaction::output::{text_bytes, is_lockable_address, check_address};
use crate::domain::transaction::transaction::{coinbase_model, SUBSIDY, txs_view};

verus! {

/// What looking up the cursor's hash in the store gave.
pub enum TipLookup {
    /// The block stored under the hash.
    Found(Block),
    /// Nothing is stored under the hash.
    Missing,
    /// The store could not be read, or its bytes are not a block.
    Failed,
}

/// The key the cursor is set to when a hash is not found.
pub open spec fn missing_tip() -> Seq<char> {
    "tip"@
}

/// The blocks of a store by hash.
pub type BlockStore = Map<Seq<char>, BlockModel>;

/// The text of an optional string.
pub open spec fn opt_text(s: Option<String>) -> Option<Seq<char>> {
    match s {
        Some(t) => Some(t@),
        None => None,
    }
}

/// The value of an optional block.
pub open spec fn opt_block(b: Option<Block>) -> Option<BlockModel> {
    match b {
        Some(b) => Some(b@),
        None => None,
    }
}

/// Whether `lookup` is what reading the cursor's hash in `store` gives: the
/// stored block where there is one, `Missing` where there is none.
pub open spec fn answers(store: BlockStore, hash_tip: Option<String>, lookup: TipLookup) -> bool {
    match hash_tip {
        None => true,
        Some(t) => match lookup {
            TipLookup::Found(b) => store.dom().contains(t@) && store[t@] == b@,
            TipLookup::Missing => !store.dom().contains(t@),
            TipLookup::Failed => false,
        },
    }
}

/// One step of the cursor over a store: the block under the cursor's hash
/// and the cursor moved to its previous hash, or no block and the cursor
/// set to the key "tip" where the hash is not stored.
pub open spec fn cursor_step(store: BlockStore, tip: Option<Seq<char>>) -> (Option<Seq<char>>, Option<BlockModel>) {
    match tip {
        None => (None, None),
        Some(t) => if store.dom().contains(t) {
            (Some(store[t].prev_block_hash), Some(store[t]))
        } else {
            (Some(missing_tip()), None)
        },
    }
}

/// The blocks `n` cursor steps over a store yield from `tip`, in order,
/// with the cursor after them.
pub open spec fn walk(store: BlockStore, tip: Option<Seq<char>>, n: nat) -> (Option<Seq<char>>, Seq<Option<BlockModel>>)
    decreases n,
{
    if n == 0 {
        (tip, Seq::empty())
    } else {
        let (t, bs) = walk(store, tip, (n - 1) as nat);
        let (t2, b) = cursor_step(store, t);
        (t2, bs.push(b))
    }
}

/// A chain held in a store, from its tip back to its first block: each
/// block is stored under its hash, each names the next one as its previous
/// block, the last has no previous hash, and nothing is stored under the
/// empty hash.
pub open spec fn is_stored_chain(store: BlockStore, blocks: Seq<BlockModel>) -> bool {
    &&& blocks.len() > 0
    &&& forall|j: int| 0 <= j < blocks.len() ==> store.dom().contains(#[trigger] blocks[j].hash) && store[blocks[j].hash] == blocks[j]
    &&& forall|j: int| 0 <= j < blocks.len() - 1 ==> #[trigger] blocks[j].prev_block_hash == blocks[j + 1].hash
    &&& blocks.last().prev_block_hash.len() == 0
    &&& !store.dom().contains(Seq::<char>::empty())
}

/// Walking the cursor from the tip of a stored chain yields the chain's
/// blocks from the tip back to the first block, leaves the cursor on the
/// empty hash, and the step after that yields no block.
pub proof fn lemma_walk_chain(store: BlockStore, blocks: Seq<BlockModel>)
    requires
        is_stored_chain(store, blocks),
    ensures
        walk(store, Some(blocks[0].hash), blocks.len()).1 == blocks.map_values(|b: BlockModel| Some(b)),
        walk(store, Some(blocks[0].hash), blocks.len()).0 == Some(Seq::<char>::empty()),
        cursor_step(store, walk(store, Some(blocks[0].hash), blocks.len()).0).1 is None,
{
    lemma_walk_prefix(store, blocks, blocks.len() as int);
    assert(blocks.take(blocks.len() as int) =~= blocks);
    assert(blocks.last().prev_block_hash =~= Seq::<char>::empty());
}

/// The first `n` steps of a walk from the tip of a stored chain.
proof fn lemma_walk_prefix(store: BlockStore, blocks: Seq<BlockModel>, n: int)
    requires
        is_stored_chain(store, blocks),
        1 <= n <= blocks.len(),
    ensures
        walk(store, Some(blocks[0].hash), n as nat).1 == blocks.take(n).map_values(|b: BlockModel| Some(b)),
        walk(store, Some(blocks[0].hash), n as nat).0 == Some(blocks[n - 1].prev_block_hash),
    decreases n,
{
    let tip = Some(blocks[0].hash);
    if n == 1 {
        assert(walk(store, tip, 0) == (tip, Seq::<Option<BlockModel>>::empty()));
        assert(store.dom().contains(blocks[0].hash));
        assert(blocks.take(1).map_values(|b: BlockModel| Some(b)) =~= seq![Some(blocks[0])]);
    } else {
        lemma_walk_prefix(store, blocks, n - 1);
        assert(blocks[n - 2].prev_block_hash == blocks[n - 1].hash);
        assert(store.dom().contains(blocks[n - 1].hash));
        assert(blocks.take(n).map_values(|b: BlockModel| Some(b)) =~= blocks.take(n - 1).map_values(|b: BlockModel| Some(b)).push(Some(blocks[n - 1])));
    }
}

/// One step of the chain cursor. Without a hash there is nothing to read;
/// a found block is returned and the cursor moves to its previous hash; a
/// missing hash sets the cursor to the key "tip"; a failed read changes nothing.
pub fn next_step(hash_tip: &Option<String>, lookup: TipLookup) -> (res: (Option<String>, Option<Block>))
    ensures
        match *hash_tip {
            None => res.0 is None && res.1 is None,
            Some(t) => match lookup {
                TipLookup::Found(b) => res.0 == Some(b.prev_block_hash) && res.1 == Some(b),
                TipLookup::Missing => (res.0 matches Some(s) && s@ == missing_tip()) && res.1 is None,
                TipLookup::Failed => res.0 == Some(t) && res.1 is None,
            },
        },
        forall|store: Map<Seq<char>, BlockModel>|
            #![trigger answers(store, *hash_tip, lookup)]
            answers(store, *hash_tip, lookup) ==> (opt_text(res.0), opt_block(res.1)) == cursor_step(store, opt_text(*hash_tip)),
{
    match hash_tip {
        None => (None, None),
        Some(t) => match lookup {
            TipLookup::Found(block) => {
                let prev = block.prev_block_hash.clone();
                (Some(prev), Some(block))
            },
            TipLookup::Missing => {
                proof {
                    reveal_strlit("tip");
                }
                (Some("tip".to_owned()), None)
            },
            TipLookup::Failed => (Some(t.clone()), None),
        },
    }
}

/// The first transaction of the block with id `id`, if any.
pub fn find_in_block(block: &Block, id: &[u8]) -> (tx: Option<Transaction>)
    ensures
        match tx {
            Some(t) => exists|i: int|
                0 <= i < block@.transactions.len() && block@.transactions[i] == t@ && t@.id == id@
                    && forall|j: int| 0 <= j < i ==> (#[trigger] block@.transactions[j]).id != id@,
            None => forall|i: int| 0 <= i < block@.transactions.len() ==> (#[trigger] block@.transactions[i]).id != id@,
        },
{
    let mut i: usize = 0;
    while i < block.transactions.len()
        invariant
            i <= block.transactions@.len(),
            forall|j: int| 0 <= j < i ==> (#[trigger] block@.transactions[j]).id != id@,
        decreases block.transactions@.len() - i,
    {
        if bytes_equal(block.transactions[i].id.as_slice(), id) {
            let t = block.transactions[i].clone();
            assert(block@.transactions[i as int] == block.transactions@[i as int]@);
            return Some(t);
        }
        assert(block@.transactions[i as int] == block.transactions@[i as int]@);
        i = i + 1;
    }
    None
}

/// Whether the block is the first of its chain: it has no previous hash.
pub fn is_genesis(block: &Block) -> (b: bool)
    ensures
        b == (block@.prev_block_hash.len() == 0),
{
    block.prev_block_hash.as_str().is_empty()
}

/// Spent output indices by transaction id.
pub type SpentMap = Map<Seq<u8>, Seq<u8>>;

/// The value of `k`, or nothing.
pub open spec fn outs_or_empty(m: UtxoMap, k: Seq<u8>) -> Seq<(u8, TxOutputModel)> {
    if m.dom().contains(k) {
        m[k]
    } else {
        Seq::empty()
    }
}

/// The value of `k`, or nothing.
pub open spec fn indices_or_empty(m: SpentMap, k: Seq<u8>) -> Seq<u8> {
    if m.dom().contains(k) {
        m[k]
    } else {
        Seq::empty()
    }
}

/// Whether output `idx` of transaction `id` is recorded as spent; indices
/// are compared as bytes, so they wrap at 256.
pub open spec fn is_recorded_spent(spent: SpentMap, id: Seq<u8>, idx: int) -> bool {
    spent.dom().contains(id) && spent[id].contains(idx as u8)
}

/// Adds the first `k` outputs of a transaction that are not recorded as
/// spent, each with its index, to its entry (an entry is made only when an output is added).
pub open spec fn collect_outputs(utxo: UtxoMap, spent: SpentMap, id: Seq<u8>, vout: Seq<TxOutputModel>, k: nat) -> UtxoMap
    decreases k,
{
    if k == 0 {
        utxo
    } else {
        let u = collect_outputs(utxo, spent, id, vout, (k - 1) as nat);
        if is_recorded_spent(spent, id, k - 1) {
            u
        } else {
            u.insert(id, outs_or_empty(u, id).push(((k - 1) as u8, vout[k - 1])))
        }
    }
}

/// Records the outputs the inputs spend.
pub open spec fn record_spends(spent: SpentMap, vins: Seq<TxInputModel>) -> SpentMap
    decreases vins.len(),
{
    if vins.len() == 0 {
        spent
    } else {
        let s = record_spends(spent, vins.drop_last());
        s.insert(vins.last().txid, indices_or_empty(s, vins.last().txid).push(vins.last().vout))
    }
}

/// Scans one transaction: its unspent outputs are collected, then (unless
/// it is a coinbase) its inputs are recorded as spending.
pub open spec fn scan_tx(st: (UtxoMap, SpentMap), tx: TransactionModel) -> (UtxoMap, SpentMap) {
    (
        collect_outputs(st.0, st.1, tx.id, tx.vout, tx.vout.len()),
        if is_coinbase_model(tx) {
            st.1
        } else {
            record_spends(st.1, tx.vin)
        },
    )
}

/// Scans transactions in order.
pub open spec fn scan_txs(st: (UtxoMap, SpentMap), txs: Seq<TransactionModel>) -> (UtxoMap, SpentMap)
    decreases txs.len(),
{
    if txs.len() == 0 {
        st
    } else {
        scan_tx(scan_txs(st, txs.drop_last()), txs.last())
    }
}

/// Scans a block: all its transactions, except that the scan of a block
/// without a previous hash stops after its first transaction.
pub open spec fn scan_block(st: (UtxoMap, SpentMap), b: BlockModel) -> (UtxoMap, SpentMap) {
    if b.prev_block_hash.len() == 0 && b.transactions.len() > 0 {
        scan_tx(st, b.transactions[0])
    } else {
        scan_txs(st, b.transactions)
    }
}

/// Scans blocks in the order given (newest first, as the cursor yields them).
pub open spec fn scan_blocks(st: (UtxoMap, SpentMap), blocks: Seq<BlockModel>) -> (UtxoMap, SpentMap)
    decreases blocks.len(),
{
    if blocks.len() == 0 {
        st
    } else {
        scan_block(scan_blocks(st, blocks.drop_last()), blocks.last())
    }
}

/// Scanning one more, older block continues the scan of the chain: the scan
/// of blocks followed by `b` is the scan of the blocks, then `b` scanned
/// (as [`UtxoScan::scan_block`] does), so a fresh scan fed the chain block
/// by block, newest first, computes [`scan_blocks`] over the whole chain.
pub proof fn lemma_scan_blocks_step(st: (UtxoMap, SpentMap), blocks: Seq<BlockModel>, b: BlockModel)
    ensures
        scan_blocks(st, blocks.push(b)) == scan_block(scan_blocks(st, blocks), b),
        scan_blocks(st, Seq::empty()) == st,
{
    assert(blocks.push(b).drop_last() =~= blocks);
}

/// Whether `b` occurs in `bytes`.
pub fn bytes_contain(bytes: &Vec<u8>, b: u8) -> (found: bool)
    ensures
        found == bytes@.contains(b),
{
    let mut i: usize = 0;
    while i < bytes.len()
        invariant
            i <= bytes@.len(),
            forall|j: int| 0 <= j < i ==> bytes@[j] != b,
        decreases bytes@.len() - i,
    {
        if bytes[i] == b {
            return true;
        }
        i = i + 1;
    }
    false
}

/// The state of a walk that collects the unspent outputs of the chain,
/// newest block first: outputs not yet seen spent, and the outputs later
/// transactions spend.
pub struct UtxoScan {
    pub utxo: ByteMap<TxOutputs>,
    pub spent: ByteMap<Vec<u8>>,
}

impl UtxoScan {
    /// The scan's state.
    pub open spec fn state(&self) -> (UtxoMap, SpentMap) {
        (self.utxo.view(), self.spent.view())
    }

    /// Both maps are well formed.
    pub open spec fn wf(&self) -> bool {
        self.utxo.wf() && self.spent.wf()
    }

    /// A scan that has seen nothing.
    pub fn new() -> (s: Self)
        ensures
            s.wf(),
            s.state() == (UtxoMap::empty(), SpentMap::empty()),
    {
        UtxoScan { utxo: ByteMap::new(), spent: ByteMap::new() }
    }

    /// Scans one transaction (see [`scan_tx`]).
    pub fn scan_transaction(&mut self, tx: &Transaction)
        requires
            old(self).wf(),
        ensures
            final(self).wf(),
            final(self).state() == scan_tx(old(self).state(), tx@),
    {
        let ghost st = self.state();
        let mut out_idx: usize = 0;
        while out_idx < tx.vout.len()
            invariant
                self.wf(),
                self.spent.view() == st.1,
                out_idx <= tx.vout@.len(),
                self.utxo.view() == collect_outputs(st.0, st.1, tx@.id, tx@.vout, out_idx as nat),
            decreases tx.vout@.len() - out_idx,
        {
            let idx_byte: u8 = #[verifier::truncate] (out_idx as u8);
            let skip = match self.spent.get(tx.id.as_slice()) {
                Some(spent_out_indices) => bytes_contain(&spent_out_indices, idx_byte),
                None => false,
            };
            assert(skip == is_recorded_spent(st.1, tx@.id, out_idx as int));
            let ghost u = self.utxo.view();
            assert(collect_outputs(st.0, st.1, tx@.id, tx@.vout, (out_idx + 1) as nat) == if is_recorded_spent(st.1, tx@.id, out_idx as int) {
                u
            } else {
                u.insert(tx@.id, outs_or_empty(u, tx@.id).push((out_idx as u8, tx@.vout[out_idx as int])))
            });
            if !skip {
                let entry = match self.utxo.get(tx.id.as_slice()) {
                    Some(outs) => outs,
                    None => TxOutputs { outputs: Vec::new() },
                };
                let mut outputs = entry.outputs;
                let ghost prior = indexed_view(outputs@);
                outputs.push((idx_byte, tx.vout[out_idx].clone()));
                assert(indexed_view(outputs@) =~= prior.push((idx_byte, tx@.vout[out_idx as int])));
                assert(prior == outs_or_empty(u, tx@.id));
                self.utxo.insert(copy_bytes(&tx.id), TxOutputs { outputs });
                assert(self.utxo.view() == u.insert(tx@.id, outs_or_empty(u, tx@.id).push((out_idx as u8, tx@.vout[out_idx as int]))));
            }
            out_idx = out_idx + 1;
        }
        assert(tx@.vout.len() == tx.vout@.len());
        assert(self.utxo.view() == scan_tx(st, tx@).0);
        if !tx.is_coinbase() {
            let mut j: usize = 0;
            while j < tx.vin.len()
                invariant
                    self.wf(),
                    j <= tx.vin@.len(),
                    self.spent.view() == record_spends(st.1, tx@.vin.take(j as int)),
                    self.utxo.view() == scan_tx(st, tx@).0,
                decreases tx.vin@.len() - j,
            {
                let vin = &tx.vin[j];
                let mut indices = match self.spent.get(vin.txid.as_slice()) {
                    Some(v) => v,
                    None => Vec::new(),
                };
                indices.push(vin.vout);
                self.spent.insert(copy_bytes(&vin.txid), indices);
                assert(tx@.vin.take(j + 1).drop_last() =~= tx@.vin.take(j as int));
                j = j + 1;
            }
            assert(tx@.vin.take(tx@.vin.len() as int) =~= tx@.vin);
        }
    }

    /// Scans one block (see [`scan_block`]).
    pub fn scan_block(&mut self, block: &Block)
        requires
            old(self).wf(),
        ensures
            final(self).wf(),
            final(self).state() == scan_block(old(self).state(), block@),
    {
        let ghost st = self.state();
        let mut i: usize = 0;
        while i < block.transactions.len()
            invariant
                self.wf(),
                i <= block.transactions@.len(),
                is_genesis_model(block@) ==> i == 0,
                st == old(self).state(),
                self.state() == scan_txs(st, block@.transactions.take(i as int)),
            decreases block.transactions@.len() - i,
        {
            assert(block@.transactions.take(0) =~= Seq::<TransactionModel>::empty());
            assert(block@.transactions[i as int] == block.transactions@[i as int]@);
            let ghost before = self.state();
            self.scan_transaction(&block.transactions[i]);
            assert(self.state() == scan_tx(before, block@.transactions[i as int]));
            assert(block@.transactions.take(i + 1).drop_last() =~= block@.transactions.take(i as int));
            i = i + 1;
            if is_genesis(block) {
                assert(i == 1);
                assert(scan_txs(st, Seq::<TransactionModel>::empty()) == st);
                assert(before == st);
                assert(scan_block(st, block@) == scan_tx(st, block@.transactions[0]));
                return;
            }
        }
        assert(block@.transactions.take(block@.transactions.len() as int) =~= block@.transactions);
    }

    /// The unspent outputs collected so far, keyed by the hexadecimal text
    /// of the transaction ids, in the order the ids were first met.
    pub fn utxo_by_hex_id(&self) -> (utxo: Vec<(String, TxOutputs)>)
        requires
            self.wf(),
        ensures
            utxo@.len() == self.utxo.key_order().len(),
            forall|i: int| 0 <= i < utxo@.len() ==>
                (#[trigger] utxo@[i]).0@ == hex_text(self.utxo.key_order()[i])
                && utxo@[i].1@ == self.utxo.view()[self.utxo.key_order()[i]]
                && hex_decoding_of(text_bytes(utxo@[i].0@)) == Some(self.utxo.key_order()[i]),
    {
        let mut utxo: Vec<(String, TxOutputs)> = Vec::new();
        let n = self.utxo.len();
        let mut i: usize = 0;
        while i < n
            invariant
                self.wf(),
                n == self.utxo.key_order().len(),
                i <= n,
                utxo@.len() == i,
                forall|j: int| 0 <= j < i ==>
                    (#[trigger] utxo@[j]).0@ == hex_text(self.utxo.key_order()[j])
                    && utxo@[j].1@ == self.utxo.view()[self.utxo.key_order()[j]]
                    && hex_decoding_of(text_bytes(utxo@[j].0@)) == Some(self.utxo.key_order()[j]),
            decreases n - i,
        {
            let (key, outs) = self.utxo.entry_at(i);
            proof {
                lemma_hex_roundtrip(key@);
            }
            utxo.push((hex_encode(key.as_slice()), outs));
            i = i + 1;
        }
        utxo
    }
}

/// Whether a block has no previous hash.
pub open spec fn is_genesis_model(b: BlockModel) -> bool {
    b.prev_block_hash.len() == 0
}

/// The coinbase text of the first block of a chain.
pub open spec fn genesis_coinbase_data() -> Seq<char> {
    "ALPHA"@
}

/// Whether `b` is a first block for `address`: one coinbase transaction
/// paying the subsidy to `address` with the text "ALPHA", on top of no
/// block, mined at some time.
pub open spec fn is_genesis_for(b: BlockModel, address: Seq<char>) -> bool {
    exists|t: u64| is_mined_block(b, seq![coinbase_model(address, genesis_coinbase_data(), SUBSIDY)], Seq::empty(), t)
}

/// The first block of a chain: one coinbase transaction paying the subsidy
/// to `address` with the text "ALPHA", on top of no block, mined now;
/// `None` where the clock reads before 1970.
pub fn genesis_block(address: String) -> (block: Option<Block>)
    requires
        is_lockable_address(text_bytes(address@)),
    ensures
        block matches Some(b) ==> is_genesis_for(b@, address@),
{
    proof {
        reveal_strlit("ALPHA");
    }
    let coinbase_tx = Transaction::new_coinbase_tx(address, "ALPHA".to_owned());
    let ghost model = coinbase_tx@;
    let txs = vec![coinbase_tx];
    assert(txs_view(txs@) =~= seq![model]);
    let prev = String::new();
    let ghost prev_view = prev@;
    let block = Block::new(txs, prev);
    proof {
        if block is Some {
            let b = block->0;
            let t = choose|t: u64| is_mined_block(b@, seq![model], prev_view, t);
            assert(prev_view =~= Seq::<char>::empty());
            assert(is_mined_block(b@, seq![coinbase_model(address@, genesis_coinbase_data(), SUBSIDY)], Seq::empty(), t));
        }
    }
    block
}

/// Like [`genesis_block`], but also `None` where `address` cannot lock an output.
pub fn try_genesis_block(address: String) -> (block: Option<Block>)
    ensures
        block matches Some(b) ==> is_lockable_address(text_bytes(address@)) && is_genesis_for(b@, address@),
        !is_lockable_address(text_bytes(address@)) ==> block is None,
{
    if check_address(address.as_str()) {
        genesis_block(address)
    } else {
        None
    }
}

/// The ids of the transactions are distinct.
pub open spec fn distinct_ids(txs: Seq<TransactionModel>) -> bool {
    forall|i: int, j: int| 0 <= i < j < txs.len() ==> #[trigger] txs[i].id != #[trigger] txs[j].id
}

/// No input of a transaction that is not a coinbase spends an output of a
/// transaction of the same list.
pub open spec fn spends_outside(txs: Seq<TransactionModel>) -> bool {
    forall|i: int, j: int, k: int|
        0 <= i < txs.len() && 0 <= j < txs.len() && !is_coinbase_model(txs[j]) && 0 <= k < txs[j].vin.len()
            ==> #[trigger] txs[j].vin[k].txid != #[trigger] txs[i].id
}

/// Whether some input spends from the transaction with id `id`.
pub open spec fn spends_from(vins: Seq<TxInputModel>, id: Seq<u8>) -> bool {
    exists|k: int| 0 <= k < vins.len() && #[trigger] vins[k].txid == id
}

/// Spending inputs leaves the entries of other transactions as they were.
proof fn lemma_spend_inputs_elsewhere(m: UtxoMap, vins: Seq<TxInputModel>, id: Seq<u8>)
    requires
        !spends_from(vins, id),
    ensures
        spend_inputs(m, vins).dom().contains(id) == m.dom().contains(id),
        m.dom().contains(id) ==> spend_inputs(m, vins)[id] == m[id],
    decreases vins.len(),
{
    if vins.len() > 0 {
        let init = vins.drop_last();
        assert(!spends_from(init, id)) by {
            if spends_from(init, id) {
                let k = choose|k: int| 0 <= k < init.len() && #[trigger] init[k].txid == id;
                assert(vins[k].txid == id);
            }
        }
        lemma_spend_inputs_elsewhere(m, init, id);
        assert(vins[vins.len() - 1].txid != id);
    }
}

/// Recording spends leaves the entries of other transactions as they were.
proof fn lemma_record_spends_elsewhere(spent: SpentMap, vins: Seq<TxInputModel>, id: Seq<u8>)
    requires
        !spends_from(vins, id),
    ensures
        record_spends(spent, vins).dom().contains(id) == spent.dom().contains(id),
    decreases vins.len(),
{
    if vins.len() > 0 {
        let init = vins.drop_last();
        assert(!spends_from(init, id)) by {
            if spends_from(init, id) {
                let k = choose|k: int| 0 <= k < init.len() && #[trigger] init[k].txid == id;
                assert(vins[k].txid == id);
            }
        }
        lemma_record_spends_elsewhere(spent, init, id);
        assert(vins[vins.len() - 1].txid != id);
    }
}

/// Collecting the outputs of a transaction that has no entry and none of
/// whose outputs is recorded as spent gives it all of them, and leaves the
/// other entries as they were.
pub(crate) proof fn lemma_collect_all(utxo: UtxoMap, spent: SpentMap, id: Seq<u8>, vout: Seq<TxOutputModel>, n: nat)
    requires
        !utxo.dom().contains(id),
        !spent.dom().contains(id),
        n <= vout.len(),
    ensures
        collect_outputs(utxo, spent, id, vout, n).dom().contains(id) == (n > 0),
        n > 0 ==> collect_outputs(utxo, spent, id, vout, n)[id] == indexed(vout).take(n as int),
        forall|k: Seq<u8>| k != id ==> (#[trigger] collect_outputs(utxo, spent, id, vout, n).dom().contains(k)) == utxo.dom().contains(k),
        forall|k: Seq<u8>| k != id && utxo.dom().contains(k) ==> #[trigger] collect_outputs(utxo, spent, id, vout, n)[k] == utxo[k],
    decreases n,
{
    if n > 0 {
        lemma_collect_all(utxo, spent, id, vout, (n - 1) as nat);
        let u = collect_outputs(utxo, spent, id, vout, (n - 1) as nat);
        assert(!is_recorded_spent(spent, id, n - 1));
        if n == 1 {
            assert(outs_or_empty(u, id) == Seq::<(u8, TxOutputModel)>::empty());
            assert(Seq::<(u8, TxOutputModel)>::empty().push((0u8, vout[0])) =~= indexed(vout).take(1));
        } else {
            assert(indexed(vout).take(n - 1).push(((n - 1) as u8, vout[n - 1])) =~= indexed(vout).take(n as int));
        }
    }
}

/// Applying transactions records, under each id, that transaction's outputs,
/// when the ids are distinct and no transaction spends from another of them.
proof fn lemma_apply_txs_records(m: UtxoMap, txs: Seq<TransactionModel>, i: int)
    requires
        distinct_ids(txs),
        spends_outside(txs),
        0 <= i < txs.len(),
    ensures
        apply_txs(m, txs).dom().contains(txs[i].id),
        apply_txs(m, txs)[txs[i].id] == indexed(txs[i].vout),
    decreases txs.len(),
{
    let init = txs.drop_last();
    let last = txs.last();
    if i < txs.len() - 1 {
        assert(distinct_ids(init)) by {
            assert forall|a: int, b: int| 0 <= a < b < init.len() implies #[trigger] init[a].id != #[trigger] init[b].id by {
                assert(txs[a].id != txs[b].id);
            }
        }
        assert(spends_outside(init)) by {
            assert forall|a: int, b: int, k: int|
                0 <= a < init.len() && 0 <= b < init.len() && !is_coinbase_model(init[b]) && 0 <= k < init[b].vin.len()
                    implies #[trigger] init[b].vin[k].txid != #[trigger] init[a].id by {
                assert(txs[b].vin[k].txid != txs[a].id);
            }
        }
        lemma_apply_txs_records(m, init, i);
        let mi = apply_txs(m, init);
        assert(init[i] == txs[i]);
        assert(last.id != txs[i].id) by {
            assert(txs[i].id != txs[txs.len() - 1].id);
        }
        if !is_coinbase_model(last) {
            assert(!spends_from(last.vin, txs[i].id)) by {
                if spends_from(last.vin, txs[i].id) {
                    let k = choose|k: int| 0 <= k < last.vin.len() && #[trigger] last.vin[k].txid == txs[i].id;
                    assert(txs[txs.len() - 1].vin[k].txid != txs[i].id);
                }
            }
            lemma_spend_inputs_elsewhere(mi, last.vin, txs[i].id);
        }
    }
}

/// The state of a fresh scan after the first `n` transactions of a list whose
/// ids are distinct and which spends only from elsewhere: each transaction
/// with outputs has an entry holding all of them, every entry belongs to one
/// of those transactions, and no id of the list is recorded as spent.
pub(crate) proof fn lemma_scan_txs_records(txs: Seq<TransactionModel>, n: int)
    requires
        distinct_ids(txs),
        spends_outside(txs),
        0 <= n <= txs.len(),
    ensures
        forall|j: int| 0 <= j < n && txs[j].vout.len() > 0 ==> {
            &&& (#[trigger] scan_txs((UtxoMap::empty(), SpentMap::empty()), txs.take(n)).0).dom().contains(txs[j].id)
            &&& scan_txs((UtxoMap::empty(), SpentMap::empty()), txs.take(n)).0[txs[j].id] == indexed(txs[j].vout)
        },
        forall|k: Seq<u8>| #[trigger] scan_txs((UtxoMap::empty(), SpentMap::empty()), txs.take(n)).0.dom().contains(k)
            ==> exists|j: int| 0 <= j < n && #[trigger] txs[j].id == k,
        forall|j: int| 0 <= j < txs.len() ==> !(#[trigger] scan_txs((UtxoMap::empty(), SpentMap::empty()), txs.take(n)).1.dom().contains(txs[j].id)),
    decreases n,
{
    let st0 = (UtxoMap::empty(), SpentMap::empty());
    if n == 0 {
        assert(txs.take(0) =~= Seq::<TransactionModel>::empty());
        assert(scan_txs(st0, txs.take(0)) == st0);
    } else {
        lemma_scan_txs_records(txs, n - 1);
        let prev = scan_txs(st0, txs.take(n - 1));
        assert(txs.take(n).drop_last() =~= txs.take(n - 1));
        assert(txs.take(n).last() == txs[n - 1]);
        let tx = txs[n - 1];
        let st = scan_txs(st0, txs.take(n));
        assert(st == scan_tx(prev, tx));
        assert(!prev.0.dom().contains(tx.id)) by {
            if prev.0.dom().contains(tx.id) {
                let j = choose|j: int| 0 <= j < n - 1 && #[trigger] txs[j].id == tx.id;
                assert(txs[j].id != txs[n - 1].id);
            }
        }
        assert(!prev.1.dom().contains(tx.id)) by {
            assert(!prev.1.dom().contains(txs[n - 1].id));
        }
        lemma_collect_all(prev.0, prev.1, tx.id, tx.vout, tx.vout.len());
        assert(indexed(tx.vout).take(tx.vout.len() as int) =~= indexed(tx.vout));
        assert forall|j: int| 0 <= j < n && txs[j].vout.len() > 0 implies {
            &&& (#[trigger] scan_txs(st0, txs.take(n)).0).dom().contains(txs[j].id)
            &&& scan_txs(st0, txs.take(n)).0[txs[j].id] == indexed(txs[j].vout)
        } by {
            if j < n - 1 {
                assert(txs[j].id != txs[n - 1].id);
            }
        }
        assert forall|k: Seq<u8>| #[trigger] scan_txs(st0, txs.take(n)).0.dom().contains(k)
            implies exists|j: int| 0 <= j < n && #[trigger] txs[j].id == k by {
            if k == tx.id {
                assert(txs[n - 1].id == k);
            } else {
                assert(prev.0.dom().contains(k));
                let j = choose|j: int| 0 <= j < n - 1 && #[trigger] txs[j].id == k;
                assert(txs[j].id == k);
            }
        }
        assert forall|j: int| 0 <= j < txs.len() implies !(#[trigger] scan_txs(st0, txs.take(n)).1.dom().contains(txs[j].id)) by {
            assert(!prev.1.dom().contains(txs[j].id));
            if !is_coinbase_model(tx) {
                assert(!spends_from(tx.vin, txs[j].id)) by {
                    if spends_from(tx.vin, txs[j].id) {
                        let k = choose|k: int| 0 <= k < tx.vin.len() && #[trigger] tx.vin[k].txid == txs[j].id;
                        assert(txs[n - 1].vin[k].txid != txs[j].id);
                    }
                }
                lemma_record_spends_elsewhere(prev.1, tx.vin, txs[j].id);
            }
        }
    }
}

/// The index update and the chain scan agree on the outputs a new block
/// creates: when the block is not the first of its chain, its transactions
/// have distinct ids and none spends from another of them, then both the
/// index brought up to date with the block and a scan that starts from the
/// block hold, under each of its transactions that has outputs, exactly that
/// transaction's outputs.
pub proof fn lemma_new_outputs_recorded(index: UtxoMap, b: BlockModel, i: int)
    requires
        !is_genesis_model(b),
        distinct_ids(b.transactions),
        spends_outside(b.transactions),
        0 <= i < b.transactions.len(),
        b.transactions[i].vout.len() > 0,
    ensures
        apply_txs(index, b.transactions).dom().contains(b.transactions[i].id),
        apply_txs(index, b.transactions)[b.transactions[i].id] == indexed(b.transactions[i].vout),
        scan_block((UtxoMap::empty(), SpentMap::empty()), b).0.dom().contains(b.transactions[i].id),
        scan_block((UtxoMap::empty(), SpentMap::empty()), b).0[b.transactions[i].id] == indexed(b.transactions[i].vout),
{
    let txs = b.transactions;
    lemma_apply_txs_records(index, txs, i);
    lemma_scan_txs_records(txs, txs.len() as int);
    assert(txs.take(txs.len() as int) =~= txs);
}

} // verus!
