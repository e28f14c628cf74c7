//! Keeping the index of unspent outputs up to date agrees with scanning the
//! chain again: the law that ties [`update_utxo_index`] to [`UtxoScan`].
//!
//! [`update_utxo_index`]: crate::domain::transaction::output::update_utxo_index
//! [`UtxoScan`]: crate::domain::blockchain::blockchain::UtxoScan

use vstd::prelude::*;
use crate::domain::transaction::output::{TxOutputModel, UtxoMap, without_output, spend_input, spend_inputs, apply_tx, apply_txs, indexed};
use crate::domain::transaction::input::TxInputModel;
use crate::domain::transaction::transaction::{TransactionModel, is_coinbase_model};
use crate::domain::blockchain::block::BlockModel;
use crate::domain::blockchain::blockchain::{
    SpentMap, is_recorded_spent, collect_outputs, record_spends, outs_or_empty, indices_or_empty, scan_tx, scan_txs,
    scan_blocks, scan_block, is_genesis_model, distinct_ids, spends_outside, lemma_collect_all, lemma_scan_txs_records,
};

verus! {

/// The outputs among `outs` whose index is not recorded as spent under `id`.
pub open spec fn keep_unspent(outs: Seq<(u8, TxOutputModel)>, spent: SpentMap, id: Seq<u8>) -> Seq<(u8, TxOutputModel)>
    decreases outs.len(),
{
    if outs.len() == 0 {
        outs
    } else {
        let rest = keep_unspent(outs.drop_last(), spent, id);
        if is_recorded_spent(spent, id, outs.last().0 as int) {
            rest
        } else {
            rest.push(outs.last())
        }
    }
}

/// The index with the outputs recorded as spent in `spent` taken out, and the
/// entries left empty dropped.
pub open spec fn filter_spent(m: UtxoMap, spent: SpentMap) -> UtxoMap {
    Map::new(
        |k: Seq<u8>| m.dom().contains(k) && keep_unspent(m[k], spent, k).len() > 0,
        |k: Seq<u8>| keep_unspent(m[k], spent, k),
    )
}

/// An output is recorded as spent in `s2` exactly when it is in `p` or in `s`.
pub open spec fn spent_union(s2: SpentMap, p: SpentMap, s: SpentMap) -> bool {
    forall|k: Seq<u8>, x: int|
        #[trigger] is_recorded_spent(s2, k, x) == (is_recorded_spent(p, k, x) || is_recorded_spent(s, k, x))
}

/// Keeping after one more output is keeping before it, then the output if
/// it is not recorded as spent.
proof fn lemma_keep_push(outs: Seq<(u8, TxOutputModel)>, e: (u8, TxOutputModel), spent: SpentMap, id: Seq<u8>)
    ensures
        keep_unspent(outs.push(e), spent, id) == if is_recorded_spent(spent, id, e.0 as int) {
            keep_unspent(outs, spent, id)
        } else {
            keep_unspent(outs, spent, id).push(e)
        },
{
    assert(outs.push(e).drop_last() =~= outs);
}

/// Collecting outputs from a state that is another state's outputs with
/// those of `p` taken out, and whose spends add `p`'s, keeps that relation.
proof fn lemma_collect_rel(
    u: UtxoMap,
    p: SpentMap,
    m: UtxoMap,
    s: SpentMap,
    m2: UtxoMap,
    s2: SpentMap,
    id: Seq<u8>,
    vout: Seq<TxOutputModel>,
    n: nat,
)
    requires
        m2 == u.union_prefer_right(filter_spent(m, p)),
        spent_union(s2, p, s),
        !u.dom().contains(id),
        n <= vout.len(),
    ensures
        collect_outputs(m2, s2, id, vout, n) == u.union_prefer_right(filter_spent(collect_outputs(m, s, id, vout, n), p)),
    decreases n,
{
    if n > 0 {
        lemma_collect_rel(u, p, m, s, m2, s2, id, vout, (n - 1) as nat);
        let c = collect_outputs(m, s, id, vout, (n - 1) as nat);
        let c2 = collect_outputs(m2, s2, id, vout, (n - 1) as nat);
        let k = n - 1;
        let e = (k as u8, vout[k]);
        assert(is_recorded_spent(s2, id, k) == (is_recorded_spent(p, id, k) || is_recorded_spent(s, id, k)));
        assert((e.0 as int) as u8 == k as u8);
        assert(is_recorded_spent(p, id, e.0 as int) == is_recorded_spent(p, id, k));
        lemma_keep_push(outs_or_empty(c, id), e, p, id);
        if is_recorded_spent(s, id, k) {
        } else if is_recorded_spent(p, id, k) {
            let cn = c.insert(id, outs_or_empty(c, id).push(e));
            assert(filter_spent(cn, p) =~= filter_spent(c, p));
        } else {
            let cn = c.insert(id, outs_or_empty(c, id).push(e));
            assert(outs_or_empty(c2, id) == keep_unspent(outs_or_empty(c, id), p, id));
            assert(c2.insert(id, outs_or_empty(c2, id).push(e)) =~= u.union_prefer_right(filter_spent(cn, p)));
        }
    }
}

/// A sequence with one more element contains what it contained, and that element.
proof fn lemma_push_contains(s: Seq<u8>, a: u8, b: u8)
    ensures
        s.push(a).contains(b) == (s.contains(b) || a == b),
{
    if s.contains(b) {
        let i = choose|i: int| 0 <= i < s.len() && s[i] == b;
        assert(s.push(a)[i] == b);
    }
    if a == b {
        assert(s.push(a)[s.len() as int] == b);
    }
    if s.push(a).contains(b) {
        let j = choose|j: int| 0 <= j < s.push(a).len() && s.push(a)[j] == b;
        if j < s.len() {
            assert(s[j] == b);
        }
    }
}

/// Recording spends on both sides keeps `p`'s spends added.
proof fn lemma_record_rel(p: SpentMap, s: SpentMap, s2: SpentMap, vins: Seq<TxInputModel>)
    requires
        spent_union(s2, p, s),
    ensures
        spent_union(record_spends(s2, vins), p, record_spends(s, vins)),
    decreases vins.len(),
{
    if vins.len() > 0 {
        lemma_record_rel(p, s, s2, vins.drop_last());
        let a = record_spends(s, vins.drop_last());
        let a2 = record_spends(s2, vins.drop_last());
        let v = vins.last();
        assert forall|k: Seq<u8>, x: int|
            #[trigger] is_recorded_spent(record_spends(s2, vins), k, x)
                == (is_recorded_spent(p, k, x) || is_recorded_spent(record_spends(s, vins), k, x)) by {
            assert(is_recorded_spent(a2, k, x) == (is_recorded_spent(p, k, x) || is_recorded_spent(a, k, x)));
            if k == v.txid {
                lemma_push_contains(indices_or_empty(a2, k), v.vout, x as u8);
                lemma_push_contains(indices_or_empty(a, k), v.vout, x as u8);
            }
        }
    }
}

/// A scan state `st2` is the state `st` with the outputs of `u` added and the
/// spends of `p` recorded on top: its index holds `u` and the outputs of
/// `st` not spent in `p`, and its spends are those of `p` and of `st`.
pub open spec fn scan_rel(st2: (UtxoMap, SpentMap), st: (UtxoMap, SpentMap), u: UtxoMap, p: SpentMap) -> bool {
    &&& st2.0 == u.union_prefer_right(filter_spent(st.0, p))
    &&& spent_union(st2.1, p, st.1)
}

/// No transaction of the blocks has an id that `u` holds.
pub open spec fn fresh_for(u: UtxoMap, blocks: Seq<BlockModel>) -> bool {
    forall|j: int, i: int|
        0 <= j < blocks.len() && 0 <= i < blocks[j].transactions.len() ==> !u.dom().contains(
            #[trigger] blocks[j].transactions[i].id,
        )
}

proof fn lemma_scan_tx_rel(st2: (UtxoMap, SpentMap), st: (UtxoMap, SpentMap), u: UtxoMap, p: SpentMap, tx: TransactionModel)
    requires
        scan_rel(st2, st, u, p),
        !u.dom().contains(tx.id),
    ensures
        scan_rel(scan_tx(st2, tx), scan_tx(st, tx), u, p),
{
    lemma_collect_rel(u, p, st.0, st.1, st2.0, st2.1, tx.id, tx.vout, tx.vout.len());
    if !is_coinbase_model(tx) {
        lemma_record_rel(p, st.1, st2.1, tx.vin);
    }
}

proof fn lemma_scan_txs_rel(st2: (UtxoMap, SpentMap), st: (UtxoMap, SpentMap), u: UtxoMap, p: SpentMap, txs: Seq<TransactionModel>)
    requires
        scan_rel(st2, st, u, p),
        forall|i: int| 0 <= i < txs.len() ==> !u.dom().contains(#[trigger] txs[i].id),
    ensures
        scan_rel(scan_txs(st2, txs), scan_txs(st, txs), u, p),
    decreases txs.len(),
{
    if txs.len() > 0 {
        lemma_scan_txs_rel(st2, st, u, p, txs.drop_last());
        assert(!u.dom().contains(txs[txs.len() - 1].id));
        lemma_scan_tx_rel(scan_txs(st2, txs.drop_last()), scan_txs(st, txs.drop_last()), u, p, txs.last());
    }
}

proof fn lemma_scan_blocks_rel(st2: (UtxoMap, SpentMap), st: (UtxoMap, SpentMap), u: UtxoMap, p: SpentMap, blocks: Seq<BlockModel>)
    requires
        scan_rel(st2, st, u, p),
        fresh_for(u, blocks),
    ensures
        scan_rel(scan_blocks(st2, blocks), scan_blocks(st, blocks), u, p),
    decreases blocks.len(),
{
    if blocks.len() > 0 {
        let init = blocks.drop_last();
        assert(fresh_for(u, init)) by {
            assert forall|j: int, i: int| 0 <= j < init.len() && 0 <= i < init[j].transactions.len() implies !u.dom().contains(
                #[trigger] init[j].transactions[i].id) by {
                assert(blocks[j] == init[j]);
            }
        }
        lemma_scan_blocks_rel(st2, st, u, p, init);
        let b = blocks.last();
        let a2 = scan_blocks(st2, init);
        let a = scan_blocks(st, init);
        assert forall|i: int| 0 <= i < b.transactions.len() implies !u.dom().contains(#[trigger] b.transactions[i].id) by {
            assert(blocks[blocks.len() - 1] == b);
            assert(!u.dom().contains(blocks[blocks.len() - 1].transactions[i].id));
        }
        if b.prev_block_hash.len() == 0 && b.transactions.len() > 0 {
            lemma_scan_tx_rel(a2, a, u, p, b.transactions[0]);
        } else {
            lemma_scan_txs_rel(a2, a, u, p, b.transactions);
        }
    }
}

/// Scanning a block and then a chain of older blocks is scanning the chain
/// with the block in front.
proof fn lemma_scan_blocks_prepend(st: (UtxoMap, SpentMap), b: BlockModel, c: Seq<BlockModel>)
    ensures
        scan_blocks(st, seq![b] + c) == scan_blocks(scan_block(st, b), c),
    decreases c.len(),
{
    if c.len() == 0 {
        assert(seq![b] + c =~= seq![b]);
        assert(seq![b].drop_last() =~= Seq::<BlockModel>::empty());
        assert(scan_blocks(st, Seq::<BlockModel>::empty()) == st);
        assert(scan_blocks(st, seq![b]) == scan_block(scan_blocks(st, Seq::<BlockModel>::empty()), b));
        assert(scan_blocks(scan_block(st, b), c) == scan_block(st, b));
    } else {
        lemma_scan_blocks_prepend(st, b, c.drop_last());
        assert((seq![b] + c).drop_last() =~= seq![b] + c.drop_last());
        assert((seq![b] + c).last() == c.last());
    }
}

/// Collecting the outputs of a transaction leaves other keys as they were.
proof fn lemma_collect_other(m: UtxoMap, s: SpentMap, id: Seq<u8>, vout: Seq<TxOutputModel>, n: nat, k: Seq<u8>)
    requires
        k != id,
    ensures
        collect_outputs(m, s, id, vout, n).dom().contains(k) == m.dom().contains(k),
    decreases n,
{
    if n > 0 {
        lemma_collect_other(m, s, id, vout, (n - 1) as nat, k);
    }
}

/// Whether some transaction of the blocks has id `k`.
pub open spec fn is_tx_id_in(blocks: Seq<BlockModel>, k: Seq<u8>) -> bool {
    exists|j: int, i: int| 0 <= j < blocks.len() && 0 <= i < blocks[j].transactions.len() && #[trigger] blocks[j].transactions[i].id == k
}

proof fn lemma_scan_txs_other(st: (UtxoMap, SpentMap), txs: Seq<TransactionModel>, k: Seq<u8>)
    requires
        forall|i: int| 0 <= i < txs.len() ==> #[trigger] txs[i].id != k,
    ensures
        scan_txs(st, txs).0.dom().contains(k) == st.0.dom().contains(k),
    decreases txs.len(),
{
    if txs.len() > 0 {
        lemma_scan_txs_other(st, txs.drop_last(), k);
        let t = txs.last();
        assert(txs[txs.len() - 1].id != k);
        lemma_collect_other(scan_txs(st, txs.drop_last()).0, scan_txs(st, txs.drop_last()).1, t.id, t.vout, t.vout.len(), k);
    }
}

/// Scanning blocks adds index keys only for the ids of their transactions.
proof fn lemma_scan_blocks_other(st: (UtxoMap, SpentMap), blocks: Seq<BlockModel>, k: Seq<u8>)
    requires
        !is_tx_id_in(blocks, k),
    ensures
        scan_blocks(st, blocks).0.dom().contains(k) == st.0.dom().contains(k),
    decreases blocks.len(),
{
    if blocks.len() > 0 {
        let init = blocks.drop_last();
        assert(!is_tx_id_in(init, k)) by {
            if is_tx_id_in(init, k) {
                let (j, i) = choose|j: int, i: int| 0 <= j < init.len() && 0 <= i < init[j].transactions.len() && #[trigger] init[j].transactions[i].id == k;
                assert(blocks[j].transactions[i].id == k);
            }
        }
        lemma_scan_blocks_other(st, init, k);
        let b = blocks.last();
        let a = scan_blocks(st, init);
        assert forall|i: int| 0 <= i < b.transactions.len() implies #[trigger] b.transactions[i].id != k by {
            if b.transactions[i].id == k {
                assert(blocks[blocks.len() - 1].transactions[i].id == k);
            }
        }
        if b.prev_block_hash.len() == 0 && b.transactions.len() > 0 {
            let t = b.transactions[0];
            lemma_collect_other(a.0, a.1, t.id, t.vout, t.vout.len(), k);
        } else {
            lemma_scan_txs_other(a, b.transactions, k);
        }
    }
}

/// The outputs with those of index `x` removed.
proof fn lemma_without_push(outs: Seq<(u8, TxOutputModel)>, e: (u8, TxOutputModel), x: u8)
    ensures
        without_output(outs.push(e), x) == if e.0 == x {
            without_output(outs, x)
        } else {
            without_output(outs, x).push(e)
        },
{
    assert(outs.push(e).drop_last() =~= outs);
}

/// Removing the outputs of index `x` from the unspent ones is keeping those
/// not spent once `x` is also recorded.
proof fn lemma_without_keep(outs: Seq<(u8, TxOutputModel)>, p: SpentMap, k: Seq<u8>, x: u8)
    ensures
        without_output(keep_unspent(outs, p, k), x) == keep_unspent(outs, p.insert(k, indices_or_empty(p, k).push(x)), k),
    decreases outs.len(),
{
    let p2 = p.insert(k, indices_or_empty(p, k).push(x));
    if outs.len() == 0 {
        assert(keep_unspent(outs, p, k) == outs);
    } else {
        lemma_without_keep(outs.drop_last(), p, k, x);
        let e = outs.last();
        lemma_push_contains(indices_or_empty(p, k), x, e.0);
        assert((e.0 as int) as u8 == e.0);
        assert(is_recorded_spent(p2, k, e.0 as int) == (is_recorded_spent(p, k, e.0 as int) || e.0 == x));
        if !is_recorded_spent(p, k, e.0 as int) {
            lemma_without_push(keep_unspent(outs.drop_last(), p, k), e, x);
        }
    }
}

/// Keeping under spends that differ only at other keys gives the same.
proof fn lemma_keep_other(outs: Seq<(u8, TxOutputModel)>, p: SpentMap, k: Seq<u8>, k2: Seq<u8>, v: Seq<u8>)
    requires
        k != k2,
    ensures
        keep_unspent(outs, p.insert(k2, v), k) == keep_unspent(outs, p, k),
    decreases outs.len(),
{
    if outs.len() > 0 {
        lemma_keep_other(outs.drop_last(), p, k, k2, v);
    }
}

/// Spending an input in the index of a state related to another is recording
/// the spend on top.
proof fn lemma_spend_input_rel(u: UtxoMap, m: UtxoMap, p: SpentMap, vin: TxInputModel)
    requires
        !u.dom().contains(vin.txid),
    ensures
        spend_input(u.union_prefer_right(filter_spent(m, p)), vin)
            == u.union_prefer_right(filter_spent(m, p.insert(vin.txid, indices_or_empty(p, vin.txid).push(vin.vout)))),
{
    let k = vin.txid;
    let x = vin.vout;
    let p2 = p.insert(k, indices_or_empty(p, k).push(x));
    let f = filter_spent(m, p);
    let f2 = filter_spent(m, p2);
    assert forall|k2: Seq<u8>| k2 != k && m.dom().contains(k2) implies keep_unspent(m[k2], p2, k2) == keep_unspent(m[k2], p, k2) by {
        lemma_keep_other(m[k2], p, k2, k, indices_or_empty(p, k).push(x));
    }
    if m.dom().contains(k) {
        lemma_without_keep(m[k], p, k, x);
    }
    let lhs = spend_input(u.union_prefer_right(f), vin);
    if f.dom().contains(k) {
        let rest = without_output(f[k], x);
        if rest.len() == 0 {
            assert(lhs =~= u.union_prefer_right(f2));
        } else {
            assert(lhs =~= u.union_prefer_right(f2));
        }
    } else {
        if m.dom().contains(k) {
            assert(keep_unspent(m[k], p, k).len() == 0);
            assert(keep_unspent(m[k], p, k) =~= Seq::<(u8, TxOutputModel)>::empty());
            assert(without_output(Seq::<(u8, TxOutputModel)>::empty(), x) == Seq::<(u8, TxOutputModel)>::empty());
        }
        assert(lhs =~= u.union_prefer_right(f2));
    }
}

/// Spending inputs that name transactions outside `u` is recording them.
proof fn lemma_spend_inputs_rel(u: UtxoMap, m: UtxoMap, p: SpentMap, vins: Seq<TxInputModel>)
    requires
        forall|i: int| 0 <= i < vins.len() ==> !u.dom().contains(#[trigger] vins[i].txid),
    ensures
        spend_inputs(u.union_prefer_right(filter_spent(m, p)), vins)
            == u.union_prefer_right(filter_spent(m, record_spends(p, vins))),
    decreases vins.len(),
{
    if vins.len() > 0 {
        lemma_spend_inputs_rel(u, m, p, vins.drop_last());
        assert(!u.dom().contains(vins[vins.len() - 1].txid));
        lemma_spend_input_rel(u, m, record_spends(p, vins.drop_last()), vins.last());
    }
}

/// Bringing an index up to date with the first `n` transactions of a block
/// whose ids are new to it is adding what a fresh scan of those
/// transactions collects and taking out what it records as spent.
proof fn lemma_apply_txs_rel(m: UtxoMap, txs: Seq<TransactionModel>, n: int)
    requires
        distinct_ids(txs),
        spends_outside(txs),
        0 <= n <= txs.len(),
        forall|i: int| 0 <= i < txs.len() ==> (#[trigger] txs[i]).vout.len() > 0,
        forall|i: int| 0 <= i < txs.len() ==> !m.dom().contains(#[trigger] txs[i].id),
        entries_nonempty(m),
    ensures
        apply_txs(m, txs.take(n)) == scan_txs((UtxoMap::empty(), SpentMap::empty()), txs.take(n)).0.union_prefer_right(
            filter_spent(m, scan_txs((UtxoMap::empty(), SpentMap::empty()), txs.take(n)).1),
        ),
    decreases n,
{
    let st0 = (UtxoMap::empty(), SpentMap::empty());
    if n == 0 {
        assert(txs.take(0) =~= Seq::<TransactionModel>::empty());
        assert(filter_spent(m, SpentMap::empty()) =~= m) by {
            assert forall|k: Seq<u8>| m.dom().contains(k) implies keep_unspent(m[k], SpentMap::empty(), k) == m[k] by {
                lemma_keep_nothing(m[k], k);
            }
        }
        assert(UtxoMap::empty().union_prefer_right(m) =~= m);
    } else {
        lemma_apply_txs_rel(m, txs, n - 1);
        lemma_scan_txs_records(txs, n - 1);
        assert(txs.take(n).drop_last() =~= txs.take(n - 1));
        assert(txs.take(n).last() == txs[n - 1]);
        let tx = txs[n - 1];
        let prev = scan_txs(st0, txs.take(n - 1));
        let f = filter_spent(m, prev.1);
        let applied = apply_txs(m, txs.take(n - 1));
        assert(!prev.0.dom().contains(tx.id)) by {
            if prev.0.dom().contains(tx.id) {
                let j = choose|j: int| 0 <= j < n - 1 && #[trigger] txs[j].id == tx.id;
                assert(txs[j].id != txs[n - 1].id);
            }
        }
        assert(!prev.1.dom().contains(txs[n - 1].id));
        let spent = if is_coinbase_model(tx) {
            prev.1
        } else {
            record_spends(prev.1, tx.vin)
        };
        if !is_coinbase_model(tx) {
            assert forall|i: int| 0 <= i < tx.vin.len() implies !prev.0.dom().contains(#[trigger] tx.vin[i].txid) by {
                if prev.0.dom().contains(tx.vin[i].txid) {
                    let j = choose|j: int| 0 <= j < n - 1 && #[trigger] txs[j].id == tx.vin[i].txid;
                    assert(txs[n - 1].vin[i].txid != txs[j].id);
                }
            }
            lemma_spend_inputs_rel(prev.0, m, prev.1, tx.vin);
        }
        lemma_collect_all(prev.0, prev.1, tx.id, tx.vout, tx.vout.len());
        assert(indexed(tx.vout).take(tx.vout.len() as int) =~= indexed(tx.vout));
        let u2 = collect_outputs(prev.0, prev.1, tx.id, tx.vout, tx.vout.len());
        assert(u2 =~= prev.0.insert(tx.id, indexed(tx.vout)));
        assert(!m.dom().contains(txs[n - 1].id));
        let f2 = filter_spent(m, spent);
        assert(!f2.dom().contains(tx.id));
        assert(prev.0.union_prefer_right(f2).insert(tx.id, indexed(tx.vout)) =~= u2.union_prefer_right(f2));
    }
}

/// Keeping under no spends keeps everything.
proof fn lemma_keep_nothing(outs: Seq<(u8, TxOutputModel)>, k: Seq<u8>)
    ensures
        keep_unspent(outs, SpentMap::empty(), k) == outs,
    decreases outs.len(),
{
    if outs.len() > 0 {
        lemma_keep_nothing(outs.drop_last(), k);
        assert(outs.drop_last().push(outs.last()) =~= outs);
    }
}

/// Keeping the index's outputs stays in step with the index after an update
/// (the cache law): take a chain, newest block first, and a new block on top
/// of it that is not the first of a chain, whose transactions have distinct
/// ids that no transaction of the chain has, each have outputs, and spend
/// only from transactions outside the block. Then bringing the chain's index
/// of unspent outputs (as a fresh scan of the chain computes it) up to date
/// with the block gives the index a fresh scan of the longer chain computes.
pub proof fn lemma_update_agrees_with_rescan(chain: Seq<BlockModel>, b: BlockModel)
    requires
        !is_genesis_model(b),
        distinct_ids(b.transactions),
        spends_outside(b.transactions),
        forall|i: int| 0 <= i < b.transactions.len() ==> (#[trigger] b.transactions[i]).vout.len() > 0,
        forall|i: int| 0 <= i < b.transactions.len() ==> !is_tx_id_in(chain, #[trigger] b.transactions[i].id),
    ensures
        apply_txs(scan_blocks((UtxoMap::empty(), SpentMap::empty()), chain).0, b.transactions)
            == scan_blocks((UtxoMap::empty(), SpentMap::empty()), seq![b] + chain).0,
{
    let st0 = (UtxoMap::empty(), SpentMap::empty());
    let txs = b.transactions;
    let sb = scan_block(st0, b);
    assert(sb == scan_txs(st0, txs));
    lemma_scan_txs_records(txs, txs.len() as int);
    assert(txs.take(txs.len() as int) =~= txs);
    lemma_scan_blocks_prepend(st0, b, chain);
    let m = scan_blocks(st0, chain).0;
    assert forall|i: int| 0 <= i < txs.len() implies !m.dom().contains(#[trigger] txs[i].id) by {
        assert(!is_tx_id_in(chain, b.transactions[i].id));
        lemma_scan_blocks_other(st0, chain, txs[i].id);
    }
    lemma_scan_blocks_nonempty(st0, chain);
    lemma_apply_txs_rel(m, txs, txs.len() as int);
    assert(filter_spent(UtxoMap::empty(), sb.1) =~= UtxoMap::empty());
    assert(sb.0.union_prefer_right(filter_spent(UtxoMap::empty(), sb.1)) =~= sb.0);
    assert(spent_union(sb.1, sb.1, SpentMap::empty()));
    assert(fresh_for(sb.0, chain)) by {
        assert forall|j: int, i: int| 0 <= j < chain.len() && 0 <= i < chain[j].transactions.len() implies !sb.0.dom().contains(
            #[trigger] chain[j].transactions[i].id) by {
            let k = chain[j].transactions[i].id;
            if sb.0.dom().contains(k) {
                let t = choose|t: int| 0 <= t < txs.len() && #[trigger] txs[t].id == k;
                assert(!is_tx_id_in(chain, b.transactions[t].id));
                assert(is_tx_id_in(chain, k));
            }
        }
    }
    lemma_scan_blocks_rel(sb, st0, sb.0, sb.1, chain);
}

/// Every entry of the index holds at least one output.
pub open spec fn entries_nonempty(m: UtxoMap) -> bool {
    forall|k: Seq<u8>| #[trigger] m.dom().contains(k) ==> m[k].len() > 0
}

proof fn lemma_collect_nonempty(m: UtxoMap, s: SpentMap, id: Seq<u8>, vout: Seq<TxOutputModel>, n: nat)
    requires
        entries_nonempty(m),
    ensures
        entries_nonempty(collect_outputs(m, s, id, vout, n)),
    decreases n,
{
    if n > 0 {
        lemma_collect_nonempty(m, s, id, vout, (n - 1) as nat);
    }
}

proof fn lemma_scan_txs_nonempty(st: (UtxoMap, SpentMap), txs: Seq<TransactionModel>)
    requires
        entries_nonempty(st.0),
    ensures
        entries_nonempty(scan_txs(st, txs).0),
    decreases txs.len(),
{
    if txs.len() > 0 {
        lemma_scan_txs_nonempty(st, txs.drop_last());
        let a = scan_txs(st, txs.drop_last());
        lemma_collect_nonempty(a.0, a.1, txs.last().id, txs.last().vout, txs.last().vout.len());
    }
}

/// A scan's index never holds an empty entry.
proof fn lemma_scan_blocks_nonempty(st: (UtxoMap, SpentMap), blocks: Seq<BlockModel>)
    requires
        entries_nonempty(st.0),
    ensures
        entries_nonempty(scan_blocks(st, blocks).0),
    decreases blocks.len(),
{
    if blocks.len() > 0 {
        lemma_scan_blocks_nonempty(st, blocks.drop_last());
        let a = scan_blocks(st, blocks.drop_last());
        let b = blocks.last();
        if b.prev_block_hash.len() == 0 && b.transactions.len() > 0 {
            let t = b.transactions[0];
            lemma_collect_nonempty(a.0, a.1, t.id, t.vout, t.vout.len());
        } else {
            lemma_scan_txs_nonempty(a, b.transactions);
        }
    }
}

/// Whether an input of a transaction among `txs` that is not a coinbase
/// names output `x` of the transaction with id `id`.
pub open spec fn spent_by(txs: Seq<TransactionModel>, id: Seq<u8>, x: u8) -> bool {
    exists|i: int, k: int|
        0 <= i < txs.len() && !is_coinbase_model(txs[i]) && 0 <= k < txs[i].vin.len()
            && (#[trigger] txs[i].vin[k]).txid == id && txs[i].vin[k].vout == x
}

/// The outputs among `outs` that no input of a transaction among `txs`
/// that is not a coinbase names.
pub open spec fn not_spent_by(outs: Seq<(u8, TxOutputModel)>, txs: Seq<TransactionModel>, id: Seq<u8>) -> Seq<(u8, TxOutputModel)>
    decreases outs.len(),
{
    if outs.len() == 0 {
        outs
    } else {
        let rest = not_spent_by(outs.drop_last(), txs, id);
        if spent_by(txs, id, outs.last().0) {
            rest
        } else {
            rest.push(outs.last())
        }
    }
}

/// Recording the spends of some inputs records exactly the outputs they name.
proof fn lemma_record_spends_exactly(s: SpentMap, vins: Seq<TxInputModel>, id: Seq<u8>, x: u8)
    ensures
        is_recorded_spent(record_spends(s, vins), id, x as int) == (is_recorded_spent(s, id, x as int)
            || exists|k: int| 0 <= k < vins.len() && (#[trigger] vins[k]).txid == id && vins[k].vout == x),
    decreases vins.len(),
{
    if vins.len() > 0 {
        let init = vins.drop_last();
        lemma_record_spends_exactly(s, init, id, x);
        let a = record_spends(s, init);
        let v = vins.last();
        if v.txid == id {
            lemma_push_contains(indices_or_empty(a, id), v.vout, x);
        }
        if exists|k: int| 0 <= k < init.len() && (#[trigger] init[k]).txid == id && init[k].vout == x {
            let k = choose|k: int| 0 <= k < init.len() && (#[trigger] init[k]).txid == id && init[k].vout == x;
            assert(vins[k] == init[k]);
        }
        if exists|k: int| 0 <= k < vins.len() && (#[trigger] vins[k]).txid == id && vins[k].vout == x {
            let k = choose|k: int| 0 <= k < vins.len() && (#[trigger] vins[k]).txid == id && vins[k].vout == x;
            if k < init.len() {
                assert(init[k] == vins[k]);
            }
        }
    }
}

/// After a fresh scan of transactions, an output is recorded as spent
/// exactly when one of their inputs that is not a coinbase's names it.
proof fn lemma_scan_spent_exactly(txs: Seq<TransactionModel>, id: Seq<u8>, x: u8)
    ensures
        is_recorded_spent(scan_txs((UtxoMap::empty(), SpentMap::empty()), txs).1, id, x as int) == spent_by(txs, id, x),
    decreases txs.len(),
{
    let st0 = (UtxoMap::empty(), SpentMap::empty());
    if txs.len() > 0 {
        let init = txs.drop_last();
        let t = txs.last();
        lemma_scan_spent_exactly(init, id, x);
        let a = scan_txs(st0, init);
        if !is_coinbase_model(t) {
            lemma_record_spends_exactly(a.1, t.vin, id, x);
        }
        if spent_by(init, id, x) {
            let (i, k) = choose|i: int, k: int|
                0 <= i < init.len() && !is_coinbase_model(init[i]) && 0 <= k < init[i].vin.len()
                    && (#[trigger] init[i].vin[k]).txid == id && init[i].vin[k].vout == x;
            assert(txs[i] == init[i]);
            assert(txs[i].vin[k].txid == id);
        }
        if spent_by(txs, id, x) {
            let (i, k) = choose|i: int, k: int|
                0 <= i < txs.len() && !is_coinbase_model(txs[i]) && 0 <= k < txs[i].vin.len()
                    && (#[trigger] txs[i].vin[k]).txid == id && txs[i].vin[k].vout == x;
            if i < init.len() {
                assert(init[i] == txs[i]);
                assert(init[i].vin[k].txid == id);
            } else {
                assert(t.vin[k].txid == id);
            }
        }
        if !is_coinbase_model(t) && exists|k: int| 0 <= k < t.vin.len() && (#[trigger] t.vin[k]).txid == id && t.vin[k].vout == x {
            let k = choose|k: int| 0 <= k < t.vin.len() && (#[trigger] t.vin[k]).txid == id && t.vin[k].vout == x;
            assert(txs[txs.len() - 1].vin[k].txid == id);
        }
    }
}

/// Keeping against a spent map that records exactly the outputs `txs` spends
/// keeps exactly the outputs they do not spend.
proof fn lemma_keep_is_not_spent_by(outs: Seq<(u8, TxOutputModel)>, s: SpentMap, txs: Seq<TransactionModel>, id: Seq<u8>)
    requires
        forall|x: u8| #[trigger] is_recorded_spent(s, id, x as int) == spent_by(txs, id, x),
    ensures
        keep_unspent(outs, s, id) == not_spent_by(outs, txs, id),
    decreases outs.len(),
{
    if outs.len() > 0 {
        lemma_keep_is_not_spent_by(outs.drop_last(), s, txs, id);
        assert(is_recorded_spent(s, id, outs.last().0 as int) == spent_by(txs, id, outs.last().0));
    }
}

/// Collecting the outputs of a transaction that has no entry keeps, with
/// their indices, exactly those not recorded as spent.
proof fn lemma_collect_keeps(utxo: UtxoMap, spent: SpentMap, id: Seq<u8>, vout: Seq<TxOutputModel>, n: nat)
    requires
        !utxo.dom().contains(id),
        n <= vout.len(),
    ensures
        collect_outputs(utxo, spent, id, vout, n).dom().contains(id) == (keep_unspent(indexed(vout).take(n as int), spent, id).len() > 0),
        collect_outputs(utxo, spent, id, vout, n).dom().contains(id) ==> collect_outputs(utxo, spent, id, vout, n)[id]
            == keep_unspent(indexed(vout).take(n as int), spent, id),
    decreases n,
{
    if n == 0 {
        assert(indexed(vout).take(0) =~= Seq::<(u8, TxOutputModel)>::empty());
    } else {
        lemma_collect_keeps(utxo, spent, id, vout, (n - 1) as nat);
        let e = ((n - 1) as u8, vout[n - 1]);
        assert(indexed(vout).take(n as int) =~= indexed(vout).take(n - 1).push(e));
        lemma_keep_push(indexed(vout).take(n - 1), e, spent, id);
        assert((e.0 as int) as u8 == (n - 1) as u8);
        assert(is_recorded_spent(spent, id, e.0 as int) == is_recorded_spent(spent, id, n - 1));
    }
}

/// An output is unspent exactly when no input scanned before it names it:
/// in a fresh scan, a transaction scanned after the transactions `newer`
/// (none of which has its id) is kept with exactly those of its outputs,
/// with their indices, that no input of a transaction of `newer` that is not
/// a coinbase names; it has an entry exactly when one such output remains.
pub proof fn lemma_unspent_exactly(newer: Seq<TransactionModel>, t: TransactionModel)
    requires
        forall|i: int| 0 <= i < newer.len() ==> #[trigger] newer[i].id != t.id,
    ensures
        scan_tx(scan_txs((UtxoMap::empty(), SpentMap::empty()), newer), t).0.dom().contains(t.id)
            == (not_spent_by(indexed(t.vout), newer, t.id).len() > 0),
        scan_tx(scan_txs((UtxoMap::empty(), SpentMap::empty()), newer), t).0.dom().contains(t.id)
            ==> scan_tx(scan_txs((UtxoMap::empty(), SpentMap::empty()), newer), t).0[t.id]
                == not_spent_by(indexed(t.vout), newer, t.id),
{
    let st0 = (UtxoMap::empty(), SpentMap::empty());
    let a = scan_txs(st0, newer);
    lemma_scan_txs_other(st0, newer, t.id);
    lemma_collect_keeps(a.0, a.1, t.id, t.vout, t.vout.len());
    assert(indexed(t.vout).take(t.vout.len() as int) =~= indexed(t.vout));
    assert forall|x: u8| #[trigger] is_recorded_spent(a.1, t.id, x as int) == spent_by(newer, t.id, x) by {
        lemma_scan_spent_exactly(newer, t.id, x);
    }
    lemma_keep_is_not_spent_by(indexed(t.vout), a.1, newer, t.id);
}

} // verus!
