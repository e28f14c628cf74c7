//! Blocks of transactions.

use vstd::prelude::*;
use vstd::arithmetic::power2::pow2;
use crate::crypto::{hex_encode, hex_text, unix_time_secs};
use crate::domain::transaction::output::{text_bytes, text_to_bytes};
use crate::domain::transaction::transaction::{Transaction, TransactionModel, txs_view, serialized_id, copy_transactions};
use crate::domain::blockchain::merkle_tree::{MerkleTree, merkle_root, bytes_seqs, lemma_merkle_root_exists, padded, leaf_hashes, next_level, level_after};
use crate::crypto::sha256_of;
use crate::domain::proof_of_work::{ProofOfWork, is_first_nonce, found_hash, target_value, extend_bytes, meets_target, pow_hash, MAX_NONCE};

verus! {

/// The number of base units in a coin.
pub const COIN: i64 = 100000000;

/// A block: transactions, the hash of the block before, and the nonce and
/// hash found by proof of work.
pub struct Block {
    pub timestamp: u64,
    pub transactions: Vec<Transaction>,
    pub prev_block_hash: String,
    pub hash: String,
    pub nonce: u64,
}

/// The mathematical value of a [`Block`].
pub struct BlockModel {
    pub timestamp: u64,
    pub transactions: Seq<TransactionModel>,
    pub prev_block_hash: Seq<char>,
    pub hash: Seq<char>,
    pub nonce: u64,
}

impl View for Block {
    type V = BlockModel;

    open spec fn view(&self) -> BlockModel {
        BlockModel {
            timestamp: self.timestamp,
            transactions: txs_view(self.transactions@),
            prev_block_hash: self.prev_block_hash@,
            hash: self.hash@,
            nonce: self.nonce,
        }
    }
}

impl Clone for Block {
    fn clone(&self) -> (r: Self)
        ensures
            r@ == self@,
    {
        Block {
            timestamp: self.timestamp,
            transactions: copy_transactions(&self.transactions),
            prev_block_hash: self.prev_block_hash.clone(),
            hash: self.hash.clone(),
            nonce: self.nonce,
        }
    }
}

/// The ids of the transactions, in order.
pub open spec fn tx_ids(txs: Seq<TransactionModel>) -> Seq<Seq<u8>> {
    txs.map_values(|t: TransactionModel| serialized_id(t))
}

/// The Merkle root of the transactions' ids.
pub open spec fn transactions_hash(txs: Seq<TransactionModel>) -> Seq<u8> {
    merkle_root(tx_ids(txs)).unwrap()
}

/// What proof of work hashes before the timestamp, target bits and nonce:
/// the previous block hash's bytes and the Merkle root of the transactions.
pub open spec fn pow_prefix(b: BlockModel) -> Seq<u8> {
    text_bytes(b.prev_block_hash) + transactions_hash(b.transactions)
}

/// A block mined at `timestamp`: its nonce is the first that meets the
/// target, and its hash is the hexadecimal text of that nonce's hash.
pub open spec fn is_mined_block(b: BlockModel, transactions: Seq<TransactionModel>, prev_block_hash: Seq<char>, timestamp: u64) -> bool {
    &&& b.timestamp == timestamp
    &&& b.transactions == transactions
    &&& b.prev_block_hash == prev_block_hash
    &&& is_first_nonce(pow_prefix(b), timestamp, target_value(), b.nonce)
    &&& b.hash == hex_text(found_hash(pow_prefix(b), timestamp, b.nonce))
}

/// The halvings of the block reward at a height, with Rust's division
/// (rounding toward zero).
pub open spec fn reward_halvings(height: int) -> int {
    if height >= 0 {
        height / 4
    } else {
        -((-height) / 4)
    }
}

/// The value of a block at a height: fifty coins halved every four blocks
/// (nothing after 64 halvings), plus the fees.
pub open spec fn block_value(height: int, fees: int) -> int {
    if reward_halvings(height) >= 64 {
        fees
    } else {
        50 * COIN / pow2(reward_halvings(height) as nat) as int + fees
    }
}

impl Block {
    /// Mines a block over `transactions` on top of `prev_block_hash`, stamped
    /// with the current time; `None` where the clock reads before 1970.
    pub fn new(transactions: Vec<Transaction>, prev_block_hash: String) -> (block: Option<Self>)
        requires
            transactions@.len() > 0,
            transactions@.len() < usize::MAX,
        ensures
            block is Some ==> exists|t: u64| #[trigger] is_mined_block(block->0@, txs_view(transactions@), prev_block_hash@, t),
    {
        match unix_time_secs() {
            Some(timestamp) => {
                let ghost txs = txs_view(transactions@);
                let ghost p = prev_block_hash@;
                let b = Self::mine(transactions, prev_block_hash, timestamp);
                assert(is_mined_block(b@, txs, p, timestamp));
                let r = Some(b);
                assert(r->0 == b);
                assert(is_mined_block(r->0@, txs, p, timestamp));
                assert(exists|t: u64| #[trigger] is_mined_block(r->0@, txs, p, t));
                r
            },
            None => None,
        }
    }

    /// Mines a block over `transactions` on top of `prev_block_hash`, stamped
    /// with `timestamp`.
    pub fn mine(transactions: Vec<Transaction>, prev_block_hash: String, timestamp: u64) -> (block: Self)
        requires
            transactions@.len() > 0,
            transactions@.len() < usize::MAX,
        ensures
            is_mined_block(block@, txs_view(transactions@), prev_block_hash@, timestamp),
    {
        let block = Block { timestamp, transactions, prev_block_hash, hash: String::new(), nonce: 0 };
        let pow = ProofOfWork::new(block);
        let (nonce, hash) = pow.run();
        let mut block = pow.block;
        block.hash = hex_encode(hash.as_slice());
        block.nonce = nonce;
        block
    }

    /// The bytes proof of work hashes first (see [`pow_prefix`]).
    pub fn pow_prefix(&self) -> (prefix: Vec<u8>)
        requires
            self.transactions@.len() > 0,
            self.transactions@.len() < usize::MAX,
        ensures
            prefix@ == pow_prefix(self@),
            prefix@.len() == text_bytes(self@.prev_block_hash).len() + 32,
    {
        let mut prefix = text_to_bytes(self.prev_block_hash.as_str());
        let h = self.hash_transactions();
        extend_bytes(&mut prefix, h.as_slice());
        prefix
    }

    /// The Merkle root of the transactions' ids.
    pub fn hash_transactions(&self) -> (h: Vec<u8>)
        requires
            self.transactions@.len() > 0,
            self.transactions@.len() < usize::MAX,
        ensures
            h@ == transactions_hash(self@.transactions),
            h@ == merkle_root(Seq::new(self@.transactions.len(), |i: int| self@.transactions[i].id)).unwrap(),
            h@.len() == 32,
    {
        let mut tx_hashes: Vec<Vec<u8>> = Vec::new();
        let mut i: usize = 0;
        while i < self.transactions.len()
            invariant
                i <= self.transactions@.len(),
                tx_hashes@.len() == i,
                forall|j: int| 0 <= j < i ==> (#[trigger] tx_hashes@[j])@ == serialized_id(self.transactions@[j]@),
            decreases self.transactions@.len() - i,
        {
            tx_hashes.push(self.transactions[i].serialize_id());
            i = i + 1;
        }
        assert(bytes_seqs(tx_hashes@) =~= tx_ids(self@.transactions));
        proof {
            lemma_merkle_root_exists(tx_ids(self@.transactions));
        }
        proof {
            lemma_transactions_hash_in_order(self@.transactions);
        }
        let merkle_tree = MerkleTree::new(tx_hashes);
        match merkle_tree.root {
            Some(root) => root.data,
            None => Vec::new(),
        }
    }

    /// The value of a block at height `nHeight` with fees `nFees` (see [`block_value`]).
    #[allow(non_snake_case)]
    pub fn get_block_value(nHeight: i64, nFees: i64) -> (v: i64)
        requires
            nHeight > -4,
            reward_halvings(nHeight as int) < 64 ==> i64::MIN <= 50 * COIN / pow2(reward_halvings(nHeight as int) as nat) as int + nFees <= i64::MAX,
        ensures
            v == block_value(nHeight as int, nFees as int),
    {
        let n_subsidy: u64 = 50 * (COIN as u64);
        let halvings: i64 = nHeight / 4;
        assert(halvings == reward_halvings(nHeight as int));
        if halvings >= 64 {
            return nFees;
        }
        let shifted: u64 = n_subsidy >> (halvings as u64);
        proof {
            vstd::bits::lemma_u64_shr_is_div(n_subsidy, halvings as u64);
        }
        assert(shifted <= n_subsidy) by {
            vstd::arithmetic::power2::lemma_pow2_pos(halvings as nat);
            vstd::arithmetic::div_mod::lemma_div_is_ordered_by_denominator(n_subsidy as int, 1, pow2(halvings as nat) as int);
        }
        return shifted as i64 + nFees;
    }
}

/// A mined block passes validation: when mining found a nonce before
/// running out, the hash of the block's data at that nonce meets the target,
/// no smaller nonce meets it, and the block's hash is the hexadecimal text
/// of that hash.
pub proof fn lemma_mined_block_validates(
    b: BlockModel,
    transactions: Seq<TransactionModel>,
    prev_block_hash: Seq<char>,
    timestamp: u64,
)
    requires
        is_mined_block(b, transactions, prev_block_hash, timestamp),
        b.nonce < MAX_NONCE,
    ensures
        meets_target(pow_hash(pow_prefix(b), b.timestamp, b.nonce), target_value()),
        forall|n: u64| n < b.nonce ==> !meets_target(#[trigger] pow_hash(pow_prefix(b), b.timestamp, n), target_value()),
        b.hash == hex_text(pow_hash(pow_prefix(b), b.timestamp, b.nonce)),
{
}

/// Every four blocks the reward halves (rounding down), until the 64th halving.
pub proof fn lemma_block_value_halves(height: int)
    requires
        height >= 0,
        reward_halvings(height) < 63,
    ensures
        block_value(height + 4, 0) == block_value(height, 0) / 2,
{
    let k = reward_halvings(height);
    assert(reward_halvings(height + 4) == k + 1);
    vstd::arithmetic::power2::lemma_pow2_pos(k as nat);
    vstd::arithmetic::power2::lemma_pow2_unfold((k + 1) as nat);
    vstd::arithmetic::div_mod::lemma_div_denominator(50 * COIN as int, pow2(k as nat) as int, 2);
    assert(pow2(k as nat) * 2 == pow2((k + 1) as nat));
}

/// The reward never grows with the height.
pub proof fn lemma_block_value_non_increasing(height: int)
    requires
        height >= 0,
    ensures
        block_value(height + 4, 0) <= block_value(height, 0),
{
    let k = reward_halvings(height);
    assert(reward_halvings(height + 4) == k + 1);
    vstd::arithmetic::power2::lemma_pow2_pos(k as nat);
    if k + 1 < 64 {
        vstd::arithmetic::power2::lemma_pow2_unfold((k + 1) as nat);
        vstd::arithmetic::div_mod::lemma_div_denominator(50 * COIN as int, pow2(k as nat) as int, 2);
        assert(pow2(k as nat) * 2 == pow2((k + 1) as nat));
        vstd::arithmetic::div_mod::lemma_div_is_ordered_by_denominator(50 * COIN as int, 1, 2);
        assert((50 * COIN as int / pow2(k as nat) as int) / 2 <= 50 * COIN as int / pow2(k as nat) as int);
    } else if k < 64 {
        vstd::arithmetic::div_mod::lemma_div_pos_is_pos(50 * COIN as int, pow2(k as nat) as int);
    }
}

/// The transactions are hashed by their ids in block order: the Merkle root
/// of a block's transactions is the root over the ids, the first
/// transaction's id first.
pub proof fn lemma_transactions_hash_in_order(txs: Seq<TransactionModel>)
    ensures
        transactions_hash(txs) == merkle_root(Seq::new(txs.len(), |i: int| txs[i].id)).unwrap(),
{
    assert(tx_ids(txs) =~= Seq::new(txs.len(), |i: int| txs[i].id));
}

/// The Merkle root of two transactions hashes the first one's leaf, then the
/// second one's.
pub proof fn lemma_transactions_hash_of_two(t1: TransactionModel, t2: TransactionModel)
    ensures
        transactions_hash(seq![t1, t2]) == sha256_of(sha256_of(t1.id) + sha256_of(t2.id)),
{
    let ids = seq![t1.id, t2.id];
    assert(tx_ids(seq![t1, t2]) =~= ids);
    assert(padded(ids) == ids);
    let h = leaf_hashes(ids);
    assert(h =~= seq![sha256_of(t1.id), sha256_of(t2.id)]);
    assert(h.subrange(2, 2) =~= Seq::<Seq<u8>>::empty());
    assert(next_level(h.subrange(2, 2)) == Seq::<Seq<u8>>::empty());
    assert(next_level(h) =~= seq![sha256_of(sha256_of(t1.id) + sha256_of(t2.id))]);
    assert(level_after(h, 1) == level_after(next_level(h), 0));
}

} // verus!
