//! A plain block that carries raw data instead of transactions.

use vstd::prelude::*;
use crate::crypto::{pow2_be_bytes, unix_time_secs, sha256_of, be_value};
use vstd::arithmetic::power2::pow2;
use crate::domain::transaction::input::copy_bytes;
use crate::domain::proof_of_work::{
    search_nonce, extend_bytes, is_first_nonce, found_hash, target_value, UPPER_BOUND, TARGET_BITS, MAX_NONCE,
    u64_be_bytes, meets_target, pow_hash,
};

verus! {

/// A block of raw data, chained by the previous block's hash and sealed by
/// proof of work.
pub struct Block {
    pub timestamp: u64,
    pub data: Vec<u8>,
    pub prev_block_hash: Vec<u8>,
    pub hash: Vec<u8>,
    pub nonce: u64,
}

impl Clone for Block {
    fn clone(&self) -> (r: Self)
        ensures
            r.timestamp == self.timestamp,
            r.data@ == self.data@,
            r.prev_block_hash@ == self.prev_block_hash@,
            r.hash@ == self.hash@,
            r.nonce == self.nonce,
    {
        Block {
            timestamp: self.timestamp,
            data: copy_bytes(&self.data),
            prev_block_hash: copy_bytes(&self.prev_block_hash),
            hash: copy_bytes(&self.hash),
            nonce: self.nonce,
        }
    }
}

/// A data block mined at `timestamp`: proof of work hashes the previous
/// block hash followed by the data; the nonce is the first that meets the
/// target and the hash is that nonce's hash.
pub open spec fn is_mined_data_block(b: Block, data: Seq<u8>, prev_block_hash: Seq<u8>, timestamp: u64) -> bool {
    &&& b.timestamp == timestamp
    &&& b.data@ == data
    &&& b.prev_block_hash@ == prev_block_hash
    &&& is_first_nonce(prev_block_hash + data, timestamp, target_value(), b.nonce)
    &&& b.hash@ == found_hash(prev_block_hash + data, timestamp, b.nonce)
}

impl Block {
    /// Mines a block over `data` on top of `prev_block_hash`, stamped with the
    /// current time; `None` where the clock reads before 1970.
    pub fn new(data: Vec<u8>, prev_block_hash: Vec<u8>) -> (block: Option<Self>)
        ensures
            block is Some ==> exists|t: u64| #[trigger] is_mined_data_block(block->0, data@, prev_block_hash@, t),
    {
        match unix_time_secs() {
            Some(timestamp) => {
                let ghost d = data@;
                let ghost p = prev_block_hash@;
                let b = Self::mine(data, prev_block_hash, timestamp);
                assert(is_mined_data_block(b, d, p, timestamp));
                let r = Some(b);
                assert(r->0 == b);
                assert(exists|t: u64| #[trigger] is_mined_data_block(r->0, d, p, t));
                r
            },
            None => None,
        }
    }

    /// Mines a block over `data` on top of `prev_block_hash`, stamped with `timestamp`.
    pub fn mine(data: Vec<u8>, prev_block_hash: Vec<u8>, timestamp: u64) -> (block: Self)
        ensures
            is_mined_data_block(block, data@, prev_block_hash@, timestamp),
            block.nonce < MAX_NONCE ==> block.hash@ == sha256_of(
                prev_block_hash@ + data@ + u64_be_bytes(timestamp) + u64_be_bytes(20) + u64_be_bytes(block.nonce),
            ),
    {
        let mut prefix = copy_bytes(&prev_block_hash);
        extend_bytes(&mut prefix, data.as_slice());
        let target = pow2_be_bytes(UPPER_BOUND - TARGET_BITS);
        let (nonce, hash) = search_nonce(prefix.as_slice(), timestamp, target.as_slice());
        let block = Block {
            timestamp,
            data,
            prev_block_hash,
            hash: vstd::slice::slice_to_vec(hash.as_slice()),
            nonce,
        };
        proof {
            if block.nonce < MAX_NONCE {
                lemma_data_block_commits_to_prev(block, block.data@, block.prev_block_hash@, timestamp);
            }
        }
        block
    }
}

/// What looking up the cursor's hash in the store of data blocks gave.
pub enum DataLookup {
    /// The block stored under the hash.
    Found(Block),
    /// Nothing is stored under the hash.
    Missing,
    /// The store could not be read, or its bytes are not a block.
    Failed,
}

/// One step of the cursor over data blocks. An empty hash means the chain
/// is walked through and nothing is read; a found block is returned and the
/// cursor moves to its previous hash; a missing hash or a failed read leaves
/// the cursor where it is and returns nothing.
pub fn next_data_step(current_hash: Vec<u8>, lookup: DataLookup) -> (res: (Vec<u8>, Option<Block>))
    ensures
        current_hash@.len() == 0 ==> res.0@ == current_hash@ && res.1 is None,
        current_hash@.len() > 0 ==> match lookup {
            DataLookup::Found(b) => res.0@ == b.prev_block_hash@ && res.1 == Some(b),
            DataLookup::Missing => res.0@ == current_hash@ && res.1 is None,
            DataLookup::Failed => res.0@ == current_hash@ && res.1 is None,
        },
{
    if current_hash.len() == 0 {
        return (current_hash, None);
    }
    match lookup {
        DataLookup::Found(block) => {
            let prev = copy_bytes(&block.prev_block_hash);
            (prev, Some(block))
        },
        DataLookup::Missing => (current_hash, None),
        DataLookup::Failed => (current_hash, None),
    }
}

/// A mined data block commits to the block before it: when the search found
/// a nonce, the block's hash is the SHA-256 of the previous block's hash,
/// the data, the timestamp, the target bits and the nonce (each number as
/// eight big-endian bytes); that hash is below two to the power 236, and the
/// hash at every smaller nonce is not.
pub proof fn lemma_data_block_commits_to_prev(b: Block, data: Seq<u8>, prev_block_hash: Seq<u8>, timestamp: u64)
    requires
        is_mined_data_block(b, data, prev_block_hash, timestamp),
        b.nonce < MAX_NONCE,
    ensures
        b.hash@ == sha256_of(prev_block_hash + data + u64_be_bytes(timestamp) + u64_be_bytes(20) + u64_be_bytes(b.nonce)),
        be_value(b.hash@) < pow2(236),
        forall|n: u64| n < b.nonce ==> pow2(236) <= be_value(
            #[trigger] sha256_of(prev_block_hash + data + u64_be_bytes(timestamp) + u64_be_bytes(20) + u64_be_bytes(n)),
        ),
{
    assert forall|n: u64| n < b.nonce implies pow2(236) <= be_value(
        #[trigger] sha256_of(prev_block_hash + data + u64_be_bytes(timestamp) + u64_be_bytes(20) + u64_be_bytes(n))) by {
        assert(!meets_target(pow_hash(prev_block_hash + data, timestamp, n), target_value()));
    }
}

} // verus!
