//! Proof of work: the search for a nonce whose block hash falls below the target.

use vstd::prelude::*;
use vstd::arithmetic::power2::pow2;
use crate::crypto::{sha256, sha256_of, be_value, be_less_than, pow2_be_bytes};
use crate::domain::blockchain::block::{Block, pow_prefix};
use crate::domain::transaction::output::text_bytes;

verus! {

/// The number of leading zero bits a block hash must have.
pub const TARGET_BITS: u16 = 20;

/// The width of a block hash in bits.
pub const UPPER_BOUND: u16 = 256;

/// The largest nonce; the search stops when it reaches it.
pub const MAX_NONCE: u64 = 0xffff_ffff_ffff_ffff;

/// The target: a hash meets it when its value is below two to the power of
/// the hash width less the target bits.
pub open spec fn target_value() -> nat {
    pow2((UPPER_BOUND - TARGET_BITS) as nat)
}

/// The eight big-endian bytes of `n`.
pub open spec fn u64_be_bytes(n: u64) -> Seq<u8> {
    seq![
        (n >> 56) as u8,
        (n >> 48) as u8,
        (n >> 40) as u8,
        (n >> 32) as u8,
        (n >> 24) as u8,
        (n >> 16) as u8,
        (n >> 8) as u8,
        n as u8,
    ]
}

/// The bytes hashed for a nonce: the prefix, then the timestamp, the target
/// bits and the nonce, each as eight big-endian bytes.
pub open spec fn pow_input(prefix: Seq<u8>, timestamp: u64, nonce: u64) -> Seq<u8> {
    prefix + u64_be_bytes(timestamp) + u64_be_bytes(TARGET_BITS as u64) + u64_be_bytes(nonce)
}

/// The hash for a nonce.
pub open spec fn pow_hash(prefix: Seq<u8>, timestamp: u64, nonce: u64) -> Seq<u8> {
    sha256_of(pow_input(prefix, timestamp, nonce))
}

/// Whether a hash is below the target value.
pub open spec fn meets_target(hash: Seq<u8>, target: nat) -> bool {
    be_value(hash) < target
}

/// Whether `nonce` is where the search stops: every smaller nonce misses the
/// target, and the nonce meets it unless the search ran out of nonces.
pub open spec fn is_first_nonce(prefix: Seq<u8>, timestamp: u64, target: nat, nonce: u64) -> bool {
    &&& forall|n: u64| n < nonce ==> !meets_target(#[trigger] pow_hash(prefix, timestamp, n), target)
    &&& nonce < MAX_NONCE ==> meets_target(pow_hash(prefix, timestamp, nonce), target)
}

/// The hash the search reports with `nonce`: that of the nonce, or of the
/// last nonce tried when the search ran out.
pub open spec fn found_hash(prefix: Seq<u8>, timestamp: u64, nonce: u64) -> Seq<u8> {
    if nonce < MAX_NONCE {
        pow_hash(prefix, timestamp, nonce)
    } else {
        pow_hash(prefix, timestamp, (MAX_NONCE - 1) as u64)
    }
}

/// The outcome of the search: the first nonce and its hash.
pub open spec fn is_search_result(prefix: Seq<u8>, timestamp: u64, target: nat, nonce: u64, hash: Seq<u8>) -> bool {
    is_first_nonce(prefix, timestamp, target, nonce) && hash == found_hash(prefix, timestamp, nonce)
}

/// The eight big-endian bytes of `n`.
pub fn int_to_hex(n: u64) -> (bytes: Vec<u8>)
    ensures
        bytes@ == u64_be_bytes(n),
{
    let mut v: Vec<u8> = Vec::new();
    v.push((n >> 56) as u8);
    v.push((n >> 48) as u8);
    v.push((n >> 40) as u8);
    v.push((n >> 32) as u8);
    v.push((n >> 24) as u8);
    v.push((n >> 16) as u8);
    v.push((n >> 8) as u8);
    v.push(n as u8);
    assert(v@ =~= u64_be_bytes(n));
    v
}

/// Appends `b` to `v`.
pub fn extend_bytes(v: &mut Vec<u8>, b: &[u8])
    ensures
        final(v)@ == old(v)@ + b@,
{
    let mut i: usize = 0;
    while i < b.len()
        invariant
            i <= b@.len(),
            v@ == old(v)@ + b@.take(i as int),
        decreases b@.len() - i,
    {
        v.push(b[i]);
        assert(v@ =~= old(v)@ + b@.take(i + 1));
        i = i + 1;
    }
    assert(b@.take(b@.len() as int) =~= b@);
}

/// The bytes hashed for `nonce` (see [`pow_input`]).
pub fn pow_data(prefix: &[u8], timestamp: u64, nonce: u64) -> (data: Vec<u8>)
    ensures
        data@ == pow_input(prefix@, timestamp, nonce),
        data@.len() == prefix@.len() + 24,
{
    let mut data: Vec<u8> = Vec::new();
    extend_bytes(&mut data, prefix);
    extend_bytes(&mut data, int_to_hex(timestamp).as_slice());
    extend_bytes(&mut data, int_to_hex(TARGET_BITS as u64).as_slice());
    extend_bytes(&mut data, int_to_hex(nonce).as_slice());
    assert(data@ =~= pow_input(prefix@, timestamp, nonce));
    data
}

/// Tries the nonces from zero upwards until a hash falls below the target
/// value of `target`; returns the nonce and its hash.
pub fn search_nonce(prefix: &[u8], timestamp: u64, target: &[u8]) -> (res: (u64, [u8; 32]))
    ensures
        is_search_result(prefix@, timestamp, be_value(target@), res.0, res.1@),
{
    let mut hash = [0u8; 32];
    let mut nonce: u64 = 0;
    while nonce < MAX_NONCE
        invariant
            forall|n: u64| n < nonce ==> !meets_target(#[trigger] pow_hash(prefix@, timestamp, n), be_value(target@)),
            nonce > 0 ==> hash@ == pow_hash(prefix@, timestamp, (nonce - 1) as u64),
        decreases MAX_NONCE - nonce,
    {
        let data = pow_data(prefix, timestamp, nonce);
        hash = sha256(data.as_slice());
        if be_less_than(hash.as_slice(), target) {
            return (nonce, hash);
        } else {
            nonce = nonce + 1;
        }
    }
    (nonce, hash)
}

/// A block with the target its hash must meet.
pub struct ProofOfWork {
    pub block: Block,
    pub target: Vec<u8>,
}

impl ProofOfWork {
    /// The proof of work for `b`, with target two to the power 236.
    pub fn new(b: Block) -> (pow: Self)
        ensures
            pow.block@ == b@,
            be_value(pow.target@) == target_value(),
    {
        let target = pow2_be_bytes(UPPER_BOUND - TARGET_BITS);
        ProofOfWork { block: b, target }
    }

    /// The bytes hashed for `nonce`: the previous block hash, the Merkle root
    /// of the transactions, the timestamp, the target bits and the nonce.
    fn prepare_data(&self, nonce: u64) -> (data: Vec<u8>)
        requires
            self.block.transactions@.len() > 0,
            self.block.transactions@.len() < usize::MAX,
        ensures
            data@ == pow_input(pow_prefix(self.block@), self.block.timestamp, nonce),
            data@.len() == text_bytes(self.block@.prev_block_hash).len() + 56,
    {
        let prefix = self.block.pow_prefix();
        pow_data(prefix.as_slice(), self.block.timestamp, nonce)
    }

    /// Searches for the first nonce whose hash meets the target.
    pub fn run(&self) -> (res: (u64, [u8; 32]))
        requires
            self.block.transactions@.len() > 0,
            self.block.transactions@.len() < usize::MAX,
        ensures
            is_search_result(pow_prefix(self.block@), self.block.timestamp, be_value(self.target@), res.0, res.1@),
    {
        let prefix = self.block.pow_prefix();
        search_nonce(prefix.as_slice(), self.block.timestamp, self.target.as_slice())
    }

    /// Whether the block's own nonce gives a hash that meets the target.
    pub fn validate(&self) -> (valid: bool)
        requires
            self.block.transactions@.len() > 0,
            self.block.transactions@.len() < usize::MAX,
        ensures
            valid == meets_target(
                pow_hash(pow_prefix(self.block@), self.block.timestamp, self.block.nonce),
                be_value(self.target@),
            ),
    {
        let data = self.prepare_data(self.block.nonce);
        let hash = sha256(data.as_slice());
        be_less_than(hash.as_slice(), self.target.as_slice())
    }
}

/// The eight bytes of [`int_to_hex`] are the big-endian digits of the number.
pub proof fn lemma_u64_be_bytes_value(n: u64)
    ensures
        be_value(u64_be_bytes(n)) == n,
{
    let s = u64_be_bytes(n);
    reveal_with_fuel(be_value, 9);
    assert(s.drop_last().drop_last().drop_last().drop_last().drop_last().drop_last().drop_last().drop_last() =~= Seq::<u8>::empty());
    assert(n == (((((((((n >> 56) as u8) as u64 * 256 + ((n >> 48) as u8) as u64) * 256 + ((n >> 40) as u8) as u64) * 256
        + ((n >> 32) as u8) as u64) * 256 + ((n >> 24) as u8) as u64) * 256 + ((n >> 16) as u8) as u64) * 256
        + ((n >> 8) as u8) as u64) * 256 + (n as u8) as u64)) by (bit_vector);
}

} // verus!
