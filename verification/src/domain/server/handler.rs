//! The mining node: its identity and the decisions of its mining loop.

use vstd::prelude::*;
use crate::domain::transaction::output::{text_bytes, is_lockable_address, check_address};
use crate::domain::transaction::transaction::{Transaction, coinbase_model, txs_view};

verus! {

/// A message to the mining loop.
pub enum NodeMessage {
    /// Stop mining.
    Stop,
    /// Start mining.
    Restart,
    /// A transaction arrived for the memory pool.
    TxReceived { tx: Transaction },
}

/// A node of the network.
pub struct Server {
    pub node_address: String,
    pub mining_address: String,
    pub known_nodes: Vec<String>,
    pub blocks_in_transit: Vec<Vec<u8>>,
}

impl Server {
    /// A node with no known peers and one empty entry of blocks in transit.
    pub fn new(node_address: String, mining_address: String) -> (s: Self)
        ensures
            s.node_address@ == node_address@,
            s.mining_address@ == mining_address@,
            s.known_nodes@.len() == 0,
            s.blocks_in_transit@.len() == 1,
            s.blocks_in_transit@[0]@.len() == 0,
    {
        return Server {
            node_address: node_address,
            mining_address: mining_address,
            known_nodes: Vec::new(),
            blocks_in_transit: vec![Vec::new()],
        };
    }
}

/// What the first byte of a connection asks of the node.
pub enum Command {
    /// A transaction follows.
    Transaction,
    /// Start mining.
    Restart,
    /// Stop mining.
    Stop,
    /// Any other byte.
    Unknown,
}

/// The command a connection's first byte names: 1 is a transaction, 2
/// restarts mining, 3 stops it.
pub fn decode_command(byte: u8) -> (c: Command)
    ensures
        byte == 1 ==> c is Transaction,
        byte == 2 ==> c is Restart,
        byte == 3 ==> c is Stop,
        byte != 1 && byte != 2 && byte != 3 ==> c is Unknown,
{
    match byte {
        1 => Command::Transaction,
        2 => Command::Restart,
        3 => Command::Stop,
        _ => Command::Unknown,
    }
}

/// The reward of a generation transaction.
pub const GENERATION_REWARD: u32 = 20;

/// The input text of a generation transaction.
pub open spec fn generation_data() -> Seq<char> {
    "placeholder"@
}

/// The transaction that rewards the node at `node_address` for a block.
pub fn create_generation_transaction(node_address: &str) -> (tx: Transaction)
    requires
        is_lockable_address(text_bytes(node_address@)),
    ensures
        tx@ == coinbase_model(node_address@, generation_data(), GENERATION_REWARD),
{
    let reward = GENERATION_REWARD;
    let coinbase_data = "placeholder".to_owned();
    proof {
        reveal_strlit("placeholder");
    }
    Transaction::new_generation_tx(node_address.to_owned(), reward, coinbase_data)
}

/// Like [`create_generation_transaction`], but `None` where the address
/// cannot lock an output.
pub fn try_create_generation_transaction(node_address: &str) -> (tx: Option<Transaction>)
    ensures
        match tx {
            Some(t) => is_lockable_address(text_bytes(node_address@))
                && t@ == coinbase_model(node_address@, generation_data(), GENERATION_REWARD),
            None => !is_lockable_address(text_bytes(node_address@)),
        },
{
    if check_address(node_address) {
        Some(create_generation_transaction(node_address))
    } else {
        None
    }
}

/// The state of the mining loop: the memory pool of waiting transactions,
/// whether a block is to be mined, and how many rounds were mined.
pub struct Miner {
    pub mem_pool: Vec<Transaction>,
    pub is_mining: bool,
    pub counter: u64,
}

/// The number of waiting transactions above which mining starts.
pub const POOL_THRESHOLD: usize = 3;

impl Miner {
    /// An idle miner with an empty pool.
    pub fn new() -> (m: Self)
        ensures
            m.mem_pool@.len() == 0,
            !m.is_mining,
            m.counter == 0,
    {
        Miner { mem_pool: Vec::new(), is_mining: false, counter: 0 }
    }

    /// Handles a message: `Stop` and `Restart` turn mining off and on; a
    /// transaction joins the pool, and mining is on exactly when the pool
    /// then holds more than three transactions.
    pub fn receive(&mut self, message: NodeMessage)
        ensures
            final(self).counter == old(self).counter,
            match message {
                NodeMessage::Stop => !final(self).is_mining && txs_view(final(self).mem_pool@) == txs_view(old(self).mem_pool@),
                NodeMessage::Restart => final(self).is_mining && txs_view(final(self).mem_pool@) == txs_view(old(self).mem_pool@),
                NodeMessage::TxReceived { tx } => txs_view(final(self).mem_pool@) == txs_view(old(self).mem_pool@).push(tx@)
                    && final(self).is_mining == (final(self).mem_pool@.len() > POOL_THRESHOLD),
            },
    {
        match message {
            NodeMessage::Stop => {
                self.is_mining = false;
            },
            NodeMessage::Restart => {
                self.is_mining = true;
            },
            NodeMessage::TxReceived { tx } => {
                let ghost before = txs_view(self.mem_pool@);
                let ghost model = tx@;
                self.mem_pool.push(tx);
                assert(txs_view(self.mem_pool@) =~= before.push(model));
                if self.mem_pool.len() > POOL_THRESHOLD {
                    self.is_mining = true;
                } else {
                    self.is_mining = false;
                }
            },
        }
    }

    /// A mining round: the generation transaction joins the pool, the whole
    /// pool becomes the candidate transactions, the pool empties, mining
    /// stops and the round counter advances. Returns the round's number and
    /// the candidates.
    pub fn mine_round(&mut self, generation_tx: Transaction) -> (res: (u64, Vec<Transaction>))
        requires
            old(self).is_mining,
            old(self).counter < u64::MAX,
        ensures
            res.0 == old(self).counter,
            txs_view(res.1@) == txs_view(old(self).mem_pool@).push(generation_tx@),
            final(self).mem_pool@.len() == 0,
            !final(self).is_mining,
            final(self).counter == old(self).counter + 1,
    {
        let ghost before = txs_view(self.mem_pool@);
        let ghost model = generation_tx@;
        let mut candidate_txs: Vec<Transaction> = Vec::new();
        std::mem::swap(&mut candidate_txs, &mut self.mem_pool);
        candidate_txs.push(generation_tx);
        assert(txs_view(candidate_txs@) =~= before.push(model));
        let round = self.counter;
        self.is_mining = false;
        self.counter = self.counter + 1;
        (round, candidate_txs)
    }

    /// What the mining loop does when no message waits: while mining, a
    /// round (see [`Miner::mine_round`]) takes the pool with the generation
    /// transaction for `node_address`; otherwise nothing changes.
    pub fn when_idle(&mut self, node_address: &str) -> (res: Option<(u64, Vec<Transaction>)>)
        requires
            old(self).is_mining ==> is_lockable_address(text_bytes(node_address@)),
            old(self).is_mining ==> old(self).counter < u64::MAX,
        ensures
            !old(self).is_mining ==> res is None && *final(self) == *old(self),
            old(self).is_mining ==> (res matches Some(r) && {
                &&& r.0 == old(self).counter
                &&& txs_view(r.1@) == txs_view(old(self).mem_pool@).push(
                    coinbase_model(node_address@, generation_data(), GENERATION_REWARD),
                )
                &&& final(self).mem_pool@.len() == 0
                &&& !final(self).is_mining
                &&& final(self).counter == old(self).counter + 1
            }),
    {
        if self.is_mining {
            let generation_tx = create_generation_transaction(node_address);
            Some(self.mine_round(generation_tx))
        } else {
            None
        }
    }
}

} // verus!
