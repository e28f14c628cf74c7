use blockchain::domain::server::handler::{
    create_generation_transaction, decode_command, try_create_generation_transaction, Command, Miner, NodeMessage, Server,
    GENERATION_REWARD,
    POOL_THRESHOLD,
};
use blockchain::domain::transaction::transaction::Transaction;

const ADDRESS: &str = "171gxwrwaScAon7yY1MjoWwr5SrZgExh5x";

fn tx(id: u8) -> Transaction {
    Transaction { id: vec![id], vin: vec![], vout: vec![] }
}

#[test]
fn server_new_starts_with_no_peers() {
    let s = Server::new("localhost:3000".to_string(), "miner".to_string());
    assert_eq!(s.node_address, "localhost:3000");
    assert_eq!(s.mining_address, "miner");
    assert!(s.known_nodes.is_empty());
    assert_eq!(s.blocks_in_transit, vec![Vec::<u8>::new()]);
}

#[test]
fn generation_transaction_rewards_the_node() {
    let t = create_generation_transaction(ADDRESS);
    assert!(t.is_coinbase());
    assert_eq!(t.vout[0].value, GENERATION_REWARD);
    assert_eq!(GENERATION_REWARD, 20);
    assert_eq!(t.vin[0].pubkey, Some(b"placeholder".to_vec()));
    assert!(try_create_generation_transaction("").is_none());
    assert!(try_create_generation_transaction(ADDRESS).is_some());
}

#[test]
fn miner_starts_after_more_than_three_transactions() {
    let mut m = Miner::new();
    assert!(!m.is_mining);
    for i in 0..POOL_THRESHOLD {
        m.receive(NodeMessage::TxReceived { tx: tx(i as u8) });
        assert!(!m.is_mining);
    }
    m.receive(NodeMessage::TxReceived { tx: tx(9) });
    assert!(m.is_mining);
    assert_eq!(m.mem_pool.len(), 4);
}

#[test]
fn miner_stop_and_restart() {
    let mut m = Miner::new();
    m.receive(NodeMessage::Restart);
    assert!(m.is_mining);
    m.receive(NodeMessage::Stop);
    assert!(!m.is_mining);
    assert_eq!(m.counter, 0);
}

#[test]
fn mining_round_takes_the_pool() {
    let mut m = Miner::new();
    m.receive(NodeMessage::TxReceived { tx: tx(1) });
    m.receive(NodeMessage::Restart);
    let (round, candidates) = m.mine_round(tx(2));
    assert_eq!(round, 0);
    assert_eq!(candidates.len(), 2);
    assert_eq!(candidates[0].id, vec![1]);
    assert_eq!(candidates[1].id, vec![2]);
    assert!(m.mem_pool.is_empty());
    assert!(!m.is_mining);
    assert_eq!(m.counter, 1);
}

#[test]
fn decode_command_bytes() {
    use_command(1, "transaction");
    use_command(2, "restart");
    use_command(3, "stop");
    use_command(0, "unknown");
    use_command(4, "unknown");
    use_command(255, "unknown");
}

fn use_command(byte: u8, expected: &str) {
    let name = match decode_command(byte) {
        Command::Transaction => "transaction",
        Command::Restart => "restart",
        Command::Stop => "stop",
        Command::Unknown => "unknown",
    };
    assert_eq!(name, expected);
}

#[test]
fn when_idle_mines_only_while_mining() {
    let mut m = Miner::new();
    m.receive(NodeMessage::TxReceived { tx: tx(1) });
    assert!(m.when_idle("").is_none());
    assert_eq!(m.mem_pool.len(), 1);
    assert_eq!(m.counter, 0);
    m.receive(NodeMessage::Restart);
    let (round, candidates) = m.when_idle(ADDRESS).expect("a round");
    assert_eq!(round, 0);
    assert_eq!(candidates.len(), 2);
    assert_eq!(candidates[0].id, vec![1]);
    assert!(candidates[1].is_coinbase());
    assert_eq!(candidates[1].vout[0].value, GENERATION_REWARD);
    assert!(m.mem_pool.is_empty());
    assert!(!m.is_mining);
    assert_eq!(m.counter, 1);
}
