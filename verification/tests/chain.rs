use blockchain::domain::blockchain::block::Block;
use blockchain::domain::blockchain::blockchain::{
    bytes_contain, find_in_block, is_genesis, next_step, try_genesis_block, TipLookup, UtxoScan,
};
use blockchain::domain::byte_map::ByteMap;
use blockchain::domain::transaction::input::TxInput;
use blockchain::domain::transaction::output::{
    address_balance, find_spendable_outputs, find_utxo, remove_output, update_utxo_index, TxOutput, TxOutputs,
};
use blockchain::domain::transaction::transaction::Transaction;

const ADDRESS: &str = "171gxwrwaScAon7yY1MjoWwr5SrZgExh5x";

fn out(value: u32) -> TxOutput {
    TxOutput { value, pubkey_hash: vec![value as u8] }
}

fn values(outs: &TxOutputs) -> Vec<u32> {
    outs.outputs.iter().map(|o| o.1.value).collect()
}

fn indices(outs: &TxOutputs) -> Vec<u8> {
    outs.outputs.iter().map(|o| o.0).collect()
}

fn block(prev: &str, txs: Vec<Transaction>) -> Block {
    Block { timestamp: 0, transactions: txs, prev_block_hash: prev.to_string(), hash: "h".to_string(), nonce: 0 }
}

fn spend(id: Vec<u8>, txid: Vec<u8>, vout: u8, outs: Vec<TxOutput>) -> Transaction {
    Transaction { id, vin: vec![TxInput { txid, vout, signature: None, pubkey: None }], vout: outs }
}

#[test]
fn next_step_without_a_tip_reads_nothing() {
    let (tip, b) = next_step(&None, TipLookup::Missing);
    assert!(tip.is_none());
    assert!(b.is_none());
}

#[test]
fn next_step_moves_to_the_previous_hash() {
    let (tip, b) = next_step(&Some("cur".to_string()), TipLookup::Found(block("prev", vec![])));
    assert_eq!(tip, Some("prev".to_string()));
    assert_eq!(b.expect("block").prev_block_hash, "prev");
}

#[test]
fn next_step_on_a_missing_hash_goes_to_the_tip_key() {
    let (tip, b) = next_step(&Some("cur".to_string()), TipLookup::Missing);
    assert_eq!(tip, Some("tip".to_string()));
    assert!(b.is_none());
}

#[test]
fn next_step_on_a_failed_read_stays() {
    let (tip, b) = next_step(&Some("cur".to_string()), TipLookup::Failed);
    assert_eq!(tip, Some("cur".to_string()));
    assert!(b.is_none());
}

#[test]
fn find_in_block_returns_the_first_match() {
    let b = block("p", vec![spend(vec![1], vec![], 0, vec![out(1)]), spend(vec![2], vec![], 0, vec![out(2)]), spend(vec![2], vec![], 0, vec![out(3)])]);
    let t = find_in_block(&b, &[2]).expect("found");
    assert_eq!(t.vout[0].value, 2);
    assert!(find_in_block(&b, &[3]).is_none());
}

#[test]
fn genesis_and_contains() {
    assert!(is_genesis(&block("", vec![])));
    assert!(!is_genesis(&block("x", vec![])));
    assert!(bytes_contain(&vec![1, 2, 3], 2));
    assert!(!bytes_contain(&vec![1, 2, 3], 4));
    assert!(!bytes_contain(&vec![], 0));
}

#[test]
fn try_genesis_block_refuses_a_bad_address() {
    assert!(try_genesis_block("not base58 0".to_string()).is_none());
}

#[test]
fn byte_map_insert_get_remove() {
    let mut m: ByteMap<Vec<u8>> = ByteMap::new();
    assert_eq!(m.len(), 0);
    m.insert(vec![1], vec![10]);
    m.insert(vec![2], vec![20]);
    m.insert(vec![1], vec![11]);
    assert_eq!(m.len(), 2);
    assert_eq!(m.get(&[1]), Some(vec![11]));
    assert_eq!(m.get(&[2]), Some(vec![20]));
    assert_eq!(m.get(&[3]), None);
    assert_eq!(m.entry_at(0), (vec![1], vec![11]));
    assert_eq!(m.entry_at(1), (vec![2], vec![20]));
    m.remove(&[1]);
    assert_eq!(m.get(&[1]), None);
    assert_eq!(m.len(), 1);
    m.remove(&[9]);
    assert_eq!(m.len(), 1);
}

#[test]
fn remove_output_drops_one_index() {
    let outs = TxOutputs { outputs: vec![(0, out(1)), (2, out(2)), (3, out(3))] };
    assert_eq!(values(&remove_output(&outs, 2)), vec![1, 3]);
    assert_eq!(indices(&remove_output(&outs, 2)), vec![0, 3]);
    assert_eq!(values(&remove_output(&outs, 0)), vec![2, 3]);
    assert_eq!(values(&remove_output(&outs, 1)), vec![1, 2, 3]);
    assert_eq!(values(&remove_output(&outs, 7)), vec![1, 2, 3]);
}

#[test]
fn update_utxo_index_spends_and_records() {
    let mut index: ByteMap<TxOutputs> = ByteMap::new();
    index.insert(vec![9, 9], TxOutputs { outputs: vec![(0, out(10)), (1, out(4))] });
    index.insert(vec![8], TxOutputs { outputs: vec![(0, out(6))] });
    let coinbase = Transaction::new_coinbase_tx(ADDRESS.to_string(), String::new());
    let b = block("p", vec![coinbase, spend(vec![7], vec![9, 9], 0, vec![out(5)]), spend(vec![6], vec![8], 0, vec![out(1)]), spend(vec![5], vec![4], 0, vec![out(2)])]);
    update_utxo_index(&mut index, &b);
    assert_eq!(values(&index.get(&[9, 9]).expect("left")), vec![4]);
    assert!(index.get(&[8]).is_none());
    assert_eq!(values(&index.get(&[]).expect("coinbase")), vec![10]);
    assert_eq!(values(&index.get(&[7]).expect("new")), vec![5]);
    assert_eq!(values(&index.get(&[6]).expect("new")), vec![1]);
    assert_eq!(values(&index.get(&[5]).expect("new")), vec![2]);
    assert_eq!(index.len(), 5);
}

#[test]
fn utxo_scan_walks_newest_first() {
    let b1 = block("", vec![Transaction { id: vec![9, 9], vin: vec![], vout: vec![out(10), out(4)] }, Transaction { id: vec![3], vin: vec![], vout: vec![out(3)] }]);
    let b2 = block("h1", vec![spend(vec![7], vec![9, 9], 0, vec![out(5)])]);
    let mut scan = UtxoScan::new();
    scan.scan_block(&b2);
    scan.scan_block(&b1);
    let utxo = scan.utxo_by_hex_id();
    assert_eq!(utxo.len(), 2);
    assert_eq!(utxo[0].0, "07");
    assert_eq!(values(&utxo[0].1), vec![5]);
    assert_eq!(utxo[1].0, "0909");
    assert_eq!(values(&utxo[1].1), vec![4]);
    assert_eq!(scan.spent.get(&[9, 9]), Some(vec![0]));
}

#[test]
fn utxo_scan_ignores_coinbase_inputs() {
    let cb = Transaction::new_coinbase_tx(ADDRESS.to_string(), String::new());
    let mut scan = UtxoScan::new();
    scan.scan_transaction(&cb);
    assert_eq!(scan.spent.len(), 0);
    assert_eq!(scan.utxo.len(), 1);
}

#[test]
fn spending_two_outputs_of_one_transaction_removes_both() {
    let mut index: ByteMap<TxOutputs> = ByteMap::new();
    index.insert(vec![9, 9], TxOutputs { outputs: vec![(0, out(10)), (1, out(4)), (2, out(3))] });
    let two = Transaction {
        id: vec![7],
        vin: vec![
            TxInput { txid: vec![9, 9], vout: 0, signature: None, pubkey: None },
            TxInput { txid: vec![9, 9], vout: 1, signature: None, pubkey: None },
        ],
        vout: vec![out(14)],
    };
    update_utxo_index(&mut index, &block("p", vec![two]));
    let left = index.get(&[9, 9]).expect("one output left");
    assert_eq!(values(&left), vec![3]);
    assert_eq!(indices(&left), vec![2]);
    assert_eq!(indices(&index.get(&[7]).expect("new")), vec![0]);
}

fn locked(value: u32, key: u8) -> TxOutput {
    TxOutput { value, pubkey_hash: vec![key; 20] }
}

fn sample_index() -> ByteMap<TxOutputs> {
    let mut index: ByteMap<TxOutputs> = ByteMap::new();
    index.insert(vec![1], TxOutputs { outputs: vec![(0, locked(3, 7)), (1, locked(50, 8)), (2, locked(4, 7))] });
    index.insert(vec![2], TxOutputs { outputs: vec![(5, locked(6, 7))] });
    index
}

#[test]
fn find_utxo_gives_the_outputs_of_a_key() {
    let index = sample_index();
    let outs = find_utxo(&index, vec![7; 20]);
    assert_eq!(outs.iter().map(|o| o.value).collect::<Vec<u32>>(), vec![3, 4, 6]);
    assert_eq!(find_utxo(&index, vec![8; 20]).len(), 1);
    assert!(find_utxo(&index, vec![9; 20]).is_empty());
}

#[test]
fn find_spendable_outputs_stops_once_the_amount_is_reached() {
    let index = sample_index();
    let (acc, valid) = find_spendable_outputs(&index, vec![7; 20], 5);
    assert_eq!(acc, 7);
    assert_eq!(valid, vec![("01".to_string(), vec![0, 2])]);
    let (acc, valid) = find_spendable_outputs(&index, vec![7; 20], 8);
    assert_eq!(acc, 13);
    assert_eq!(valid, vec![("01".to_string(), vec![0, 2]), ("02".to_string(), vec![5])]);
    let (acc, valid) = find_spendable_outputs(&index, vec![7; 20], 100);
    assert_eq!(acc, 13);
    assert_eq!(valid.len(), 2);
    let (acc, valid) = find_spendable_outputs(&index, vec![7; 20], 0);
    assert_eq!(acc, 0);
    assert!(valid.is_empty());
}

#[test]
fn address_balance_sums_the_outputs_of_the_address() {
    let mut index: ByteMap<TxOutputs> = ByteMap::new();
    let hash: Vec<u8> = vec![65, 242, 29, 142, 158, 238, 46, 217, 19, 153, 21, 224, 48, 35, 217, 39, 183, 203, 44, 90];
    index.insert(vec![1], TxOutputs { outputs: vec![(0, TxOutput { value: 10, pubkey_hash: hash.clone() }), (1, locked(5, 1))] });
    index.insert(vec![2], TxOutputs { outputs: vec![(0, TxOutput { value: 7, pubkey_hash: hash })] });
    assert_eq!(address_balance(ADDRESS, &index), Some(17));
    assert_eq!(address_balance("0", &index), None);
    assert_eq!(address_balance("2", &index), None);
    assert_eq!(address_balance("1111111", &index), Some(0));
}

#[test]
fn update_and_scan_agree_on_a_new_blocks_outputs() {
    let coinbase = Transaction::new_coinbase_tx(ADDRESS.to_string(), String::new());
    let payment = spend(vec![7], vec![9, 9], 0, vec![out(5), out(6)]);
    let b = block("prev", vec![coinbase.clone(), payment.clone()]);
    let mut index: ByteMap<TxOutputs> = ByteMap::new();
    index.insert(vec![9, 9], TxOutputs { outputs: vec![(0, out(10)), (1, out(4))] });
    update_utxo_index(&mut index, &b);
    let mut scan = UtxoScan::new();
    scan.scan_block(&b);
    for tx in [coinbase, payment] {
        let updated = index.get(&tx.id).expect("recorded by the update");
        let scanned = scan.utxo.get(&tx.id).expect("recorded by the scan");
        let expected: Vec<u32> = tx.vout.iter().map(|o| o.value).collect();
        assert_eq!(values(&updated), expected);
        assert_eq!(values(&scanned), expected);
    }
}

#[test]
fn hex_ids_decode_back() {
    use_hex(&[]);
    use_hex(&[0]);
    use_hex(&[9, 9, 0xab, 0xff]);
}

fn use_hex(bytes: &[u8]) {
    let text = blockchain::crypto::hex_encode(bytes);
    assert_eq!(blockchain::crypto::hex_decode(text.as_bytes()), Some(bytes.to_vec()));
}

fn entries(index: &ByteMap<TxOutputs>) -> Vec<(Vec<u8>, Vec<(u8, u32)>)> {
    let mut all: Vec<(Vec<u8>, Vec<(u8, u32)>)> = (0..index.len())
        .map(|i| {
            let (k, outs) = index.entry_at(i);
            (k, outs.outputs.iter().map(|(j, o)| (*j, o.value)).collect())
        })
        .collect();
    all.sort();
    all
}

#[test]
fn updating_the_index_agrees_with_scanning_the_longer_chain() {
    let first = block("", vec![Transaction { id: vec![9, 9], vin: vec![], vout: vec![out(10), out(4), out(3)] }]);
    let second = block("h1", vec![spend(vec![5], vec![9, 9], 2, vec![out(3)])]);
    let third = block(
        "h2",
        vec![Transaction {
            id: vec![7],
            vin: vec![
                TxInput { txid: vec![9, 9], vout: 0, signature: None, pubkey: None },
                TxInput { txid: vec![9, 9], vout: 1, signature: None, pubkey: None },
            ],
            vout: vec![out(14)],
        }],
    );
    let mut scan = UtxoScan::new();
    scan.scan_block(&second);
    scan.scan_block(&first);
    let mut index = scan.utxo;
    update_utxo_index(&mut index, &third);
    let mut rescan = UtxoScan::new();
    rescan.scan_block(&third);
    rescan.scan_block(&second);
    rescan.scan_block(&first);
    assert_eq!(entries(&index), entries(&rescan.utxo));
    assert_eq!(entries(&index), vec![(vec![5], vec![(0, 3)]), (vec![7], vec![(0, 14)])]);
}
