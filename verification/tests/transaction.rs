use blockchain::crypto::sha256;
use blockchain::domain::byte_map::ByteMap;
use blockchain::domain::transaction as script;
use blockchain::domain::transaction::input::TxInput;
use blockchain::domain::transaction::output::{TxOutput, TxOutputs};
use blockchain::domain::transaction::transaction::{lookup_prev, Transaction, TxError, SUBSIDY};
use blockchain::domain::wallet::{hash_pubkey, Wallet, Wallets};

const ADDRESS: &str = "171gxwrwaScAon7yY1MjoWwr5SrZgExh5x";

fn fixed_wallet() -> Wallet {
    let public = vec![
        4, 185, 138, 127, 184, 204, 0, 112, 72, 98, 91, 100, 70, 173, 73, 161, 179, 167, 34, 223, 140, 28, 169, 117,
        184, 113, 96, 2, 62, 20, 209, 144, 151, 191, 116, 8, 52, 84, 246, 246, 73, 169, 153, 88, 199, 37, 121, 21, 57,
        45, 174, 226, 17, 151, 13, 169, 36, 160, 7, 180, 133, 214, 119, 14, 34,
    ];
    Wallet::from_parts(vec![0xcd; 32], public).expect("a key pair")
}

fn pubkey_hash() -> Vec<u8> {
    vec![65, 242, 29, 142, 158, 238, 46, 217, 19, 153, 21, 224, 48, 35, 217, 39, 183, 203, 44, 90]
}

fn sha_of_nothing() -> Vec<u8> {
    sha256(&[]).to_vec()
}

fn expected_signature() -> Vec<u8> {
    vec![
        48, 69, 2, 33, 0, 220, 59, 62, 148, 80, 155, 92, 36, 156, 8, 56, 199, 45, 16, 201, 161, 138, 13, 41, 205, 68,
        233, 12, 15, 156, 184, 219, 59, 160, 210, 19, 111, 2, 32, 14, 74, 170, 159, 128, 153, 56, 25, 248, 251, 51,
        114, 253, 113, 175, 249, 38, 132, 175, 253, 162, 171, 209, 146, 22, 24, 16, 239, 150, 106, 235, 127,
    ]
}

fn prev_tx() -> Transaction {
    Transaction {
        id: vec![9, 9],
        vin: vec![],
        vout: vec![TxOutput::new(10, ADDRESS.to_string()), TxOutput::new(4, ADDRESS.to_string())],
    }
}

fn spending_tx(pubkey: Vec<u8>) -> Transaction {
    Transaction {
        id: vec![7],
        vin: vec![TxInput { txid: vec![9, 9], vout: 0, signature: None, pubkey: Some(pubkey) }],
        vout: vec![TxOutput::new(5, ADDRESS.to_string())],
    }
}

#[test]
fn script_coinbase_defaults_its_text() {
    let tx = script::Transaction::new_coinbase_tx("bob".to_string(), String::new());
    assert!(tx.id.is_empty());
    assert_eq!(tx.vin.len(), 1);
    assert!(tx.vin[0].txid.is_empty());
    assert_eq!(tx.vin[0].vout, 0);
    assert_eq!(tx.vin[0].script_sig, "Reward to");
    assert_eq!(tx.vout.len(), 1);
    assert_eq!(tx.vout[0].value, script::COINBASE_REWARD);
    assert_eq!(tx.vout[0].script_pubkey, "bob");
    let tx2 = script::Transaction::new_coinbase_tx("bob".to_string(), "hi".to_string());
    assert_eq!(tx2.vin[0].script_sig, "hi");
}

#[test]
fn script_input_unlocks_with_its_exact_script() {
    let input = script::TxInput::new("key".to_string());
    assert!(input.txid.is_empty());
    assert_eq!(input.vout, 0);
    assert!(input.can_unlock_output_with("key".to_string()));
    assert!(!input.can_unlock_output_with("Key".to_string()));
    assert!(!input.can_unlock_output_with(String::new()));
}

#[test]
fn coinbase_pays_the_subsidy_to_the_address() {
    let tx = Transaction::new_coinbase_tx(ADDRESS.to_string(), String::new());
    assert!(tx.id.is_empty());
    assert!(tx.is_coinbase());
    assert_eq!(tx.vin[0].pubkey, Some(b"Reward to".to_vec()));
    assert_eq!(tx.vin[0].signature, None);
    assert_eq!(tx.vout.len(), 1);
    assert_eq!(tx.vout[0].value, SUBSIDY);
    assert_eq!(tx.vout[0].pubkey_hash, pubkey_hash());
    let tx2 = Transaction::new_coinbase_tx(ADDRESS.to_string(), "ALPHA".to_string());
    assert_eq!(tx2.vin[0].pubkey, Some(b"ALPHA".to_vec()));
}

#[test]
fn try_coinbase_refuses_an_address_that_cannot_lock() {
    assert!(Transaction::try_new_coinbase_tx("0OIl".to_string(), String::new()).is_none());
    assert!(Transaction::try_new_coinbase_tx("11".to_string(), String::new()).is_none());
    assert!(Transaction::try_new_coinbase_tx(ADDRESS.to_string(), String::new()).is_some());
    assert!(TxOutput::try_new(3, "abc".to_string()).is_none());
    assert_eq!(TxOutput::try_new(3, ADDRESS.to_string()).expect("lockable").value, 3);
}

#[test]
fn generation_tx_pays_its_reward() {
    let tx = Transaction::new_generation_tx(ADDRESS.to_string(), 20, "placeholder".to_string());
    assert!(tx.is_coinbase());
    assert_eq!(tx.vout[0].value, 20);
    assert_eq!(tx.vin[0].pubkey, Some(b"placeholder".to_vec()));
}

#[test]
fn is_coinbase_cases() {
    assert!(!prev_tx().is_coinbase());
    assert!(!spending_tx(vec![]).is_coinbase());
    let one_empty = Transaction {
        id: vec![1],
        vin: vec![TxInput { txid: vec![], vout: 0, signature: None, pubkey: None }],
        vout: vec![],
    };
    assert!(one_empty.is_coinbase());
    let wrong_vout = Transaction {
        id: vec![1],
        vin: vec![TxInput { txid: vec![], vout: 1, signature: None, pubkey: None }],
        vout: vec![],
    };
    assert!(!wrong_vout.is_coinbase());
}

#[test]
fn hash_and_serialize_id() {
    let tx = spending_tx(vec![1]);
    assert_eq!(tx.serialize_id(), vec![7]);
    assert_eq!(tx.hash(), sha_of_nothing());
    assert_eq!(prev_tx().hash(), tx.hash());
}

#[test]
fn trimmed_copy_drops_signatures_and_keys() {
    let mut tx = spending_tx(vec![1, 2]);
    tx.vin[0].signature = Some(vec![3]);
    let t = tx.trimmed_copy();
    assert_eq!(t.id, vec![7]);
    assert_eq!(t.vin.len(), 1);
    assert_eq!(t.vin[0].txid, vec![9, 9]);
    assert_eq!(t.vin[0].vout, 0);
    assert_eq!(t.vin[0].signature, None);
    assert_eq!(t.vin[0].pubkey, None);
    assert_eq!(t.vout.len(), 1);
    assert_eq!(t.vout[0].value, 5);
}

#[test]
fn lookup_prev_and_prev_outputs_present() {
    let prevs = vec![prev_tx()];
    assert_eq!(lookup_prev(&prevs, &[9, 9]).expect("found").id, vec![9, 9]);
    assert!(lookup_prev(&prevs, &[9]).is_none());
    assert!(spending_tx(vec![]).prev_outputs_present(&prevs));
    let mut far = spending_tx(vec![]);
    far.vin[0].vout = 2;
    assert!(!far.prev_outputs_present(&prevs));
    assert!(!spending_tx(vec![]).prev_outputs_present(&vec![]));
}

#[test]
fn sign_then_verify() {
    let w = fixed_wallet();
    let prevs = vec![prev_tx()];
    let mut tx = spending_tx(w.public_key.clone());
    assert!(!tx.verify(&prevs));
    tx.sign(&w.private_key, &prevs);
    assert_eq!(tx.vin[0].signature, Some(expected_signature()));
    assert_eq!(tx.vin[0].pubkey, Some(w.public_key.clone()));
    assert_eq!(tx.id, vec![7]);
    assert!(tx.verify(&prevs));
    let mut forged = tx.clone();
    let mut sig = expected_signature();
    sig[10] ^= 1;
    forged.vin[0].signature = Some(sig);
    assert!(!forged.verify(&prevs));
    let mut other_key = tx.clone();
    other_key.vin[0].pubkey = Some(Wallet::new_keypair().1);
    assert!(!other_key.verify(&prevs));
}

#[test]
fn sign_leaves_a_coinbase_alone() {
    let w = fixed_wallet();
    let mut cb = Transaction::new_coinbase_tx(ADDRESS.to_string(), String::new());
    cb.sign(&w.private_key, &vec![]);
    assert_eq!(cb.vin[0].signature, None);
    assert!(cb.verify(&vec![]));
}

#[test]
fn build_payment_with_change() {
    let valid = vec![("0909".to_string(), vec![0u8, 1])];
    let tx = Transaction::build_payment(ADDRESS, ADDRESS.to_string(), 10, 15, &valid, vec![7]).ok().expect("payment");
    assert_eq!(tx.id, sha_of_nothing());
    assert_eq!(tx.vin.len(), 2);
    assert_eq!(tx.vin[0].txid, vec![9, 9]);
    assert_eq!(tx.vin[0].vout, 0);
    assert_eq!(tx.vin[1].vout, 1);
    assert_eq!(tx.vin[1].pubkey, Some(vec![7]));
    assert_eq!(tx.vin[1].signature, None);
    assert_eq!(tx.vout.len(), 2);
    assert_eq!(tx.vout[0].value, 10);
    assert_eq!(tx.vout[1].value, 5);
    assert_eq!(tx.vout[1].pubkey_hash, pubkey_hash());
}

#[test]
fn build_payment_exact_amount_has_no_change() {
    let tx = Transaction::build_payment(ADDRESS, ADDRESS.to_string(), 10, 10, &vec![], vec![]).ok().expect("payment");
    assert!(tx.vin.is_empty());
    assert_eq!(tx.vout.len(), 1);
}

#[test]
fn build_payment_errors() {
    let r = Transaction::build_payment(ADDRESS, ADDRESS.to_string(), 10, 5, &vec![], vec![]);
    assert!(matches!(r, Err(TxError::NotEnoughFunds)));
    let bad = vec![("zz".to_string(), vec![0u8])];
    let r = Transaction::build_payment(ADDRESS, ADDRESS.to_string(), 1, 5, &bad, vec![]);
    assert!(matches!(r, Err(TxError::InvalidTxId)));
    let r = Transaction::build_payment(ADDRESS, ADDRESS.to_string(), 1, 1u64 << 33, &vec![], vec![]);
    assert!(matches!(r, Err(TxError::ChangeTooLarge)));
}

#[test]
fn new_utxo_transaction_outcomes() {
    let mut wallets = Wallets::empty();
    let mut utxo: ByteMap<TxOutputs> = ByteMap::new();
    utxo.insert(
        vec![9, 9],
        TxOutputs {
            outputs: vec![
                (0, TxOutput { value: 10, pubkey_hash: pubkey_hash() }),
                (1, TxOutput { value: 4, pubkey_hash: vec![1; 20] }),
            ],
        },
    );
    utxo.insert(vec![8], TxOutputs { outputs: vec![(3, TxOutput { value: 7, pubkey_hash: pubkey_hash() })] });
    let r = Transaction::new_utxo_transaction(ADDRESS, ADDRESS.to_string(), 1, &wallets, &utxo);
    assert!(matches!(r, Err(TxError::WalletNotFound)));
    let w = fixed_wallet();
    wallets.insert(ADDRESS.to_string(), w.clone());
    let tx = Transaction::new_utxo_transaction(ADDRESS, ADDRESS.to_string(), 5, &wallets, &utxo).ok().expect("funded");
    assert_eq!(tx.vin.len(), 1);
    assert_eq!(tx.vin[0].txid, vec![9, 9]);
    assert_eq!(tx.vin[0].vout, 0);
    assert_eq!(tx.vin[0].pubkey, Some(w.public_key.clone()));
    assert_eq!(tx.vout.len(), 2);
    assert_eq!(tx.vout[0].value, 5);
    assert_eq!(tx.vout[1].value, 5);
    assert_eq!(tx.vout[1].pubkey_hash, hash_pubkey(w.public_key.clone()));
    assert_eq!(tx.id, sha_of_nothing());
    let tx = Transaction::new_utxo_transaction(ADDRESS, ADDRESS.to_string(), 17, &wallets, &utxo).ok().expect("funded");
    assert_eq!(tx.vin.len(), 2);
    assert_eq!(tx.vin[1].txid, vec![8]);
    assert_eq!(tx.vin[1].vout, 3);
    assert_eq!(tx.vout.len(), 1);
    assert_eq!(tx.vout[0].value, 17);
    let r = Transaction::new_utxo_transaction(ADDRESS, ADDRESS.to_string(), 18, &wallets, &utxo);
    assert!(matches!(r, Err(TxError::NotEnoughFunds)));
    assert!(Transaction::try_new_utxo_transaction(ADDRESS, "bad0".to_string(), 0, &wallets, &utxo).is_none());
    assert!(Transaction::try_new_utxo_transaction("bad0", ADDRESS.to_string(), 0, &wallets, &utxo).is_none());
    assert!(Transaction::try_new_utxo_transaction(ADDRESS, ADDRESS.to_string(), 5, &wallets, &utxo).is_some());
}
