use blockchain::crypto::{bs58_decode, bs58_encode, hex_decode, hex_encode, ripemd160, sha256};
use blockchain::domain::transaction::output::{check_address, TxOutput};
use blockchain::domain::wallet::{checksum, hash_pubkey, Wallet, Wallets, ADDRESS_CHECKSUM_LEN, VERSION};

const ADDRESS: &str = "171gxwrwaScAon7yY1MjoWwr5SrZgExh5x";

fn expected_public_key() -> Vec<u8> {
    vec![
        4, 185, 138, 127, 184, 204, 0, 112, 72, 98, 91, 100, 70, 173, 73, 161, 179, 167, 34, 223, 140, 28, 169, 117,
        184, 113, 96, 2, 62, 20, 209, 144, 151, 191, 116, 8, 52, 84, 246, 246, 73, 169, 153, 88, 199, 37, 121, 21, 57,
        45, 174, 226, 17, 151, 13, 169, 36, 160, 7, 180, 133, 214, 119, 14, 34,
    ]
}

fn fixed_wallet() -> Wallet {
    Wallet::from_parts(vec![0xcd; 32], expected_public_key()).expect("a key pair")
}

fn expected_pubkey_hash() -> Vec<u8> {
    vec![65, 242, 29, 142, 158, 238, 46, 217, 19, 153, 21, 224, 48, 35, 217, 39, 183, 203, 44, 90]
}

#[test]
fn wallet_new_uses_the_fixed_secret() {
    let w = Wallet::new();
    assert_eq!(w.private_key, vec![0xcd; 32]);
    assert_eq!(w.public_key, expected_public_key());
}

#[test]
fn hash_pubkey_is_ripemd160_of_sha256() {
    let h = hash_pubkey(expected_public_key());
    assert_eq!(h, expected_pubkey_hash());
    assert_eq!(h, ripemd160(&sha256(&expected_public_key())).to_vec());
}

#[test]
fn checksum_is_four_bytes_of_double_sha256() {
    let mut versioned = vec![VERSION];
    versioned.extend_from_slice(&expected_pubkey_hash());
    let c = checksum(versioned);
    assert_eq!(ADDRESS_CHECKSUM_LEN, 4);
    assert_eq!(c, vec![81, 7, 178, 7]);
}

#[test]
fn get_address_is_base58check_of_the_key_hash() {
    let w = fixed_wallet();
    let address = w.get_address();
    assert_eq!(address, ADDRESS.as_bytes().to_vec());
    let decoded = bs58_decode(&address).expect("valid base58");
    assert_eq!(decoded.len(), 25);
    assert_eq!(decoded[0], VERSION);
    assert_eq!(decoded[1..21].to_vec(), expected_pubkey_hash());
}

#[test]
fn an_output_locked_to_a_wallet_address_is_locked_with_its_key_hash() {
    let w = Wallet::new();
    let address = String::from_utf8(w.get_address()).unwrap();
    assert!(check_address(&address));
    let out = TxOutput::new(10, address);
    assert!(out.is_locked_with_key(hash_pubkey(w.public_key.clone())));
    assert!(!out.is_locked_with_key(vec![0; 20]));
}

#[test]
fn new_keypair_gives_a_p256_key_pair() {
    let (secret, public) = Wallet::new_keypair();
    assert_eq!(secret.len(), 32);
    assert_eq!(public.len(), 65);
    assert_eq!(public[0], 4);
    let (secret2, _) = Wallet::new_keypair();
    assert_ne!(secret, secret2);
}

#[test]
fn wallets_create_then_get() {
    let mut ws = Wallets::empty();
    assert!(ws.get_addresses().is_empty());
    assert!(ws.get_wallet(ADDRESS).is_none());
    let address = ws.create_wallet();
    assert_eq!(address, ADDRESS);
    let w = ws.get_wallet(&address).expect("wallet was created");
    assert_eq!(w.private_key, vec![0xcd; 32]);
    assert_eq!(w.public_key, expected_public_key());
    assert_eq!(ws.get_addresses(), vec![ADDRESS.to_string()]);
    let again = ws.create_wallet();
    assert_eq!(again, ADDRESS);
    assert_eq!(ws.get_addresses().len(), 1);
}

#[test]
fn wallets_insert_then_get_the_fixed_wallet() {
    let mut ws = Wallets::empty();
    ws.insert(ADDRESS.to_string(), fixed_wallet());
    let w = ws.get_wallet(ADDRESS).expect("inserted");
    assert_eq!(w.private_key, vec![0xcd; 32]);
    assert_eq!(w.public_key, expected_public_key());
}

#[test]
fn wallets_insert_replaces() {
    let mut ws = Wallets::empty();
    ws.insert("a".to_string(), Wallet::new());
    ws.insert("b".to_string(), Wallet::new());
    ws.insert("a".to_string(), Wallet::new());
    let mut addrs = ws.get_addresses();
    addrs.sort();
    assert_eq!(addrs, vec!["a".to_string(), "b".to_string()]);
}

#[test]
fn base58_and_hex_codecs() {
    assert_eq!(bs58_encode(&[0, 0, 1]), b"112".to_vec());
    assert_eq!(bs58_decode(b"112"), Some(vec![0, 0, 1]));
    assert_eq!(bs58_decode(b"0OIl"), None);
    assert_eq!(hex_encode(&[0x09, 0xab]), "09ab");
    assert_eq!(hex_decode(b"09AB"), Some(vec![0x09, 0xab]));
    assert_eq!(hex_decode(b"0"), None);
    assert_eq!(hex_decode(b"zz"), None);
}

#[test]
fn from_parts_accepts_only_a_matching_key_pair() {
    let w = Wallet::from_parts(vec![0xcd; 32], expected_public_key()).expect("a key pair");
    assert_eq!(w.public_key, expected_public_key());
    assert!(Wallet::from_parts(vec![0xcd; 32], vec![4; 65]).is_none());
    assert!(Wallet::from_parts(vec![0; 32], expected_public_key()).is_none());
    assert!(Wallet::from_parts(vec![0xff; 32], expected_public_key()).is_none());
    assert!(Wallet::from_parts(vec![0xcd; 31], expected_public_key()).is_none());
}

#[test]
fn secret_key_validity() {
    assert!(blockchain::crypto::secp256k1_secret_key_is_valid(&[0xcd; 32]));
    assert!(!blockchain::crypto::secp256k1_secret_key_is_valid(&[0; 32]));
}

#[test]
fn clock_is_after_2020() {
    assert!(blockchain::crypto::unix_time_secs().expect("after 1970") > 1_577_836_800);
}
