//! Wallets: key pairs and the Base58Check addresses derived from them.

use vstd::prelude::*;
use crate::crypto::{
    sha256, sha256_of, ripemd160, ripemd160_of, bs58_encode, bs58_encoding_of, is_base58_byte, be_value, is_secret_key, secp256k1_order, secp256k1_public_key, secp256k1_public_key_of,
    secp256k1_secret_key_is_valid,
    p256_random_keypair, p256_public_key_of, string_from_ascii,
};
use crate::domain::transaction::input::copy_bytes;
use crate::domain::transaction::output::{is_lockable_address, address_pubkey_hash, text_bytes, bytes_equal};
use vstd::utf8::{encode_utf8, is_ascii_chars, is_ascii_chars_encode_utf8};
use crate::domain::proof_of_work::extend_bytes;
use crate::domain::byte_map::{entries_map, distinct_keys, lemma_entries_map_entry, lemma_entries_map_update, lemma_entries_map_push};

verus! {

/// The version byte at the front of an address payload.
pub const VERSION: u8 = 0x00;

/// The number of checksum bytes at the end of an address payload.
pub const ADDRESS_CHECKSUM_LEN: usize = 4;

/// A secp256k1 key pair: the 32 secret bytes and the 65-byte uncompressed
/// serialization of the public key.
pub struct Wallet {
    pub private_key: Vec<u8>,
    pub public_key: Vec<u8>,
}

/// The mathematical value of a [`Wallet`].
pub struct WalletModel {
    pub private_key: Seq<u8>,
    pub public_key: Seq<u8>,
}

impl View for Wallet {
    type V = WalletModel;

    open spec fn view(&self) -> WalletModel {
        WalletModel { private_key: self.private_key@, public_key: self.public_key@ }
    }
}

/// A wallet whose secret key is valid and whose public key belongs to it.
pub open spec fn is_key_pair(w: WalletModel) -> bool {
    is_secret_key(w.private_key) && w.public_key == secp256k1_public_key_of(w.private_key)
}

/// The hash of a public key: RIPEMD-160 of its SHA-256.
pub open spec fn pubkey_hash_of(pubkey: Seq<u8>) -> Seq<u8> {
    ripemd160_of(sha256_of(pubkey))
}

/// The checksum of a payload: the first four bytes of its double SHA-256.
pub open spec fn checksum_of(payload: Seq<u8>) -> Seq<u8> {
    sha256_of(sha256_of(payload)).take(ADDRESS_CHECKSUM_LEN as int)
}

/// The address payload of a public key: the version byte, the key's hash,
/// and the checksum of both.
pub open spec fn address_payload(pubkey: Seq<u8>) -> Seq<u8> {
    let versioned = seq![VERSION] + pubkey_hash_of(pubkey);
    versioned + checksum_of(versioned)
}

/// The address of a public key: the Base58 text of its payload.
pub open spec fn address_of(pubkey: Seq<u8>) -> Seq<u8> {
    bs58_encoding_of(address_payload(pubkey))
}

/// The secret bytes every new wallet is given.
pub open spec fn fixed_secret() -> Seq<u8> {
    Seq::new(32, |i: int| 0xcdu8)
}

/// The fixed secret is a valid secp256k1 secret key.
proof fn lemma_fixed_secret_is_valid()
    ensures
        is_secret_key(fixed_secret()),
{
    let s = fixed_secret();
    reveal_with_fuel(be_value, 33);
    assert(be_value(s) > 0);
    assert(be_value(s) < secp256k1_order());
}

/// The wallet every call of [`Wallet::new`] gives.
pub open spec fn created_wallet() -> WalletModel {
    WalletModel { private_key: fixed_secret(), public_key: secp256k1_public_key_of(fixed_secret()) }
}

impl Wallet {
    /// A wallet with the fixed secret key (32 bytes of 0xcd) and its public key.
    pub fn new() -> (w: Self)
        ensures
            w@ == created_wallet(),
            is_key_pair(w@),
    {
        let secret_key: Vec<u8> = vec![0xcdu8; 32];
        assert(secret_key@ =~= fixed_secret());
        proof {
            lemma_fixed_secret_is_valid();
        }
        let public_key = secp256k1_public_key(secret_key.as_slice());
        Wallet { private_key: secret_key, public_key: vstd::slice::slice_to_vec(public_key.as_slice()) }
    }

    /// The wallet of a stored key pair: `None` unless the secret key is
    /// valid and the public key is the one that belongs to it.
    pub fn from_parts(private_key: Vec<u8>, public_key: Vec<u8>) -> (w: Option<Self>)
        ensures
            match w {
                Some(w) => w@ == (WalletModel { private_key: private_key@, public_key: public_key@ }) && is_key_pair(w@),
                None => !is_key_pair(WalletModel { private_key: private_key@, public_key: public_key@ }),
            },
    {
        if !secp256k1_secret_key_is_valid(private_key.as_slice()) {
            return None;
        }
        let derived = secp256k1_public_key(private_key.as_slice());
        if bytes_equal(derived.as_slice(), public_key.as_slice()) {
            Some(Wallet { private_key, public_key })
        } else {
            None
        }
    }

    /// A fresh random P-256 key pair: its 32 secret bytes and the 65-byte
    /// uncompressed encoding of its public key.
    pub fn new_keypair() -> (pair: (Vec<u8>, Vec<u8>))
        ensures
            pair.0@.len() == 32,
            pair.1@.len() == 65,
            pair.1@[0] == 4,
            pair.1@ == p256_public_key_of(pair.0@),
    {
        p256_random_keypair()
    }

    /// The wallet's address: the Base58 text of the version byte, the public
    /// key's hash and their checksum. The address can lock an output, and
    /// the public key hash it carries is that of the wallet's public key.
    pub fn get_address(&self) -> (address: Vec<u8>)
        ensures
            address@ == address_of(self.public_key@),
            is_lockable_address(address@),
            address_pubkey_hash(address@) == pubkey_hash_of(self.public_key@),
            forall|i: int| 0 <= i < address@.len() ==> is_base58_byte(#[trigger] address@[i]),
    {
        let pub_key_bytes = copy_bytes(&self.public_key);
        let pub_key_hash = hash_pubkey(pub_key_bytes);
        let mut versioned_payload: Vec<u8> = vec![VERSION];
        extend_bytes(&mut versioned_payload, pub_key_hash.as_slice());
        let ghost versioned = seq![VERSION] + pubkey_hash_of(self.public_key@);
        assert(versioned_payload@ =~= versioned);
        let checksum = checksum(copy_bytes(&versioned_payload));
        let mut full_payload = versioned_payload;
        extend_bytes(&mut full_payload, checksum.as_slice());
        assert(full_payload@ =~= address_payload(self.public_key@));
        let address = bs58_encode(full_payload.as_slice());
        assert(address_payload(self.public_key@).subrange(1, 21) =~= pubkey_hash_of(self.public_key@));
        address
    }
}

/// The hash of a public key (see [`pubkey_hash_of`]); it is 20 bytes long.
pub fn hash_pubkey(pubkey: Vec<u8>) -> (h: Vec<u8>)
    ensures
        h@ == pubkey_hash_of(pubkey@),
        h@.len() == 20,
{
    let public_sha256 = sha256(pubkey.as_slice());
    let public_ripemd160 = ripemd160(public_sha256.as_slice());
    vstd::slice::slice_to_vec(public_ripemd160.as_slice())
}

/// The checksum of a payload (see [`checksum_of`]); it is four bytes long.
pub fn checksum(payload: Vec<u8>) -> (c: Vec<u8>)
    ensures
        c@ == checksum_of(payload@),
        c@.len() == ADDRESS_CHECKSUM_LEN,
{
    let first_sha = sha256(payload.as_slice());
    let second_sha = sha256(first_sha.as_slice());
    let part = vstd::slice::slice_subrange(second_sha.as_slice(), 0, ADDRESS_CHECKSUM_LEN);
    vstd::slice::slice_to_vec(part)
}

impl Clone for Wallet {
    fn clone(&self) -> (r: Self)
        ensures
            r@ == self@,
    {
        Wallet { private_key: copy_bytes(&self.private_key), public_key: copy_bytes(&self.public_key) }
    }
}

/// The wallets of a user, by address.
pub struct Wallets {
    wallets: Vec<(String, Wallet)>,
}

/// The text of an address made of Base58 bytes.
pub open spec fn address_text(address: Seq<u8>) -> Seq<char> {
    Seq::new(address.len(), |i: int| address[i] as char)
}

/// The UTF-8 bytes of the text of a Base58 address are the address itself.
proof fn lemma_address_text_bytes(address: Seq<u8>)
    requires
        forall|i: int| 0 <= i < address.len() ==> is_base58_byte(#[trigger] address[i]),
    ensures
        text_bytes(address_text(address)) == address,
{
    let t = address_text(address);
    assert(is_ascii_chars(t)) by {
        assert forall|i: int| 0 <= i < t.len() implies '\0' <= #[trigger] t[i] <= '\u{7f}' by {
            assert(is_base58_byte(address[i]));
        }
    }
    is_ascii_chars_encode_utf8(t);
    assert forall|i: int| 0 <= i < address.len() implies #[trigger] text_bytes(t)[i] == address[i] by {
        assert(t[i] as u8 == encode_utf8(t)[i]);
        let b = address[i];
        assert((b as char) as u8 == b);
    }
    assert(text_bytes(t) =~= address);
}

impl Wallets {
    /// The entries, in the order they were first added.
    pub closed spec fn entries(&self) -> Seq<(Seq<char>, WalletModel)> {
        self.wallets@.map_values(|e: (String, Wallet)| (e.0@, e.1@))
    }

    /// The wallets by address.
    pub open spec fn view(&self) -> Map<Seq<char>, WalletModel> {
        entries_map(self.entries())
    }

    /// No address occurs twice, and every wallet holds a valid key pair.
    pub closed spec fn wf(&self) -> bool {
        &&& distinct_keys(self.entries())
        &&& forall|i: int| 0 <= i < self.entries().len() ==> is_key_pair(#[trigger] self.entries()[i].1)
    }

    /// No wallets.
    pub fn empty() -> (ws: Self)
        ensures
            ws.wf(),
            ws.view() == Map::<Seq<char>, WalletModel>::empty(),
    {
        let ws = Wallets { wallets: Vec::new() };
        assert(ws.view() =~= Map::<Seq<char>, WalletModel>::empty());
        ws
    }

    /// Every wallet in the view holds a valid key pair.
    pub proof fn lemma_key_pairs(&self, a: Seq<char>)
        requires
            self.wf(),
            self.view().dom().contains(a),
        ensures
            is_key_pair(self.view()[a]),
    {
        let j = choose|j: int| 0 <= j < self.entries().len() && #[trigger] self.entries()[j].0 == a;
        lemma_entries_map_entry(self.entries(), j);
    }

    /// The position of `address` among the entries.
    fn find_index(&self, address: &String) -> (idx: Option<usize>)
        ensures
            match idx {
                Some(i) => i < self.entries().len() && self.entries()[i as int].0 == address@,
                None => forall|i: int| 0 <= i < self.entries().len() ==> #[trigger] self.entries()[i].0 != address@,
            },
    {
        let mut i: usize = 0;
        while i < self.wallets.len()
            invariant
                i <= self.wallets@.len(),
                forall|j: int| 0 <= j < i ==> #[trigger] self.entries()[j].0 != address@,
            decreases self.wallets@.len() - i,
        {
            if self.wallets[i].0 == *address {
                return Some(i);
            }
            i = i + 1;
        }
        None
    }

    /// Adds `wallet` under `address`, replacing any wallet the address had.
    pub fn insert(&mut self, address: String, wallet: Wallet)
        requires
            old(self).wf(),
            is_key_pair(wallet@),
        ensures
            final(self).wf(),
            final(self).view() == old(self).view().insert(address@, wallet@),
    {
        let ghost a = address@;
        let ghost w = wallet@;
        let ghost old_e = self.entries();
        match self.find_index(&address) {
            Some(i) => {
                self.wallets.set(i, (address, wallet));
                assert(self.entries() =~= old_e.update(i as int, (a, w)));
                proof {
                    lemma_entries_map_update(old_e, i as int, w);
                }
            },
            None => {
                self.wallets.push((address, wallet));
                assert(self.entries() =~= old_e.push((a, w)));
                proof {
                    if entries_map(old_e).dom().contains(a) {
                        let j = choose|j: int| 0 <= j < old_e.len() && #[trigger] old_e[j].0 == a;
                    }
                    lemma_entries_map_push(old_e, a, w);
                }
            },
        }
    }

    /// Creates a wallet with [`Wallet::new`] (the fixed key), adds it under
    /// its address, and returns the address. The address is the one of the
    /// wallet's public key, it can lock an output, and it carries the hash of
    /// that key; calling this again adds the same wallet under the same address.
    pub fn create_wallet(&mut self) -> (address: String)
        requires
            old(self).wf(),
        ensures
            final(self).wf(),
            is_created_wallet(created_wallet(), address@),
            final(self).view() == old(self).view().insert(address@, created_wallet()),
    {
        let wallet = Wallet::new();
        let address = wallet.get_address();
        let stringified_address = string_from_ascii(address.as_slice());
        assert(stringified_address@ =~= address_text(address@));
        proof {
            lemma_address_text_bytes(address@);
        }
        let ghost w = wallet@;
        self.insert(stringified_address.clone(), wallet);
        assert(is_created_wallet(w, stringified_address@));
        stringified_address
    }

    /// The addresses of the wallets, each once.
    pub fn get_addresses(&self) -> (addresses: Vec<String>)
        requires
            self.wf(),
        ensures
            forall|i: int| 0 <= i < addresses@.len() ==> self.view().dom().contains(#[trigger] addresses@[i]@),
            forall|a: Seq<char>| self.view().dom().contains(a) ==> exists|i: int| 0 <= i < addresses@.len() && #[trigger] addresses@[i]@ == a,
            forall|i: int, j: int| 0 <= i < j < addresses@.len() ==> #[trigger] addresses@[i]@ != #[trigger] addresses@[j]@,
    {
        let mut addresses: Vec<String> = Vec::new();
        let mut i: usize = 0;
        while i < self.wallets.len()
            invariant
                self.wf(),
                i <= self.wallets@.len(),
                addresses@.len() == i,
                forall|j: int| 0 <= j < i ==> (#[trigger] addresses@[j])@ == self.entries()[j].0,
            decreases self.wallets@.len() - i,
        {
            addresses.push(self.wallets[i].0.clone());
            i = i + 1;
        }
        proof {
            assert forall|k: int| 0 <= k < addresses@.len() implies self.view().dom().contains(#[trigger] addresses@[k]@) by {
                lemma_entries_map_entry(self.entries(), k);
            }
            assert forall|a: Seq<char>| self.view().dom().contains(a) implies exists|k: int| 0 <= k < addresses@.len() && #[trigger] addresses@[k]@ == a by {
                let j = choose|j: int| 0 <= j < self.entries().len() && #[trigger] self.entries()[j].0 == a;
                assert(addresses@[j]@ == a);
            }
        }
        addresses
    }

    /// A copy of the wallet of `address`, if there is one.
    pub fn get_wallet(&self, address: &str) -> (w: Option<Wallet>)
        requires
            self.wf(),
        ensures
            match w {
                Some(w) => self.view().dom().contains(address@) && w@ == self.view()[address@],
                None => !self.view().dom().contains(address@),
            },
    {
        let key = address.to_owned();
        match self.find_index(&key) {
            Some(i) => {
                proof {
                    lemma_entries_map_entry(self.entries(), i as int);
                }
                Some(self.wallets[i].1.clone())
            },
            None => {
                assert(!self.view().dom().contains(address@));
                None
            },
        }
    }
}


/// Whether `w` is a wallet that [`Wallets::create_wallet`] may add under
/// `address`: a valid key pair whose address is `address`, an address that can
/// lock an output and that carries the hash of the wallet's public key.
pub open spec fn is_created_wallet(w: WalletModel, address: Seq<char>) -> bool {
    &&& is_key_pair(w)
    &&& address == address_text(address_of(w.public_key))
    &&& is_lockable_address(text_bytes(address))
    &&& address_pubkey_hash(text_bytes(address)) == pubkey_hash_of(w.public_key)
}

/// A created wallet is found again: after [`Wallets::create_wallet`] has
/// added a wallet under an address, [`Wallets::get_wallet`] on that address
/// gives that wallet, and every other address keeps its wallet.
pub proof fn lemma_created_wallet_found(
    before: Map<Seq<char>, WalletModel>,
    w: WalletModel,
    address: Seq<char>,
    other: Seq<char>,
)
    requires
        is_created_wallet(w, address),
        other != address,
    ensures
        before.insert(address, w).dom().contains(address),
        before.insert(address, w)[address] == w,
        before.insert(address, w).dom().contains(other) == before.dom().contains(other),
        before.dom().contains(other) ==> before.insert(address, w)[other] == before[other],
{
}

} // verus!

