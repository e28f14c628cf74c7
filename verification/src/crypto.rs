//! Hashing, encoding and signing primitives, taken from outside crates.
//!
//! Every function here makes one outside call; its contract states what the
//! outside crate computes, either directly or through a named result.

use vstd::prelude::*;
use vstd::arithmetic::power2::pow2;
use sha2::Digest;

verus! {

/// The SHA-256 digest of `data`, as computed by the `sha2` crate.
pub uninterp spec fn sha256_of(data: Seq<u8>) -> Seq<u8>;

/// The natural number whose big-endian base-256 digits are `bytes`.
pub open spec fn be_value(bytes: Seq<u8>) -> nat
    decreases bytes.len(),
{
    if bytes.len() == 0 {
        0
    } else {
        be_value(bytes.drop_last()) * 256 + bytes.last() as nat
    }
}

/// Calls `sha2::Sha256::digest`; the 32-byte result is the named SHA-256 of the input.
#[verifier::external_body]
pub fn sha256(data: &[u8]) -> (digest: [u8; 32])
    ensures
        digest@ == sha256_of(data@),
{
    sha2::Sha256::digest(data).into()
}

/// Calls `num_bigint::BigInt::from_bytes_be` with a positive sign on both
/// inputs and compares them with `<`: the result says whether the big-endian
/// number `a` is below the big-endian number `b`.
#[verifier::external_body]
pub fn be_less_than(a: &[u8], b: &[u8]) -> (lt: bool)
    ensures
        lt == (be_value(a@) < be_value(b@)),
{
    let x = num_bigint::BigInt::from_bytes_be(num_bigint::Sign::Plus, a);
    let y = num_bigint::BigInt::from_bytes_be(num_bigint::Sign::Plus, b);
    x < y
}

/// Calls `num_bigint::BigInt::to_bytes_be` on `BigInt::from(1) << shift`: the
/// big-endian bytes of two to the power `shift`.
#[verifier::external_body]
pub fn pow2_be_bytes(shift: u16) -> (bytes: Vec<u8>)
    ensures
        be_value(bytes@) == pow2(shift as nat),
{
    let one = num_bigint::BigInt::from(1u8);
    (one << shift).to_bytes_be().1
}


/// The RIPEMD-160 digest of `data`, as computed by the `ripemd` crate.
pub uninterp spec fn ripemd160_of(data: Seq<u8>) -> Seq<u8>;

/// Calls `ripemd::Ripemd160::digest`; the 20-byte result is the named RIPEMD-160 of the input.
#[verifier::external_body]
pub fn ripemd160(data: &[u8]) -> (digest: [u8; 20])
    ensures
        digest@ == ripemd160_of(data@),
{
    ripemd::Ripemd160::digest(data).into()
}

/// The characters of the Bitcoin Base58 alphabet, as bytes.
pub open spec fn is_base58_byte(b: u8) -> bool {
    (49 <= b <= 57) || (65 <= b <= 90 && b != 73 && b != 79) || (97 <= b <= 122 && b != 108)
}

/// The Base58 text (Bitcoin alphabet) that the `bs58` crate produces for `data`.
pub uninterp spec fn bs58_encoding_of(data: Seq<u8>) -> Seq<u8>;

/// What the `bs58` crate decodes `text` to (Bitcoin alphabet), `None` where it refuses it.
pub uninterp spec fn bs58_decoding_of(text: Seq<u8>) -> Option<Seq<u8>>;

/// Calls `bs58::encode(..).into_vec()`. The result is the named Base58 text of
/// the input; every byte of it is a character of the Base58 alphabet, and the
/// `bs58` decoder gives the input back from it (the crate is a codec: leading
/// zero bytes become leading `1`s and the rest is the base-58 digits of the
/// number, which decoding reverses).
#[verifier::external_body]
pub fn bs58_encode(data: &[u8]) -> (text: Vec<u8>)
    ensures
        text@ == bs58_encoding_of(data@),
        bs58_decoding_of(text@) == Some(data@),
        forall|i: int| 0 <= i < text@.len() ==> is_base58_byte(#[trigger] text@[i]),
{
    bs58::encode(data).into_vec()
}

/// Calls `bs58::decode(..).into_vec()`; an error becomes `None`.
#[verifier::external_body]
pub fn bs58_decode(text: &[u8]) -> (data: Option<Vec<u8>>)
    ensures
        match data {
            Some(d) => bs58_decoding_of(text@) == Some(d@),
            None => bs58_decoding_of(text@) is None,
        },
{
    bs58::decode(text).into_vec().ok()
}

/// The lower-case hexadecimal digit for a value below 16.
pub open spec fn hex_digit(v: int) -> char {
    if v < 10 {
        (48 + v) as char
    } else {
        (87 + v) as char
    }
}

/// The lower-case hexadecimal text of `data`: two digits per byte, high nibble first.
pub open spec fn hex_text(data: Seq<u8>) -> Seq<char> {
    Seq::new(
        2 * data.len(),
        |i: int|
            if i % 2 == 0 {
                hex_digit((data[i / 2] / 16) as int)
            } else {
                hex_digit((data[i / 2] % 16) as int)
            },
    )
}

/// The value of one hexadecimal digit, upper or lower case.
pub open spec fn hex_value(c: u8) -> Option<u8> {
    if 48 <= c <= 57 {
        Some((c - 48) as u8)
    } else if 65 <= c <= 70 {
        Some((c - 55) as u8)
    } else if 97 <= c <= 102 {
        Some((c - 87) as u8)
    } else {
        None
    }
}

/// What `hex::decode` gives for `text`: `None` for odd length or a non-digit.
pub open spec fn hex_decoding_of(text: Seq<u8>) -> Option<Seq<u8>> {
    if text.len() % 2 != 0 {
        None
    } else if exists|i: int| 0 <= i < text.len() && #[trigger] hex_value(text[i]) is None {
        None
    } else {
        Some(
            Seq::new(
                text.len() / 2,
                |i: int| (hex_value(text[2 * i]).unwrap() * 16 + hex_value(text[2 * i + 1]).unwrap()) as u8,
            ),
        )
    }
}

/// A byte's hexadecimal digit, read back, gives the digit's value.
proof fn lemma_hex_digit_value(v: int)
    requires
        0 <= v < 16,
    ensures
        hex_digit(v) as u32 <= 0x7f,
        hex_value(hex_digit(v) as u8) == Some(v as u8),
{
}

/// Decoding the hexadecimal text of some bytes gives the bytes back.
pub proof fn lemma_hex_roundtrip(data: Seq<u8>)
    ensures
        hex_decoding_of(vstd::utf8::encode_utf8(hex_text(data))) == Some(data),
{
    let t = hex_text(data);
    assert forall|i: int| 0 <= i < t.len() implies '\0' <= #[trigger] t[i] <= '\u{7f}' by {
        lemma_hex_digit_value((data[i / 2] / 16) as int);
        lemma_hex_digit_value((data[i / 2] % 16) as int);
    }
    vstd::utf8::is_ascii_chars_encode_utf8(t);
    let b = vstd::utf8::encode_utf8(t);
    assert forall|i: int| 0 <= i < b.len() implies #[trigger] hex_value(b[i]) is Some by {
        assert(t[i] as u8 == b[i]);
        lemma_hex_digit_value((data[i / 2] / 16) as int);
        lemma_hex_digit_value((data[i / 2] % 16) as int);
    }
    assert(b.len() % 2 == 0);
    let r = Seq::new(
        b.len() / 2,
        |i: int| (hex_value(b[2 * i]).unwrap() * 16 + hex_value(b[2 * i + 1]).unwrap()) as u8,
    );
    assert forall|i: int| 0 <= i < data.len() implies r[i] == data[i] by {
        assert(t[2 * i] as u8 == b[2 * i]);
        assert(t[2 * i + 1] as u8 == b[2 * i + 1]);
        assert((2 * i) / 2 == i);
        assert((2 * i + 1) / 2 == i);
        lemma_hex_digit_value((data[i] / 16) as int);
        lemma_hex_digit_value((data[i] % 16) as int);
        assert(data[i] / 16 * 16 + data[i] % 16 == data[i]);
    }
    assert(r =~= data);
}

/// Calls `hex::encode`: two lower-case digits per byte.
#[verifier::external_body]
pub fn hex_encode(data: &[u8]) -> (text: String)
    ensures
        text@ == hex_text(data@),
{
    hex::encode(data)
}

/// Calls `hex::decode`; an error becomes `None`.
#[verifier::external_body]
pub fn hex_decode(text: &[u8]) -> (data: Option<Vec<u8>>)
    ensures
        match data {
            Some(d) => hex_decoding_of(text@) == Some(d@),
            None => hex_decoding_of(text@) is None,
        },
{
    hex::decode(text).ok()
}

/// The order of the secp256k1 group.
pub open spec fn secp256k1_order() -> nat {
    0xFFFFFFFFFFFFFFFFFFFFFFFFFFFFFFFEBAAEDCE6AF48A03BBFD25E8CD0364141nat
}

/// A secp256k1 secret key: 32 bytes whose big-endian value lies strictly
/// between zero and the group order.
pub open spec fn is_secret_key(sk: Seq<u8>) -> bool {
    sk.len() == 32 && 0 < be_value(sk) < secp256k1_order()
}

/// The 65-byte uncompressed SEC1 serialization of the public key of `sk`.
pub uninterp spec fn secp256k1_public_key_of(sk: Seq<u8>) -> Seq<u8>;

/// The DER serialization of the deterministic (RFC 6979) ECDSA signature of
/// the 32-byte `digest` under the secret key `sk`.
pub uninterp spec fn ecdsa_signature_of(digest: Seq<u8>, sk: Seq<u8>) -> Seq<u8>;

/// Whether `sig` parses as a DER signature, `pubkey` parses as a SEC1 public
/// key, and the signature verifies for the 32-byte `digest` under that key.
pub uninterp spec fn ecdsa_verifies(digest: Seq<u8>, sig: Seq<u8>, pubkey: Seq<u8>) -> bool;

/// Calls `secp256k1::SecretKey::from_slice`: it accepts exactly 32 bytes whose
/// value is non-zero and below the group order.
#[verifier::external_body]
pub fn secp256k1_secret_key_is_valid(sk: &[u8]) -> (valid: bool)
    ensures
        valid == is_secret_key(sk@),
{
    secp256k1::SecretKey::from_slice(sk).is_ok()
}

/// Calls `secp256k1::PublicKey::from_secret_key` and `serialize_uncompressed`.
#[verifier::external_body]
pub fn secp256k1_public_key(sk: &[u8]) -> (pk: [u8; 65])
    requires
        is_secret_key(sk@),
    ensures
        pk@ == secp256k1_public_key_of(sk@),
{
    let secp = secp256k1::Secp256k1::new();
    let key = secp256k1::SecretKey::from_slice(sk).unwrap();
    secp256k1::PublicKey::from_secret_key(&secp, &key).serialize_uncompressed()
}

/// Calls `Secp256k1::sign_ecdsa` on `Message::from_digest_slice(digest)` and
/// serializes the signature with `serialize_der`. As the crate documents for
/// `verify_ecdsa`, the signature verifies under the public key of `sk`.
#[verifier::external_body]
pub fn ecdsa_sign(digest: &[u8], sk: &[u8]) -> (sig: Vec<u8>)
    requires
        digest@.len() == 32,
        is_secret_key(sk@),
    ensures
        sig@ == ecdsa_signature_of(digest@, sk@),
        ecdsa_verifies(digest@, sig@, secp256k1_public_key_of(sk@)),
{
    let secp = secp256k1::Secp256k1::new();
    let key = secp256k1::SecretKey::from_slice(sk).unwrap();
    let msg = secp256k1::Message::from_digest_slice(digest).unwrap();
    secp.sign_ecdsa(&msg, &key).serialize_der().to_vec()
}

/// Parses `sig` with `Signature::from_der` and `pubkey` with
/// `PublicKey::from_slice`, then calls `Secp256k1::verify_ecdsa`; a parse
/// error gives `false`.
#[verifier::external_body]
pub fn ecdsa_verify(digest: &[u8], sig: &[u8], pubkey: &[u8]) -> (ok: bool)
    requires
        digest@.len() == 32,
    ensures
        ok == ecdsa_verifies(digest@, sig@, pubkey@),
{
    let secp = secp256k1::Secp256k1::new();
    let msg = secp256k1::Message::from_digest_slice(digest).unwrap();
    match (secp256k1::ecdsa::Signature::from_der(sig), secp256k1::PublicKey::from_slice(pubkey)) {
        (Ok(s), Ok(k)) => secp.verify_ecdsa(&msg, &s, &k).is_ok(),
        _ => false,
    }
}

/// The 65-byte uncompressed SEC1 encoding of the P-256 public key of the
/// secret scalar `sk`.
pub uninterp spec fn p256_public_key_of(sk: Seq<u8>) -> Seq<u8>;

/// Calls `p256::ecdsa::SigningKey::random` with the operating system's random
/// source, and returns the key's 32 secret bytes (`to_bytes`) with the
/// uncompressed encoding of its verifying key (`to_encoded_point(false)`).
/// The key itself depends on chance; what holds of every outcome is stated.
#[verifier::external_body]
pub fn p256_random_keypair() -> (pair: (Vec<u8>, Vec<u8>))
    ensures
        pair.0@.len() == 32,
        pair.1@.len() == 65,
        pair.1@[0] == 4,
        pair.1@ == p256_public_key_of(pair.0@),
{
    let key = p256::ecdsa::SigningKey::random(&mut rand_core::OsRng);
    let public = p256::ecdsa::VerifyingKey::from(&key).to_encoded_point(false).as_bytes().to_vec();
    (key.to_bytes().to_vec(), public)
}

/// Reads the system clock: `SystemTime::now()` measured from the Unix epoch
/// with `duration_since`, in whole seconds, or `None` where `duration_since`
/// fails because the clock reads before 1970. The reading depends on the
/// machine's clock, so nothing more is stated of it.
#[verifier::external_body]
pub fn unix_time_secs() -> Option<u64> {
    match std::time::SystemTime::now().duration_since(std::time::UNIX_EPOCH) {
        Ok(d) => Some(d.as_secs()),
        Err(_) => None,
    }
}

/// Calls `String::from_utf8_lossy`: valid UTF-8 is decoded as it stands (what
/// replaces invalid sequences is left unsaid); on ASCII input the text holds
/// exactly the bytes, one character each.
#[verifier::external_body]
pub fn string_from_ascii(bytes: &[u8]) -> (text: String)
    ensures
        vstd::utf8::valid_utf8(bytes@) ==> text@ == vstd::utf8::decode_utf8(bytes@),
        (forall|i: int| 0 <= i < bytes@.len() ==> #[trigger] bytes@[i] < 128) ==> text@
            == Seq::new(bytes@.len(), |i: int| bytes@[i] as char),
{
    String::from_utf8_lossy(bytes).to_string()
}

} // verus!
