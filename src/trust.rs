//! Authenticity and integrity: Ed25519 over the repository index, base64 transport
//! of keys and signatures, SHA-256 of downloaded artifacts.
use vstd::prelude::*;
use base64::Engine;
use ed25519_dalek::Signer;
use sha2::Digest;
use crate::text::{slice_string, to_chars, trim, trim_bounds};

verus! {

/// Strict Ed25519 verification of `signature` over `message` under `public_key`.
pub uninterp spec fn ed25519_verifies(public_key: Seq<u8>, message: Seq<u8>, signature: Seq<u8>) -> bool;

/// The Ed25519 signature of `message` under the 32-byte secret key `secret_key`.
pub uninterp spec fn ed25519_signature(secret_key: Seq<u8>, message: Seq<u8>) -> Seq<u8>;

/// The bytes that standard, padded base64 text decodes to, if it is valid.
pub uninterp spec fn base64_decoded(text: Seq<char>) -> Option<Seq<u8>>;

/// Standard, padded base64 text of `bytes`.
pub uninterp spec fn base64_text(bytes: Seq<u8>) -> Seq<char>;

/// The SHA-256 digest of `data`.
pub uninterp spec fn sha256(data: Seq<u8>) -> Seq<u8>;

/// A lower-case hexadecimal digit.
pub open spec fn hex_digit(n: int) -> char {
    if n < 10 {
        (48 + n) as char
    } else {
        (87 + n) as char
    }
}

/// Lower-case hexadecimal text of `b`, two digits per byte.
pub open spec fn hex_of(b: Seq<u8>) -> Seq<char>
    decreases b.len(),
{
    if b.len() == 0 {
        Seq::empty()
    } else {
        hex_of(b.drop_last()) + seq![hex_digit(b.last() as int / 16), hex_digit(b.last() as int % 16)]
    }
}

pub proof fn lemma_hex_len(b: Seq<u8>)
    ensures
        hex_of(b).len() == 2 * b.len(),
    decreases b.len(),
{
    if b.len() > 0 {
        lemma_hex_len(b.drop_last());
    }
}

/// Relies on `ed25519_dalek::VerifyingKey::verify_strict`, after reading the key with
/// `VerifyingKey::from_bytes` (a key that is no curve point verifies nothing).
#[verifier::external_body]
fn ed25519_verify_strict(public_key: &[u8], message: &[u8], signature: &[u8]) -> (r: bool)
    requires
        public_key@.len() == 32,
        signature@.len() == 64,
    ensures
        r == ed25519_verifies(public_key@, message@, signature@),
{
    let Ok(key) = ed25519_dalek::VerifyingKey::from_bytes(public_key.try_into().unwrap()) else {
        return false;
    };
    let sig = ed25519_dalek::Signature::from_bytes(signature.try_into().unwrap());
    key.verify_strict(message, &sig).is_ok()
}

/// Relies on `ed25519_dalek::SigningKey::sign`: a 64-byte signature, determined by key and message.
#[verifier::external_body]
fn ed25519_sign(secret_key: &[u8], message: &[u8]) -> (r: Vec<u8>)
    requires
        secret_key@.len() == 32,
    ensures
        r@ == ed25519_signature(secret_key@, message@),
        r@.len() == 64,
{
    let key = ed25519_dalek::SigningKey::from_bytes(secret_key.try_into().unwrap());
    key.sign(message).to_bytes().to_vec()
}

/// Relies on `base64::engine::general_purpose::STANDARD.decode`.
#[verifier::external_body]
fn base64_decode(text: &str) -> (r: Option<Vec<u8>>)
    ensures
        match r {
            Some(v) => base64_decoded(text@) == Some(v@),
            None => base64_decoded(text@) is None,
        },
{
    base64::engine::general_purpose::STANDARD.decode(text).ok()
}

/// Relies on `base64::engine::general_purpose::STANDARD.encode`.
#[verifier::external_body]
fn base64_encode(bytes: &[u8]) -> (r: String)
    ensures
        r@ == base64_text(bytes@),
{
    base64::engine::general_purpose::STANDARD.encode(bytes)
}

/// Relies on `sha2::Sha256::digest`: 32 bytes.
#[verifier::external_body]
fn sha256_digest(data: &[u8]) -> (r: Vec<u8>)
    ensures
        r@ == sha256(data@),
        r@.len() == 32,
{
    sha2::Sha256::digest(data).to_vec()
}

/// Relies on `hex::encode`: two lower-case digits per byte.
#[verifier::external_body]
fn hex_encode(bytes: &[u8]) -> (r: String)
    ensures
        r@ == hex_of(bytes@),
{
    hex::encode(bytes)
}

/// The bytes that the base64 text `text`, trimmed, decodes to.
pub fn decode_base64_trimmed(text: &str) -> (r: Option<Vec<u8>>)
    ensures
        match r {
            Some(v) => base64_decoded(trim(text@)) == Some(v@),
            None => base64_decoded(trim(text@)) is None,
        },
{
    let v = to_chars(text);
    let (a, b) = trim_bounds(&v, 0, v.len());
    assert(v@.subrange(0, v@.len() as int) == text@);
    let t = slice_string(&v, a, b);
    base64_decode(t.as_str())
}

/// Standard base64 text of `bytes`.
pub fn encode_base64(bytes: &[u8]) -> (r: String)
    ensures
        r@ == base64_text(bytes@),
{
    base64_encode(bytes)
}

/// A detached signature over the index is valid: a 32-byte key, a 64-byte signature,
/// and strict Ed25519 verification.
pub open spec fn signature_valid(index: Seq<u8>, signature: Seq<u8>, public_key: Seq<u8>) -> bool {
    public_key.len() == 32 && signature.len() == 64 && ed25519_verifies(
        public_key,
        index,
        signature,
    )
}

/// Verifies the detached signature `sig_bytes` over `index_bytes` under `pubkey_bytes`.
pub fn verify_ed25519_index(index_bytes: &[u8], sig_bytes: &[u8], pubkey_bytes: &[u8]) -> (r: bool)
    ensures
        r == signature_valid(index_bytes@, sig_bytes@, pubkey_bytes@),
{
    if pubkey_bytes.len() != 32 || sig_bytes.len() != 64 {
        return false;
    }
    ed25519_verify_strict(pubkey_bytes, index_bytes, sig_bytes)
}

/// Signs `message` with the secret half (first 32 bytes) of a 64-byte Ed25519 keypair.
pub fn sign_with_keypair(keypair: &[u8], message: &[u8]) -> (r: Vec<u8>)
    requires
        keypair@.len() == 64,
    ensures
        r@ == ed25519_signature(keypair@.subrange(0, 32), message@),
        r@.len() == 64,
{
    let mut secret: Vec<u8> = Vec::new();
    let mut i: usize = 0;
    while i < 32
        invariant
            i <= 32,
            keypair@.len() == 64,
            secret@ == keypair@.subrange(0, i as int),
        decreases 32 - i,
    {
        secret.push(keypair[i]);
        assert(keypair@.subrange(0, i + 1) == keypair@.subrange(0, i as int).push(keypair@[i as int]));
        i += 1;
    }
    ed25519_sign(secret.as_slice(), message)
}

/// Lower-case hexadecimal SHA-256 of `data`.
pub fn sha256_hex(data: &[u8]) -> (r: String)
    ensures
        r@ == hex_of(sha256(data@)),
        r@.len() == 64,
{
    let d = sha256_digest(data);
    proof {
        lemma_hex_len(d@);
    }
    hex_encode(d.as_slice())
}

} // verus!
