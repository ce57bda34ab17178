//! The cryptographic primitives this crate builds on, from the RustCrypto
//! crates and `base64`. Their results are named, not restated: the contracts
//! below say which name a call returns and the few facts the callers rely on.

use aes_gcm::aead::{Aead, KeyInit};
use aes_gcm::{Aes256Gcm, Key, Nonce};
use base64::engine::general_purpose::URL_SAFE_NO_PAD;
use base64::Engine;
use hmac::{Hmac, Mac};
use sha2::{Digest, Sha256};
use sha3::Sha3_256;
use vstd::prelude::*;


verus! {

/// HMAC-SHA256 tag of `data` under `key`.
pub uninterp spec fn hmac_sha256_tag(key: Seq<u8>, data: Seq<u8>) -> Seq<u8>;

/// SHA-256 digest of `data`.
pub uninterp spec fn sha256_digest(data: Seq<u8>) -> Seq<u8>;

/// SHA3-256 digest of `data`.
pub uninterp spec fn sha3_256_digest(data: Seq<u8>) -> Seq<u8>;

/// AES-256-GCM ciphertext (with its 16-byte tag appended) of `plaintext`
/// under `key` and `nonce`, no associated data.
pub uninterp spec fn aes_gcm_sealed(key: Seq<u8>, nonce: Seq<u8>, plaintext: Seq<u8>) -> Seq<u8>;

/// AES-256-GCM decryption of `ciphertext` under `key` and `nonce`: the
/// plaintext, or `None` when the tag does not check.
pub uninterp spec fn aes_gcm_opened(key: Seq<u8>, nonce: Seq<u8>, ciphertext: Seq<u8>) -> Option<
    Seq<u8>,
>;

/// URL-safe base64 text of `data`, without padding, as ASCII bytes.
pub uninterp spec fn b64url_text(data: Seq<u8>) -> Seq<u8>;

/// Bytes that a URL-safe unpadded base64 text decodes to, or `None`.
pub uninterp spec fn b64url_decoded(text: Seq<u8>) -> Option<Seq<u8>>;

/// A character of the URL-safe base64 alphabet: `A-Z a-z 0-9 - _`.
pub open spec fn is_b64url_byte(b: u8) -> bool {
    (65 <= b <= 90) || (97 <= b <= 122) || (48 <= b <= 57) || b == 45 || b == 95
}

/// Length of unpadded base64 text for `n` bytes: 4 characters per 3 bytes,
/// plus 2 or 3 for a remainder of 1 or 2 bytes.
pub open spec fn b64_len(n: nat) -> nat {
    4 * (n / 3) + (if n % 3 == 1 {
        2nat
    } else if n % 3 == 2 {
        3nat
    } else {
        0nat
    })
}

/// Largest plaintext AES-GCM accepts (`aes_gcm::P_MAX`, 2^36 bytes).
pub open spec fn aes_gcm_max_plaintext() -> nat {
    0x10_0000_0000
}

/// `<Hmac<Sha256> as Mac>::new_from_slice(key)`, `update(data)`, `finalize()`: the
/// 32-byte tag named `hmac_sha256_tag`. HMAC takes keys of any length.
#[verifier::external_body]
pub(crate) fn hmac_sha256(key: &[u8], data: &[u8]) -> (tag: Vec<u8>)
    ensures
        tag@ == hmac_sha256_tag(key@, data@),
        tag@.len() == 32,
{
    let mut mac = <Hmac<Sha256> as Mac>::new_from_slice(key).expect("HMAC accepts keys of any length");
    mac.update(data);
    mac.finalize().into_bytes().to_vec()
}

/// `Mac::verify_slice` on HMAC-SHA256 of `data` under `key`: succeeds exactly
/// when `tag` equals the computed tag (it first rejects another length, then
/// compares in constant time).
#[verifier::external_body]
pub(crate) fn hmac_sha256_verify(key: &[u8], data: &[u8], tag: &[u8]) -> (ok: bool)
    ensures
        ok == (tag@ == hmac_sha256_tag(key@, data@)),
{
    let mut mac = <Hmac<Sha256> as Mac>::new_from_slice(key).expect("HMAC accepts keys of any length");
    mac.update(data);
    mac.verify_slice(tag).is_ok()
}

/// `Sha256::digest`: the 32-byte digest named `sha256_digest`.
#[verifier::external_body]
pub(crate) fn sha256(data: &[u8]) -> (d: Vec<u8>)
    ensures
        d@ == sha256_digest(data@),
        d@.len() == 32,
{
    Sha256::digest(data).to_vec()
}

/// `Sha3_256::digest`: the 32-byte digest named `sha3_256_digest`.
#[verifier::external_body]
pub(crate) fn sha3_256(data: &[u8]) -> (d: Vec<u8>)
    ensures
        d@ == sha3_256_digest(data@),
        d@.len() == 32,
{
    Sha3_256::digest(data).to_vec()
}

/// `Aes256Gcm::new(key).encrypt(nonce, plaintext)`: the ciphertext named
/// `aes_gcm_sealed`, 16 bytes longer than the plaintext, which decrypts back
/// to the plaintext under the same key and nonce. It fails only for a
/// plaintext over `P_MAX`, which the precondition leaves out.
#[verifier::external_body]
pub(crate) fn aes256gcm_seal(key: &[u8], nonce: &[u8], plaintext: &[u8]) -> (ct: Vec<u8>)
    requires
        key@.len() == 32,
        nonce@.len() == 12,
        plaintext@.len() <= aes_gcm_max_plaintext(),
    ensures
        ct@ == aes_gcm_sealed(key@, nonce@, plaintext@),
        ct@.len() == plaintext@.len() + 16,
        aes_gcm_opened(key@, nonce@, ct@) == Some(plaintext@),
{
    let cipher = Aes256Gcm::new(Key::<Aes256Gcm>::from_slice(key));
    cipher.encrypt(Nonce::from_slice(nonce), plaintext).expect("plaintext within P_MAX")
}

/// `Aes256Gcm::new(key).decrypt(nonce, ciphertext)`: the result named
/// `aes_gcm_opened`.
#[verifier::external_body]
pub(crate) fn aes256gcm_open(key: &[u8], nonce: &[u8], ciphertext: &[u8]) -> (pt: Option<Vec<u8>>)
    requires
        key@.len() == 32,
        nonce@.len() == 12,
    ensures
        match aes_gcm_opened(key@, nonce@, ciphertext@) {
            Some(p) => pt matches Some(v) && v@ == p,
            None => pt is None,
        },
{
    let cipher = Aes256Gcm::new(Key::<Aes256Gcm>::from_slice(key));
    cipher.decrypt(Nonce::from_slice(nonce), ciphertext).ok()
}

/// `URL_SAFE_NO_PAD.encode(data)`, as its ASCII bytes: the text named
/// `b64url_text`, of the documented length, drawn from the URL-safe alphabet,
/// and decoding back to `data`. Encoding panics when the length overflows
/// `usize`, which the precondition leaves out.
#[verifier::external_body]
pub(crate) fn b64url_encode(data: &[u8]) -> (t: Vec<u8>)
    requires
        b64_len(data@.len()) <= usize::MAX,
    ensures
        t@ == b64url_text(data@),
        t@.len() == b64_len(data@.len()),
        forall|i: int| 0 <= i < t@.len() ==> is_b64url_byte(#[trigger] t@[i]),
        b64url_decoded(t@) == Some(data@),
{
    URL_SAFE_NO_PAD.encode(data).into_bytes()
}

/// `URL_SAFE_NO_PAD.decode(text)`: the result named `b64url_decoded`. The
/// engine refuses a byte outside the URL-safe alphabet (padding included) and
/// a text whose length leaves one symbol over (`len % 4 == 1`).
#[verifier::external_body]
pub(crate) fn b64url_decode(text: &[u8]) -> (d: Option<Vec<u8>>)
    ensures
        match b64url_decoded(text@) {
            Some(b) => d matches Some(v) && v@ == b,
            None => d is None,
        },
        (exists|i: int| 0 <= i < text@.len() && !is_b64url_byte(#[trigger] text@[i]))
            || text@.len() % 4 == 1 ==> d is None,
{
    URL_SAFE_NO_PAD.decode(text).ok()
}

} // verus!
