//! HMAC-SHA256 signatures, written as URL-safe unpadded base64.

use vstd::prelude::*;
use vstd::slice::slice_to_vec;
use vstd::utf8::encode_utf8;

use super::EncryptConfig;
use crate::crypto::{
    b64url_decode, b64url_decoded, b64url_encode, b64url_text, hmac_sha256, hmac_sha256_tag,
    hmac_sha256_verify, is_b64url_byte,
};
use crate::text::{ascii_chars, ascii_to_string, is_ascii_bytes, lemma_ascii_utf8};

verus! {

/// Whether `signature` is the base64 text of the HMAC-SHA256 tag of `data`
/// under `key`.
pub open spec fn signature_valid(key: Seq<u8>, data: Seq<char>, signature: Seq<char>) -> bool {
    match b64url_decoded(encode_utf8(signature)) {
        Some(tag) => tag == hmac_sha256_tag(key, encode_utf8(data)),
        None => false,
    }
}

/// HMAC-SHA256 signer.
pub struct Signer {
    key: Vec<u8>,
}

impl Clone for Signer {
    fn clone(&self) -> (c: Self)
        ensures
            c@ == self@,
    {
        Signer { key: slice_to_vec(self.key.as_slice()) }
    }
}

impl View for Signer {
    type V = Seq<u8>;

    closed spec fn view(&self) -> Seq<u8> {
        self.key@
    }
}

impl Signer {
    /// A signer whose key is the UTF-8 bytes of `key`.
    pub fn new(key: &str) -> (s: Signer)
        ensures
            s@ == encode_utf8(key@),
    {
        Signer { key: slice_to_vec(key.as_bytes()) }
    }

    /// A signer keyed with the configuration's primary key.
    pub fn from_config(config: &EncryptConfig) -> (s: Signer)
        ensures
            s@ == encode_utf8(config.key@),
    {
        Self::new(config.key.as_str())
    }

    /// The URL-safe base64 HMAC-SHA256 signature of `data`; it verifies.
    pub fn sign(&self, data: &str) -> (sig: String)
        ensures
            sig@ == ascii_chars(b64url_text(hmac_sha256_tag(self@, encode_utf8(data@)))),
            signature_valid(self@, data@, sig@),
    {
        let tag = hmac_sha256(self.key.as_slice(), data.as_bytes());
        let t = b64url_encode(tag.as_slice());
        proof {
            let tv = t@;
            assert(is_ascii_bytes(tv)) by {
                assert forall|i: int| 0 <= i < tv.len() implies #[trigger] tv[i] < 128 by {
                    assert(is_b64url_byte(tv[i]));
                }
            }
            lemma_ascii_utf8(tv);
        }
        ascii_to_string(t)
    }

    /// Whether `signature` is a valid signature of `data`.
    pub fn verify(&self, data: &str, signature: &str) -> (ok: bool)
        ensures
            ok == signature_valid(self@, data@, signature@),
    {
        match b64url_decode(signature.as_bytes()) {
            None => false,
            Some(sig) => hmac_sha256_verify(self.key.as_slice(), data.as_bytes(), sig.as_slice()),
        }
    }
}

} // verus!
