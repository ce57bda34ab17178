//! One value bundling a hasher, an encrypter and a signer.

use vstd::prelude::*;
use vstd::utf8::encode_utf8;

use crate::crypto::{b64url_text, hmac_sha256_tag};
use crate::encrypt::payload::payload_json;
use crate::encrypt::signer::signature_valid;
use crate::encrypt::{
    decrypt_spec, derived_key, is_b64url_text, open_spec, sealable, sealed_token, sealed_payload, EncryptConfig,
    EncryptError, EncryptErrorView, Encrypter, KeysView, Signer, TokenContent,
};
use crate::hash::config::default_hash_config;
use crate::hash::{
    hash_config_usable, make_outcome, needs_rehash_spec, verify_outcome, HashConfig, HashError,
    Hasher,
};
use crate::text::ascii_chars;

verus! {

/// The keys of an encrypter built from the placeholder key `change-me`.
pub open spec fn placeholder_keys() -> KeysView {
    (derived_key("change-me"@), Seq::empty())
}

/// A hasher, an encrypter and a signer, used together.
pub struct CryptoProvider {
    hasher: Hasher,
    encrypter: Encrypter,
    signer: Signer,
}

impl Clone for CryptoProvider {
    fn clone(&self) -> (c: Self)
        ensures
            c@ == self@,
    {
        CryptoProvider {
            hasher: self.hasher.clone(),
            encrypter: self.encrypter.clone(),
            signer: self.signer.clone(),
        }
    }
}

impl View for CryptoProvider {
    /// The hasher's configuration, the encrypter's keys and the signer's key.
    type V = (HashConfig, KeysView, Seq<u8>);

    closed spec fn view(&self) -> (HashConfig, KeysView, Seq<u8>) {
        (self.hasher@, self.encrypter@, self.signer@)
    }
}

impl CryptoProvider {
    /// A provider around `hasher`, with an encrypter and a signer on the
    /// placeholder key `change-me`.
    pub fn new_hash(hasher: Hasher) -> (p: CryptoProvider)
        ensures
            p@ == (hasher@, placeholder_keys(), encode_utf8("change-me"@)),
    {
        let encrypter = Encrypter::from_config(EncryptConfig::new("change-me"));
        let signer = Signer::new("change-me");
        proof {
            assert(encrypter@.1 =~= Seq::<Seq<u8>>::empty());
        }
        CryptoProvider { hasher, encrypter, signer }
    }

    /// A provider around `encrypter` and `signer`, with a default hasher.
    pub fn new_encrypt(encrypter: Encrypter, signer: Signer) -> (p: CryptoProvider)
        ensures
            p@ == (default_hash_config(), encrypter@, signer@),
    {
        let hasher = Hasher::from_config(HashConfig::default());
        CryptoProvider { hasher, encrypter, signer }
    }

    /// A provider around all three.
    pub fn new(hasher: Hasher, encrypter: Encrypter, signer: Signer) -> (p: CryptoProvider)
        ensures
            p@ == (hasher@, encrypter@, signer@),
    {
        CryptoProvider { hasher, encrypter, signer }
    }

    /// The hasher.
    pub fn hasher(&self) -> (h: &Hasher)
        ensures
            h@ == self@.0,
    {
        &self.hasher
    }

    /// The encrypter.
    pub fn encrypter(&self) -> (e: &Encrypter)
        ensures
            e@ == self@.1,
    {
        &self.encrypter
    }

    /// The signer.
    pub fn signer(&self) -> (s: &Signer)
        ensures
            s@ == self@.2,
    {
        &self.signer
    }

    /// [`Hasher::make`] with the provider's hasher.
    pub fn hash_make(&self, password: &str) -> (r: Result<String, HashError>)
        requires
            hash_config_usable(self@.0),
        ensures
            make_outcome(self@.0, password@, r),
    {
        self.hasher.make(password)
    }

    /// [`Hasher::verify`] with the provider's hasher.
    pub fn hash_verify(&self, password: &str, hash: &str) -> (r: Result<bool, HashError>)
        ensures
            verify_outcome(self@.0, password@, hash@, r),
    {
        self.hasher.verify(password, hash)
    }

    /// [`Hasher::needs_rehash`] with the provider's hasher.
    pub fn hash_needs_rehash(&self, hash: &str) -> (r: bool)
        ensures
            r == needs_rehash_spec(self@.0, hash@),
    {
        self.hasher.needs_rehash(hash)
    }

    /// [`Encrypter::seal`] with the provider's encrypter.
    pub fn encrypt_seal(&self, value: &str) -> (token: String)
        requires
            sealable(payload_json(sealed_payload(value@, None, None))),
        ensures
            is_b64url_text(token@),
            sealed_token(self@.1.0, payload_json(sealed_payload(value@, None, None)), token@),
            decrypt_spec(self@.1, token@) == Ok::<TokenContent, EncryptErrorView>((value@, None, None)),
            forall|now: i64| #[trigger] open_spec(self@.1, token@, now) == Ok::<Seq<char>, EncryptErrorView>(value@),
    {
        self.encrypter.seal(value)
    }

    /// [`Encrypter::open`] with the provider's encrypter.
    pub fn encrypt_open(&self, token: &str) -> (res: Result<String, EncryptError>)
        ensures
            exists|now: i64|
                match #[trigger] open_spec(self@.1, token@, now) {
                    Ok(v) => res matches Ok(s) && s@ == v,
                    Err(e) => res matches Err(x) && x@ == e,
                },
    {
        let res = self.encrypter.open(token);
        proof {
            let now = choose|now: i64|
                match #[trigger] open_spec(self.encrypter@, token@, now) {
                    Ok(v) => res matches Ok(s) && s@ == v,
                    Err(e) => res matches Err(x) && x@ == e,
                };
            assert(self@.1 == self.encrypter@);
            assert(open_spec(self@.1, token@, now) == open_spec(self.encrypter@, token@, now));
        }
        res
    }

    /// [`Signer::sign`] with the provider's signer.
    pub fn sign_data(&self, data: &str) -> (sig: String)
        ensures
            sig@ == ascii_chars(b64url_text(hmac_sha256_tag(self@.2, encode_utf8(data@)))),
            signature_valid(self@.2, data@, sig@),
    {
        self.signer.sign(data)
    }

    /// [`Signer::verify`] with the provider's signer.
    pub fn verify_signature(&self, data: &str, signature: &str) -> (ok: bool)
        ensures
            ok == signature_valid(self@.2, data@, signature@),
    {
        self.signer.verify(data, signature)
    }
}

} // verus!
