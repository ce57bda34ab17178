//! AES-256-GCM encryption with purpose binding, expiry and key rotation, and
//! HMAC-SHA256 signing.
//!
//! A token is the URL-safe unpadded base64 text of `nonce (12 bytes) ||
//! ciphertext`, where the plaintext is the JSON payload of [`payload`].

use vstd::prelude::*;
use vstd::slice::{slice_subrange, slice_to_vec};
use vstd::utf8::{decode_utf8, encode_utf8, encode_utf8_decode_utf8, encode_utf8_valid_utf8, valid_utf8};

pub mod config;
pub mod error;
pub mod payload;
pub mod signer;

pub use config::EncryptConfig;
pub use error::{EncryptError, EncryptErrorView};
pub use signer::Signer;

use crate::crypto::{
    aes256gcm_open, aes256gcm_seal, aes_gcm_max_plaintext, aes_gcm_opened, aes_gcm_sealed, b64_len,
    b64url_decode, b64url_decoded, b64url_encode, b64url_text, is_b64url_byte, sha256,
    sha256_digest,
};
use crate::entropy::random_bytes;
use crate::text::{ascii_chars, ascii_to_string, is_ascii_bytes, lemma_ascii_utf8, string_from_utf8};
use payload::{
    decode_payload, encode_payload, lemma_payload_roundtrip, parse_payload, payload_json, Payload,
    PayloadView,
};

verus! {

/// The AES-256 key derived from a secret: SHA-256 of its UTF-8 bytes.
pub open spec fn derived_key(secret: Seq<char>) -> Seq<u8> {
    sha256_digest(encode_utf8(secret))
}

/// The keys of an encrypter, primary first, then the old ones in order.
pub type KeysView = (Seq<u8>, Seq<Seq<u8>>);

/// All keys in the order decryption tries them.
pub open spec fn key_list(k: KeysView) -> Seq<Seq<u8>> {
    seq![k.0] + k.1
}

/// The plaintext from the first key of `keys` that authenticates the ciphertext.
pub open spec fn first_opening(keys: Seq<Seq<u8>>, nonce: Seq<u8>, ct: Seq<u8>) -> Option<Seq<u8>>
    decreases keys.len(),
{
    if keys.len() == 0 {
        None
    } else {
        match aes_gcm_opened(keys[0], nonce, ct) {
            Some(p) => Some(p),
            None => first_opening(keys.drop_first(), nonce, ct),
        }
    }
}

/// Value, purpose and expiry of an opened token.
pub type TokenContent = (Seq<char>, Option<Seq<char>>, Option<i64>);

/// The content of a payload whose strings are valid UTF-8.
pub open spec fn content_of(p: PayloadView) -> Option<TokenContent> {
    if valid_utf8(p.0) && (p.1 matches Some(q) ==> valid_utf8(q)) {
        Some(
            (
                decode_utf8(p.0),
                match p.1 {
                    Some(q) => Some(decode_utf8(q)),
                    None => None,
                },
                p.2,
            ),
        )
    } else {
        None
    }
}

/// Nonce and ciphertext of a token text, or why there are none.
pub open spec fn token_parts(token: Seq<char>) -> Result<(Seq<u8>, Seq<u8>), EncryptErrorView> {
    match b64url_decoded(encode_utf8(token)) {
        None => Err(EncryptErrorView::InvalidFormat("invalid base64"@)),
        Some(raw) => if raw.len() <= 12 {
            Err(EncryptErrorView::InvalidFormat("token too short"@))
        } else {
            Ok((raw.take(12), raw.skip(12)))
        },
    }
}

/// What decrypting `token` with `keys` gives.
pub open spec fn decrypt_spec(keys: KeysView, token: Seq<char>) -> Result<
    TokenContent,
    EncryptErrorView,
> {
    match token_parts(token) {
        Err(e) => Err(e),
        Ok((nonce, ct)) => match first_opening(key_list(keys), nonce, ct) {
            None => Err(EncryptErrorView::DecryptionFailed),
            Some(pt) => match parse_payload(pt) {
                None => Err(EncryptErrorView::InvalidFormat("invalid payload"@)),
                Some(pv) => match content_of(pv) {
                    None => Err(EncryptErrorView::InvalidFormat("invalid payload"@)),
                    Some(c) => Ok(c),
                },
            },
        },
    }
}

/// The content carries an expiry (Unix seconds) earlier than `now`.
pub open spec fn expired(c: TokenContent, now: i64) -> bool {
    c.2 matches Some(exp) && now > exp
}

/// What `open` answers for `token` at Unix time `now`.
pub open spec fn open_spec(keys: KeysView, token: Seq<char>, now: i64) -> Result<
    Seq<char>,
    EncryptErrorView,
> {
    match decrypt_spec(keys, token) {
        Err(e) => Err(e),
        Ok(c) => if expired(c, now) {
            Err(EncryptErrorView::Expired)
        } else {
            Ok(c.0)
        },
    }
}

/// The purpose of a content as reported in a `WrongPurpose` error: the
/// purpose, or `(none)` when the token has none.
pub open spec fn purpose_or_none(c: TokenContent) -> Seq<char> {
    match c.1 {
        Some(p) => p,
        None => "(none)"@,
    }
}

/// What `open_for` answers for `token` and `purpose` at Unix time `now`.
pub open spec fn open_for_spec(keys: KeysView, purpose: Seq<char>, token: Seq<char>, now: i64) -> Result<
    Seq<char>,
    EncryptErrorView,
> {
    match decrypt_spec(keys, token) {
        Err(e) => Err(e),
        Ok(c) => if c.1 != Some(purpose) {
            Err(EncryptErrorView::WrongPurpose { expected: purpose, actual: purpose_or_none(c) })
        } else if expired(c, now) {
            Err(EncryptErrorView::Expired)
        } else {
            Ok(c.0)
        },
    }
}

/// The token text sealed under `key` with `nonce` for the JSON text `json`.
pub open spec fn token_text(key: Seq<u8>, nonce: Seq<u8>, json: Seq<u8>) -> Seq<u8> {
    b64url_text(nonce + aes_gcm_sealed(key, nonce, json))
}

/// Text made only of URL-safe base64 characters (`A-Z a-z 0-9 - _`).
pub open spec fn is_b64url_text(s: Seq<char>) -> bool {
    exists|t: Seq<u8>|
        s == #[trigger] ascii_chars(t) && forall|i: int| 0 <= i < t.len() ==> is_b64url_byte(
            #[trigger] t[i],
        )
}

/// `token` is the form a seal call writes under `key` for the JSON text
/// `json`: URL-safe base64 of a 12-byte nonce followed by the ciphertext
/// (the JSON's length plus the 16-byte tag), so `b64_len(json.len() + 28)`
/// characters long.
pub open spec fn sealed_token(key: Seq<u8>, json: Seq<u8>, token: Seq<char>) -> bool {
    &&& exists|nonce: Seq<u8>|
        nonce.len() == 12 && token == ascii_chars(#[trigger] token_text(key, nonce, json))
    &&& token.len() == b64_len(json.len() + 28)
}

/// The expiry `secs` seconds after `now`, stopping at the largest `i64`.
pub open spec fn expiry_after(now: i64, secs: u64) -> i64 {
    if now + secs <= i64::MAX {
        (now + secs) as i64
    } else {
        i64::MAX
    }
}

/// The Unix times in seconds that a `chrono::DateTime<Utc>` can stand for:
/// those whose day count from 0001-01-01 fits an `i32`.
pub open spec fn utc_timestamp_in_range(t: i64) -> bool {
    -185_604_722_870_400 <= t < 185_480_451_504_000
}

/// Whole seconds of a duration, as `Duration::as_secs` gives them.
pub uninterp spec fn duration_whole_secs(d: std::time::Duration) -> u64;

/// The payload that a seal call encrypts.
pub open spec fn sealed_payload(value: Seq<char>, purpose: Option<Seq<char>>, exp: Option<i64>) -> PayloadView {
    (
        encode_utf8(value),
        match purpose {
            Some(p) => Some(encode_utf8(p)),
            None => None,
        },
        exp,
    )
}

/// A payload small enough to seal: AES-GCM's plaintext limit, and base64
/// text whose length fits in memory.
pub open spec fn sealable(json: Seq<u8>) -> bool {
    json.len() <= aes_gcm_max_plaintext() && b64_len(json.len() + 28) <= usize::MAX
}

proof fn lemma_token_decrypts(
    keys: KeysView,
    nonce: Seq<u8>,
    ct: Seq<u8>,
    p: PayloadView,
    t: Seq<u8>,
)
    requires
        nonce.len() == 12,
        aes_gcm_opened(keys.0, nonce, ct) == Some(payload_json(p)),
        ct.len() > 0,
        b64url_decoded(t) == Some(nonce + ct),
        forall|i: int| 0 <= i < t.len() ==> is_b64url_byte(#[trigger] t[i]),
        content_of(p) is Some,
    ensures
        decrypt_spec(keys, ascii_chars(t)) == Ok::<TokenContent, EncryptErrorView>(
            content_of(p).unwrap(),
        ),
{
    assert(is_ascii_bytes(t)) by {
        assert forall|i: int| 0 <= i < t.len() implies #[trigger] t[i] < 128 by {
            assert(is_b64url_byte(t[i]));
        }
    }
    lemma_ascii_utf8(t);
    let raw = nonce + ct;
    assert(raw.take(12) =~= nonce);
    assert(raw.skip(12) =~= ct);
    lemma_first_opening_primary(keys, nonce, ct);
    lemma_payload_roundtrip(p);
}

proof fn lemma_first_opening_at(keys: Seq<Seq<u8>>, nonce: Seq<u8>, ct: Seq<u8>, k: int)
    requires
        0 <= k < keys.len(),
        forall|j: int| 0 <= j < k ==> (#[trigger] aes_gcm_opened(keys[j], nonce, ct)) is None,
        aes_gcm_opened(keys[k], nonce, ct) is Some,
    ensures
        first_opening(keys, nonce, ct) == aes_gcm_opened(keys[k], nonce, ct),
    decreases k,
{
    if k > 0 {
        assert(aes_gcm_opened(keys[0], nonce, ct) is None);
        let rest = keys.drop_first();
        assert forall|j: int| 0 <= j < k - 1 implies (#[trigger] aes_gcm_opened(rest[j], nonce, ct))
            is None by {
            assert(rest[j] == keys[j + 1]);
        }
        lemma_first_opening_at(rest, nonce, ct, k - 1);
    }
}

/// Key rotation: when the key at position `k` of `new` (primary first, then
/// the old keys) is the primary key of `old`, that key authenticates the
/// token, and no earlier key of `new` does, `new` decrypts the token as `old`
/// does.
pub proof fn lemma_key_rotation(old: KeysView, new: KeysView, token: Seq<char>, k: int)
    requires
        0 <= k < key_list(new).len(),
        key_list(new)[k] == old.0,
        token_parts(token) matches Ok((n, c)) ==> {
            &&& aes_gcm_opened(old.0, n, c) is Some
            &&& forall|j: int| 0 <= j < k ==> (#[trigger] aes_gcm_opened(key_list(new)[j], n, c)) is None
        },
    ensures
        decrypt_spec(new, token) == decrypt_spec(old, token),
        forall|now: i64| #[trigger] open_spec(new, token, now) == open_spec(old, token, now),
{
    if let Ok((n, c)) = token_parts(token) {
        lemma_first_opening_at(key_list(new), n, c, k);
        lemma_first_opening_primary(old, n, c);
    }
}

/// AES-256-GCM encrypter with purpose binding, token expiry and key rotation.
pub struct Encrypter {
    primary_key: Vec<u8>,
    old_keys: Vec<Vec<u8>>,
}

impl View for Encrypter {
    type V = KeysView;

    closed spec fn view(&self) -> KeysView {
        (self.primary_key@, self.old_keys@.map_values(|k: Vec<u8>| k@))
    }
}

/// Every key is 32 bytes long.
pub open spec fn keys_well_formed(k: KeysView) -> bool {
    k.0.len() == 32 && forall|i: int| 0 <= i < k.1.len() ==> (#[trigger] k.1[i]).len() == 32
}

proof fn lemma_first_opening_primary(k: KeysView, nonce: Seq<u8>, ct: Seq<u8>)
    ensures
        first_opening(key_list(k), nonce, ct) == match aes_gcm_opened(k.0, nonce, ct) {
            Some(p) => Some(p),
            None => first_opening(k.1, nonce, ct),
        },
{
    let l = key_list(k);
    assert(l[0] == k.0);
    assert(l.drop_first() =~= k.1);
}

/// `Duration::as_secs`: the whole seconds named `duration_whole_secs`.
#[verifier::external_body]
fn duration_secs(d: &std::time::Duration) -> (s: u64)
    ensures
        s == duration_whole_secs(*d),
{
    d.as_secs()
}

/// The current Unix time in seconds (`chrono::Utc::now().timestamp()`).
/// `Utc::now` builds its value with `DateTime::from_timestamp(..).unwrap()`,
/// which refuses a time whose day count from 0001-01-01 does not fit an `i32`;
/// so whatever the clock says, the reading lies in
/// [`utc_timestamp_in_range`]. Nothing else is promised of it.
#[verifier::external_body]
fn utc_now_timestamp() -> (t: i64)
    ensures
        utc_timestamp_in_range(t),
{
    chrono::Utc::now().timestamp()
}

/// Adds a number of seconds to a Unix time, stopping at the largest `i64`.
fn add_secs(now: i64, secs: u64) -> (t: i64)
    ensures
        t == expiry_after(now, secs),
{
    let sum: i128 = now as i128 + secs as i128;
    if sum > i64::MAX as i128 {
        i64::MAX
    } else {
        sum as i64
    }
}

/// A token that carries an expiry opens to its value at every time up to
/// and including the expiry, and is refused with `Expired` at every later
/// time; with a purpose, the expected purpose is checked first.
pub proof fn lemma_expiry_decides(
    keys: KeysView,
    token: Seq<char>,
    value: Seq<char>,
    purpose: Option<Seq<char>>,
    exp: i64,
    now: i64,
)
    requires
        decrypt_spec(keys, token) == Ok::<TokenContent, EncryptErrorView>((value, purpose, Some(exp))),
    ensures
        open_spec(keys, token, now) == (if now > exp {
            Err::<Seq<char>, EncryptErrorView>(EncryptErrorView::Expired)
        } else {
            Ok::<Seq<char>, EncryptErrorView>(value)
        }),
        forall|p: Seq<char>|
            purpose == Some(p) ==> #[trigger] open_for_spec(keys, p, token, now) == open_spec(
                keys,
                token,
                now,
            ),
{
}

/// `open` ignores the purpose: a token without expiry that decrypts to
/// `value` (with any purpose) opens to `value` at every time.
pub proof fn lemma_open_ignores_purpose(
    keys: KeysView,
    token: Seq<char>,
    value: Seq<char>,
    purpose: Option<Seq<char>>,
)
    requires
        decrypt_spec(keys, token) == Ok::<TokenContent, EncryptErrorView>((value, purpose, None)),
    ensures
        forall|now: i64| #[trigger] open_spec(keys, token, now) == Ok::<Seq<char>, EncryptErrorView>(value),
{
}

impl Encrypter {
    #[verifier::type_invariant]
    spec fn well_formed(&self) -> bool {
        &&& self.primary_key@.len() == 32
        &&& forall|i: int| 0 <= i < self.old_keys@.len() ==> (#[trigger] self.old_keys@[i])@.len() == 32
    }

    /// An encrypter whose keys are SHA-256 of the configured secrets.
    pub fn from_config(config: EncryptConfig) -> (e: Encrypter)
        ensures
            e@.0 == derived_key(config.key@),
            e@.1 == config.old_keys@.map_values(|k: String| derived_key(k@)),
    {
        let primary_key = sha256(config.key.as_str().as_bytes());
        let mut old_keys: Vec<Vec<u8>> = Vec::new();
        let mut i: usize = 0;
        while i < config.old_keys.len()
            invariant
                i <= config.old_keys@.len(),
                old_keys@.len() == i,
                forall|j: int| 0 <= j < i ==> (#[trigger] old_keys@[j])@ == derived_key(config.old_keys@[j]@),
                forall|j: int| 0 <= j < i ==> (#[trigger] old_keys@[j])@.len() == 32,
            decreases config.old_keys@.len() - i,
        {
            old_keys.push(sha256(config.old_keys[i].as_str().as_bytes()));
            i = i + 1;
        }
        let e = Encrypter { primary_key, old_keys };
        assert(e@.1 =~= config.old_keys@.map_values(|k: String| derived_key(k@)));
        e
    }

    /// Decrypt `ct` with the first key that authenticates it.
    fn first_open(&self, nonce: &[u8], ct: &[u8]) -> (r: Option<Vec<u8>>)
        requires
            nonce@.len() == 12,
        ensures
            match first_opening(key_list(self@), nonce@, ct@) {
                Some(p) => r matches Some(v) && v@ == p,
                None => r is None,
            },
    {
        proof {
            use_type_invariant(self);
            lemma_first_opening_primary(self@, nonce@, ct@);
        }
        match aes256gcm_open(self.primary_key.as_slice(), nonce, ct) {
            Some(p) => {
                return Some(p);
            },
            None => {},
        }
        let ghost olds = self@.1;
        assert(olds.skip(0) =~= olds);
        let mut i: usize = 0;
        while i < self.old_keys.len()
            invariant
                i <= self.old_keys@.len(),
                olds == self@.1,
                first_opening(key_list(self@), nonce@, ct@) == first_opening(olds, nonce@, ct@),
                olds.len() == self.old_keys@.len(),
                forall|j: int| 0 <= j < olds.len() ==> #[trigger] olds[j] == self.old_keys@[j]@,
                forall|j: int| 0 <= j < olds.len() ==> (#[trigger] self.old_keys@[j])@.len() == 32,
                nonce@.len() == 12,
                first_opening(olds, nonce@, ct@) == first_opening(olds.skip(i as int), nonce@, ct@),
            decreases self.old_keys@.len() - i,
        {
            let ghost rest = olds.skip(i as int);
            assert(rest[0] == olds[i as int]);
            assert(rest.drop_first() =~= olds.skip(i + 1));
            match aes256gcm_open(self.old_keys[i].as_slice(), nonce, ct) {
                Some(p) => {
                    return Some(p);
                },
                None => {},
            }
            i = i + 1;
        }
        assert(olds.skip(i as int) =~= Seq::<Seq<u8>>::empty());
        None
    }

    /// Encrypt a payload under the primary key with a fresh random nonce.
    fn encrypt_payload(&self, p: &Payload) -> (token: String)
        requires
            sealable(payload_json(p@)),
            content_of(p@) is Some,
        ensures
            is_b64url_text(token@),
            decrypt_spec(self@, token@) == Ok::<TokenContent, EncryptErrorView>(
                content_of(p@).unwrap(),
            ),
            sealed_token(self@.0, payload_json(p@), token@),
    {
        proof {
            use_type_invariant(self);
        }
        let json = encode_payload(p);
        let nonce = random_bytes(12);
        let ct = aes256gcm_seal(self.primary_key.as_slice(), nonce.as_slice(), json.as_slice());
        let mut raw = slice_to_vec(nonce.as_slice());
        let mut ct2 = ct;
        let ghost ctv = ct2@;
        raw.append(&mut ct2);
        let t = b64url_encode(raw.as_slice());
        proof {
            assert(raw@ =~= nonce@ + ctv);
            lemma_token_decrypts(self@, nonce@, ctv, p@, t@);
            assert(t@ == token_text(self@.0, nonce@, payload_json(p@)));
            assert(raw@.len() == payload_json(p@).len() + 28);
        }
        ascii_to_string(t)
    }

    /// Decrypt and parse a token.
    fn decrypt_token(&self, token: &str) -> (r: Result<(String, Option<String>, Option<i64>), EncryptError>)
        ensures
            match decrypt_spec(self@, token@) {
                Ok(c) => r matches Ok(x) && x.0@ == c.0 && x.2 == c.2 && match c.1 {
                    Some(q) => x.1 matches Some(s) && s@ == q,
                    None => x.1 is None,
                },
                Err(e) => r matches Err(x) && x@ == e,
            },
    {
        let raw = match b64url_decode(token.as_bytes()) {
            None => {
                return Err(EncryptError::invalid_format("invalid base64"));
            },
            Some(r) => r,
        };
        if raw.len() <= 12 {
            return Err(EncryptError::invalid_format("token too short"));
        }
        let nonce = slice_subrange(raw.as_slice(), 0, 12);
        let ct = slice_subrange(raw.as_slice(), 12, raw.len());
        assert(nonce@ =~= raw@.take(12));
        assert(ct@ =~= raw@.skip(12));
        let pt = match self.first_open(nonce, ct) {
            None => {
                return Err(EncryptError::DecryptionFailed);
            },
            Some(pt) => pt,
        };
        let p = match decode_payload(pt.as_slice()) {
            None => {
                return Err(EncryptError::invalid_format("invalid payload"));
            },
            Some(p) => p,
        };
        let Payload { v, p: purpose, e } = p;
        let value = match string_from_utf8(v) {
            None => {
                return Err(EncryptError::invalid_format("invalid payload"));
            },
            Some(s) => s,
        };
        let purpose_text = match purpose {
            None => None,
            Some(q) => match string_from_utf8(q) {
                None => {
                    return Err(EncryptError::invalid_format("invalid payload"));
                },
                Some(s) => Some(s),
            },
        };
        Ok((value, purpose_text, e))
    }

    /// Encrypt `value` (with optional purpose and expiry) into a token.
    fn seal_payload(&self, value: &str, purpose: Option<&str>, exp: Option<i64>) -> (token: String)
        requires
            sealable(
                payload_json(
                    sealed_payload(
                        value@,
                        match purpose {
                            Some(p) => Some(p@),
                            None => None,
                        },
                        exp,
                    ),
                ),
            ),
        ensures
            is_b64url_text(token@),
            sealed_token(
                self@.0,
                payload_json(
                    sealed_payload(
                        value@,
                        match purpose {
                            Some(p) => Some(p@),
                            None => None,
                        },
                        exp,
                    ),
                ),
                token@,
            ),
            decrypt_spec(self@, token@) == Ok::<TokenContent, EncryptErrorView>(
                (
                    value@,
                    match purpose {
                        Some(p) => Some(p@),
                        None => None,
                    },
                    exp,
                ),
            ),
    {
        let v = slice_to_vec(value.as_bytes());
        let p = match purpose {
            Some(q) => Some(slice_to_vec(q.as_bytes())),
            None => None,
        };
        let payload = Payload { v, p, e: exp };
        proof {
            encode_utf8_valid_utf8(value@);
            encode_utf8_decode_utf8(value@);
            if let Some(q) = purpose {
                encode_utf8_valid_utf8(q@);
                encode_utf8_decode_utf8(q@);
            }
            assert(payload@ == sealed_payload(
                value@,
                match purpose {
                    Some(p) => Some(p@),
                    None => None,
                },
                exp,
            ));
        }
        self.encrypt_payload(&payload)
    }

    /// Encrypt `value` into a self-contained token.
    pub fn seal(&self, value: &str) -> (token: String)
        requires
            sealable(payload_json(sealed_payload(value@, None, None))),
        ensures
            is_b64url_text(token@),
            sealed_token(self@.0, payload_json(sealed_payload(value@, None, None)), token@),
            decrypt_spec(self@, token@) == Ok::<TokenContent, EncryptErrorView>((value@, None, None)),
            forall|now: i64| #[trigger] open_spec(self@, token@, now) == Ok::<Seq<char>, EncryptErrorView>(value@),
            forall|purpose: Seq<char>, now: i64| #[trigger] open_for_spec(self@, purpose, token@, now)
                == Err::<Seq<char>, EncryptErrorView>(
                EncryptErrorView::WrongPurpose { expected: purpose, actual: "(none)"@ },
            ),
    {
        self.seal_payload(value, None, None)
    }

    /// Decrypt `token` at Unix time `now`: the value, or why it cannot be opened.
    pub fn open_at(&self, token: &str, now: i64) -> (res: Result<String, EncryptError>)
        ensures
            match open_spec(self@, token@, now) {
                Ok(v) => res matches Ok(s) && s@ == v,
                Err(e) => res matches Err(x) && x@ == e,
            },
    {
        let (value, _purpose, exp) = self.decrypt_token(token)?;
        if let Some(e) = exp {
            if now > e {
                return Err(EncryptError::Expired);
            }
        }
        Ok(value)
    }

    /// Decrypt `token` and return the original value; an expired token is
    /// refused with `Expired`.
    pub fn open(&self, token: &str) -> (res: Result<String, EncryptError>)
        ensures
            exists|now: i64|
                utc_timestamp_in_range(now) && match #[trigger] open_spec(self@, token@, now) {
                    Ok(v) => res matches Ok(s) && s@ == v,
                    Err(e) => res matches Err(x) && x@ == e,
                },
    {
        self.open_at(token, utc_now_timestamp())
    }

    /// Like [`open`](Self::open), with `None` in place of an error.
    pub fn try_open(&self, token: &str) -> (res: Option<String>)
        ensures
            exists|now: i64|
                utc_timestamp_in_range(now) && match #[trigger] open_spec(self@, token@, now) {
                    Ok(v) => res matches Some(s) && s@ == v,
                    Err(_) => res is None,
                },
    {
        match self.open(token) {
            Ok(v) => Some(v),
            Err(_) => None,
        }
    }

    /// Encrypt `value` bound to `purpose`.
    pub fn seal_for(&self, purpose: &str, value: &str) -> (token: String)
        requires
            sealable(payload_json(sealed_payload(value@, Some(purpose@), None))),
        ensures
            is_b64url_text(token@),
            sealed_token(self@.0, payload_json(sealed_payload(value@, Some(purpose@), None)), token@),
            decrypt_spec(self@, token@) == Ok::<TokenContent, EncryptErrorView>(
                (value@, Some(purpose@), None),
            ),
            forall|now: i64| #[trigger] open_for_spec(self@, purpose@, token@, now) == Ok::<Seq<char>, EncryptErrorView>(value@),
            forall|now: i64| #[trigger] open_spec(self@, token@, now) == Ok::<Seq<char>, EncryptErrorView>(value@),
            forall|other: Seq<char>, now: i64| other != purpose@ ==> #[trigger] open_for_spec(self@, other, token@, now)
                == Err::<Seq<char>, EncryptErrorView>(
                EncryptErrorView::WrongPurpose { expected: other, actual: purpose@ },
            ),
    {
        self.seal_payload(value, Some(purpose), None)
    }

    /// Decrypt a purpose-bound token at Unix time `now`, checking the purpose
    /// before the expiry.
    pub fn open_for_at(&self, expected_purpose: &str, token: &str, now: i64) -> (res: Result<
        String,
        EncryptError,
    >)
        ensures
            match open_for_spec(self@, expected_purpose@, token@, now) {
                Ok(v) => res matches Ok(s) && s@ == v,
                Err(e) => res matches Err(x) && x@ == e,
            },
    {
        let (value, purpose, exp) = self.decrypt_token(token)?;
        let expected = expected_purpose.to_owned();
        match purpose {
            None => {
                return Err(EncryptError::WrongPurpose { expected, actual: "(none)".to_owned() });
            },
            Some(actual) => {
                if actual != expected {
                    return Err(EncryptError::WrongPurpose { expected, actual });
                }
            },
        }
        if let Some(e) = exp {
            if now > e {
                return Err(EncryptError::Expired);
            }
        }
        Ok(value)
    }

    /// Decrypt a purpose-bound token: `WrongPurpose` when its purpose is not
    /// `expected_purpose`, `Expired` when it has expired.
    pub fn open_for(&self, expected_purpose: &str, token: &str) -> (res: Result<String, EncryptError>)
        ensures
            exists|now: i64|
                utc_timestamp_in_range(now) && match #[trigger] open_for_spec(self@, expected_purpose@, token@, now) {
                    Ok(v) => res matches Ok(s) && s@ == v,
                    Err(e) => res matches Err(x) && x@ == e,
                },
    {
        self.open_for_at(expected_purpose, token, utc_now_timestamp())
    }

    /// Encrypt `value` with an expiry `ttl` from now.
    pub fn seal_expiring(&self, value: &str, ttl: std::time::Duration) -> (token: String)
        requires
            forall|exp: i64| sealable(#[trigger] payload_json(sealed_payload(value@, None, Some(exp)))),
        ensures
            is_b64url_text(token@),
            exists|now: i64|
                utc_timestamp_in_range(now) && decrypt_spec(self@, token@) == Ok::<TokenContent, EncryptErrorView>(
                    (value@, None, Some(#[trigger] expiry_after(now, duration_whole_secs(ttl)))),
                ) && sealed_token(
                    self@.0,
                    payload_json(sealed_payload(value@, None, Some(expiry_after(now, duration_whole_secs(ttl))))),
                    token@,
                ),
    {
        let now = utc_now_timestamp();
        let exp = add_secs(now, duration_secs(&ttl));
        self.seal_payload(value, None, Some(exp))
    }

    /// Encrypt `value` bound to `purpose` with an expiry `ttl` from now.
    pub fn seal_for_expiring(&self, purpose: &str, value: &str, ttl: std::time::Duration) -> (token: String)
        requires
            forall|exp: i64|
                sealable(#[trigger] payload_json(sealed_payload(value@, Some(purpose@), Some(exp)))),
        ensures
            is_b64url_text(token@),
            exists|now: i64|
                utc_timestamp_in_range(now) && decrypt_spec(self@, token@) == Ok::<TokenContent, EncryptErrorView>(
                    (value@, Some(purpose@), Some(#[trigger] expiry_after(now, duration_whole_secs(ttl)))),
                ) && sealed_token(
                    self@.0,
                    payload_json(
                        sealed_payload(value@, Some(purpose@), Some(expiry_after(now, duration_whole_secs(ttl)))),
                    ),
                    token@,
                ),
    {
        let now = utc_now_timestamp();
        let exp = add_secs(now, duration_secs(&ttl));
        self.seal_payload(value, Some(purpose), Some(exp))
    }
}

impl Clone for Encrypter {
    fn clone(&self) -> (c: Self)
        ensures
            c@ == self@,
    {
        proof {
            use_type_invariant(self);
        }
        let primary_key = slice_to_vec(self.primary_key.as_slice());
        let mut old_keys: Vec<Vec<u8>> = Vec::new();
        let mut i: usize = 0;
        while i < self.old_keys.len()
            invariant
                i <= self.old_keys@.len(),
                old_keys@.len() == i,
                forall|j: int| 0 <= j < i ==> (#[trigger] old_keys@[j])@ == self.old_keys@[j]@,
                forall|j: int| 0 <= j < self.old_keys@.len() ==> (#[trigger] self.old_keys@[j])@.len() == 32,
            decreases self.old_keys@.len() - i,
        {
            old_keys.push(slice_to_vec(self.old_keys[i].as_slice()));
            i = i + 1;
        }
        let c = Encrypter { primary_key, old_keys };
        assert(c@.1 =~= self@.1);
        c
    }
}

} // verus!
