//! Compact HS256 JSON Web Tokens: `header.payload.signature`, each part
//! URL-safe base64 without padding, the signature an HMAC-SHA256 over the
//! first two parts.

use vstd::prelude::*;
use vstd::utf8::encode_utf8;

use crate::crypto::{
    b64_len, b64url_decode, b64url_decoded, b64url_encode, b64url_text, hmac_sha256,
    hmac_sha256_tag, is_b64url_byte,
};
use crate::text::{
    ascii_chars, ascii_to_string, count_byte, count_byte_exec, find_byte, find_byte_from,
    is_ascii_bytes, lemma_count_byte_concat, lemma_count_byte_none, lemma_find_byte_at,
};
use crate::util::rand::constant_time_eq;

verus! {

/// Why a token could not be made or read.
#[derive(Debug, Clone, PartialEq, Eq)]
pub enum JwtError {
    /// The claims could not be serialised (the serialiser's message).
    Serialization(String),
    /// The payload is not the expected JSON (the deserialiser's message).
    Deserialization(String),
    /// The token does not have three parts; the number it has.
    InvalidFormat(usize),
    /// The payload part is not URL-safe base64.
    InvalidBase64,
    /// The signature does not match.
    InvalidSignature,
    /// The token has expired.
    Expired,
}

/// The header `{"alg":"HS256","typ":"JWT"}`.
pub open spec fn jwt_header() -> Seq<u8> {
    seq![
        123u8, 34, 97, 108, 103, 34, 58, 34, 72, 83, 50, 53, 54, 34, 44, 34, 116, 121, 112, 34,
        58, 34, 74, 87, 84, 34, 125,
    ]
}

fn jwt_header_bytes() -> (b: Vec<u8>)
    ensures
        b@ == jwt_header(),
{
    let b = vec![
        123u8, 34, 97, 108, 103, 34, 58, 34, 72, 83, 50, 53, 54, 34, 44, 34, 116, 121, 112, 34,
        58, 34, 74, 87, 84, 34, 125,
    ];
    assert(b@ =~= jwt_header());
    b
}

/// The signature part for the signing input `input`: base64 of its HMAC-SHA256.
pub open spec fn jwt_signature(key: Seq<u8>, input: Seq<u8>) -> Seq<u8> {
    b64url_text(hmac_sha256_tag(key, input))
}

/// The first two parts of a token for `payload`: header and payload in base64.
pub open spec fn jwt_signing_input(payload: Seq<u8>) -> Seq<u8> {
    b64url_text(jwt_header()) + seq![46u8] + b64url_text(payload)
}

/// The token for `payload` under `key`.
pub open spec fn jwt_token(key: Seq<u8>, payload: Seq<u8>) -> Seq<u8> {
    jwt_signing_input(payload) + seq![46u8] + jwt_signature(key, jwt_signing_input(payload))
}

/// The positions of the first two dots of `t`.
pub open spec fn jwt_dots(t: Seq<u8>) -> Option<(int, int)> {
    match find_byte(t, 46, 0) {
        Some(i1) => match find_byte(t, 46, i1 + 1) {
            Some(i2) => Some((i1, i2)),
            None => None,
        },
        None => None,
    }
}

/// What reading the token bytes `t` gives, with the signature checked when
/// `key` is given: `InvalidFormat` with the number of parts unless there are
/// three, then `InvalidSignature`, then `InvalidBase64`, else the payload.
pub open spec fn jwt_read(key: Option<Seq<u8>>, t: Seq<u8>) -> Result<Seq<u8>, JwtError> {
    let n = count_byte(t, 46);
    if n != 2 {
        Err(JwtError::InvalidFormat((n + 1) as usize))
    } else {
        match jwt_dots(t) {
            None => Err(JwtError::InvalidFormat(3)),
            Some((i1, i2)) => {
                if key matches Some(k) && jwt_signature(k, t.subrange(0, i2)) != t.subrange(
                    i2 + 1,
                    t.len() as int,
                ) {
                    Err(JwtError::InvalidSignature)
                } else {
                    match b64url_decoded(t.subrange(i1 + 1, i2)) {
                        None => Err(JwtError::InvalidBase64),
                        Some(p) => Ok(p),
                    }
                }
            },
        }
    }
}

/// HS256 signer and verifier with a fixed key.
#[derive(Debug, Clone)]
pub struct JwtSigner {
    key: Vec<u8>,
}

impl View for JwtSigner {
    type V = Seq<u8>;

    closed spec fn view(&self) -> Seq<u8> {
        self.key@
    }
}

/// Append all of `src` to `out`.
fn append(out: &mut Vec<u8>, src: &[u8])
    ensures
        final(out)@ == old(out)@ + src@,
{
    let mut k: usize = 0;
    while k < src.len()
        invariant
            k <= src@.len(),
            out@ == old(out)@ + src@.take(k as int),
        decreases src@.len() - k,
    {
        out.push(src[k]);
        k = k + 1;
        assert(out@ =~= old(out)@ + src@.take(k as int));
    }
    assert(src@.take(k as int) =~= src@);
}

/// The bytes `b[start..end]`.
fn slice_range(b: &[u8], start: usize, end: usize) -> (r: &[u8])
    requires
        start <= end <= b@.len(),
    ensures
        r@ == b@.subrange(start as int, end as int),
{
    let (head, _) = b.split_at(end);
    let (_, tail) = head.split_at(start);
    assert(tail@ =~= b@.subrange(start as int, end as int));
    tail
}

impl JwtSigner {
    /// A signer with `key`.
    pub fn new(key: &[u8]) -> (s: JwtSigner)
        ensures
            s@ == key@,
    {
        let mut k: Vec<u8> = Vec::new();
        append(&mut k, key);
        JwtSigner { key: k }
    }

    /// The signature part for `data`.
    fn sign(&self, data: &[u8]) -> (sig: Vec<u8>)
        ensures
            sig@ == jwt_signature(self@, data@),
            forall|i: int| 0 <= i < sig@.len() ==> is_b64url_byte(#[trigger] sig@[i]),
    {
        let tag = hmac_sha256(self.key.as_slice(), data);
        b64url_encode(tag.as_slice())
    }

    /// A signed token carrying `payload` (the JSON of the claims). Reading it
    /// back with the same key gives the payload.
    pub fn encode(&self, payload: &str) -> (token: String)
        requires
            b64_len(encode_utf8(payload@).len()) + 100 <= usize::MAX,
        ensures
            token@ == ascii_chars(jwt_token(self@, encode_utf8(payload@))),
            jwt_read(Some(self@), jwt_token(self@, encode_utf8(payload@))) == Ok::<
                Seq<u8>,
                JwtError,
            >(encode_utf8(payload@)),
            jwt_read(None, jwt_token(self@, encode_utf8(payload@))) == Ok::<Seq<u8>, JwtError>(
                encode_utf8(payload@),
            ),
    {
        let header = jwt_header_bytes();
        proof {
            assert(jwt_header().len() == 27);
        }
        let h = b64url_encode(header.as_slice());
        let p = b64url_encode(payload.as_bytes());
        let mut input: Vec<u8> = Vec::new();
        append(&mut input, h.as_slice());
        input.push(46);
        append(&mut input, p.as_slice());
        let sig = self.sign(input.as_slice());
        let mut token: Vec<u8> = Vec::new();
        append(&mut token, input.as_slice());
        token.push(46);
        append(&mut token, sig.as_slice());
        proof {
            let pl = encode_utf8(payload@);
            assert(input@ =~= jwt_signing_input(pl));
            assert(token@ =~= jwt_token(self@, pl));
            lemma_token_reads_back(h@, p@, sig@, self@, pl);
            assert forall|i: int| 0 <= i < token@.len() implies #[trigger] token@[i] < 128 by {
                let t = token@;
                if i < h@.len() {
                    assert(t[i] == h@[i]);
                } else if i == h@.len() {
                } else if i < h@.len() + 1 + p@.len() {
                    assert(t[i] == p@[i - h@.len() - 1]);
                } else if i == h@.len() + 1 + p@.len() {
                } else {
                    assert(t[i] == sig@[i - h@.len() - 2 - p@.len()]);
                }
            }
        }
        ascii_to_string(token)
    }

    /// Check the signature of `token` and return its payload bytes.
    pub fn decode(&self, token: &str) -> (r: Result<Vec<u8>, JwtError>)
        requires
            encode_utf8(token@).len() < usize::MAX,
        ensures
            match jwt_read(Some(self@), encode_utf8(token@)) {
                Ok(p) => r matches Ok(v) && v@ == p,
                Err(e) => r == Err::<Vec<u8>, JwtError>(e),
            },
    {
        self.read(token, true)
    }

    /// Return the payload bytes of `token` without checking its signature.
    pub fn decode_unverified(&self, token: &str) -> (r: Result<Vec<u8>, JwtError>)
        requires
            encode_utf8(token@).len() < usize::MAX,
        ensures
            match jwt_read(None, encode_utf8(token@)) {
                Ok(p) => r matches Ok(v) && v@ == p,
                Err(e) => r == Err::<Vec<u8>, JwtError>(e),
            },
    {
        self.read(token, false)
    }

    fn read(&self, token: &str, check: bool) -> (r: Result<Vec<u8>, JwtError>)
        requires
            encode_utf8(token@).len() < usize::MAX,
        ensures
            match jwt_read(if check { Some(self@) } else { None }, encode_utf8(token@)) {
                Ok(p) => r matches Ok(v) && v@ == p,
                Err(e) => r == Err::<Vec<u8>, JwtError>(e),
            },
    {
        let t = token.as_bytes();
        let n = count_byte_exec(t, 46);
        if n != 2 {
            return Err(JwtError::InvalidFormat(n + 1));
        }
        let i1 = match find_byte_from(t, 46, 0) {
            Some(i) => i,
            None => return Err(JwtError::InvalidFormat(3)),
        };
        let i2 = match find_byte_from(t, 46, i1 + 1) {
            Some(i) => i,
            None => return Err(JwtError::InvalidFormat(3)),
        };
        if check {
            let expected = self.sign(slice_range(t, 0, i2));
            let given = slice_range(t, i2 + 1, t.len());
            if !constant_time_eq(expected.as_slice(), given) {
                return Err(JwtError::InvalidSignature);
            }
        }
        match b64url_decode(slice_range(t, i1 + 1, i2)) {
            None => Err(JwtError::InvalidBase64),
            Some(p) => Ok(p),
        }
    }
}

/// A token assembled from base64 parts (which hold no dot) reads back as
/// the payload, with or without the key.
proof fn lemma_token_reads_back(h: Seq<u8>, p: Seq<u8>, sig: Seq<u8>, key: Seq<u8>, payload: Seq<u8>)
    requires
        h == b64url_text(jwt_header()),
        p == b64url_text(payload),
        sig == jwt_signature(key, jwt_signing_input(payload)),
        b64url_decoded(p) == Some(payload),
        forall|i: int| 0 <= i < h.len() ==> is_b64url_byte(#[trigger] h[i]),
        forall|i: int| 0 <= i < p.len() ==> is_b64url_byte(#[trigger] p[i]),
        forall|i: int| 0 <= i < sig.len() ==> is_b64url_byte(#[trigger] sig[i]),
    ensures
        jwt_read(Some(key), jwt_token(key, payload)) == Ok::<Seq<u8>, JwtError>(payload),
        jwt_read(None, jwt_token(key, payload)) == Ok::<Seq<u8>, JwtError>(payload),
{
    let t = jwt_token(key, payload);
    let input = jwt_signing_input(payload);
    assert(input =~= h + seq![46u8] + p);
    assert(t =~= h + seq![46u8] + p + seq![46u8] + sig);
    let i1 = h.len() as int;
    let i2 = i1 + 1 + p.len();
    lemma_count_byte_none(h, 46);
    lemma_count_byte_none(p, 46);
    lemma_count_byte_none(sig, 46);
    assert(count_byte(seq![46u8], 46) == 1) by {
        let one = seq![46u8];
        assert(one.drop_last() =~= Seq::<u8>::empty());
        assert(count_byte(one.drop_last(), 46) == 0);
        assert(one.last() == 46);
    }
    lemma_count_byte_concat(h, seq![46u8], 46);
    lemma_count_byte_concat(h + seq![46u8], p, 46);
    lemma_count_byte_concat(h + seq![46u8] + p, seq![46u8], 46);
    lemma_count_byte_concat(h + seq![46u8] + p + seq![46u8], sig, 46);
    assert forall|i: int| 0 <= i < i1 implies #[trigger] t[i] != 46 by {
        assert(t[i] == h[i]);
    }
    assert forall|i: int| i1 + 1 <= i < i2 implies #[trigger] t[i] != 46 by {
        assert(t[i] == p[i - i1 - 1]);
    }
    lemma_find_byte_at(t, 46, 0, i1);
    lemma_find_byte_at(t, 46, i1 + 1, i2);
    assert(t.subrange(0, i2) =~= input);
    assert(t.subrange(i2 + 1, t.len() as int) =~= sig);
    assert(t.subrange(i1 + 1, i2) =~= p);
}

} // verus!
