//! Bcrypt hashing through the `bcrypt` crate.

use vstd::prelude::*;
use vstd::utf8::{encode_utf8, is_ascii_chars, is_ascii_chars_encode_utf8};

use crate::hash::config::BcryptConfig;
use crate::hash::error::HashError;
use crate::text::{all_digits, digits_value, find_byte, find_byte_from, parse_u32, parse_unsigned_spec};

verus! {

/// The ASCII digit for `d` (0 to 9).
pub open spec fn digit_char(d: int) -> char {
    (48 + d) as char
}

/// A bcrypt hash as `bcrypt::hash` writes it: 60 ASCII characters,
/// `$2b$`, the cost as two digits, `$`, then salt and digest.
pub open spec fn bcrypt_text(s: Seq<char>, cost: u32) -> bool {
    &&& s.len() == 60
    &&& is_ascii_chars(s)
    &&& s[0] == '$'
    &&& s[1] == '2'
    &&& s[2] == 'b'
    &&& s[3] == '$'
    &&& s[4] == digit_char((cost / 10) as int)
    &&& s[5] == digit_char((cost % 10) as int)
    &&& s[6] == '$'
}

/// What `bcrypt::verify(password, hash)` returns: whether the password
/// matches, or `None` when it reports an error (a malformed hash).
pub uninterp spec fn bcrypt_verdict(password: Seq<char>, hash: Seq<char>) -> Option<bool>;

/// `bcrypt::hash(password, cost)`, with a random salt. It fails for a cost
/// outside 4 to 31 (and when the system's randomness fails); a hash it
/// returns has the form `bcrypt_text` for that cost and verifies the
/// password. The error message is left unsaid.
#[verifier::external_body]
fn bcrypt_hash(password: &str, cost: u32) -> (r: Result<String, String>)
    ensures
        !(4 <= cost <= 31) ==> r is Err,
        r matches Ok(h) ==> 4 <= cost <= 31 && bcrypt_text(h@, cost) && bcrypt_verdict(
            password@,
            h@,
        ) == Some(true),
{
    bcrypt::hash(password, cost).map_err(|e| e.to_string())
}

/// `bcrypt::verify(password, hash)`: the result named `bcrypt_verdict`, its
/// error as a message.
#[verifier::external_body]
fn bcrypt_check(password: &str, hash: &str) -> (r: Result<bool, String>)
    ensures
        match bcrypt_verdict(password@, hash@) {
            Some(b) => r == Ok::<bool, String>(b),
            None => r is Err,
        },
{
    bcrypt::verify(password, hash).map_err(|e| e.to_string())
}

/// The third `$`-separated field of `b` (as `splitn(4, '$')` yields it), if any.
pub open spec fn third_dollar_field(b: Seq<u8>) -> Option<Seq<u8>> {
    match find_byte(b, 36, 0) {
        None => None,
        Some(i1) => match find_byte(b, 36, i1 + 1) {
            None => None,
            Some(i2) => {
                let end = match find_byte(b, 36, i2 + 1) {
                    Some(i3) => i3,
                    None => b.len() as int,
                };
                Some(b.subrange(i2 + 1, end))
            },
        },
    }
}

/// The cost a bcrypt hash claims: its third `$`-field read as a `u32`, or 0.
pub open spec fn bcrypt_stored_cost(b: Seq<u8>) -> u32 {
    match third_dollar_field(b) {
        Some(f) => match parse_unsigned_spec(f, u32::MAX as nat) {
            Some(v) => v as u32,
            None => 0,
        },
        None => 0,
    }
}

/// The third `$`-field of `b`, as a pair of positions.
fn third_field_bounds(b: &[u8]) -> (r: Option<(usize, usize)>)
    ensures
        match third_dollar_field(b@) {
            Some(f) => r matches Some((s, e)) && s <= e <= b@.len() && f == b@.subrange(
                s as int,
                e as int,
            ),
            None => r is None,
        },
{
    let i1 = match find_byte_from(b, 36, 0) {
        Some(i) => i,
        None => return None,
    };
    let i2 = match find_byte_from(b, 36, i1 + 1) {
        Some(i) => i,
        None => return None,
    };
    let end = match find_byte_from(b, 36, i2 + 1) {
        Some(i) => i,
        None => b.len(),
    };
    Some((i2 + 1, end))
}

/// A bcrypt hash written for `cost` claims that cost.
pub proof fn lemma_bcrypt_text_cost(s: Seq<char>, cost: u32)
    requires
        4 <= cost <= 31,
        bcrypt_text(s, cost),
    ensures
        bcrypt_stored_cost(encode_utf8(s)) == cost,
{
    is_ascii_chars_encode_utf8(s);
    let b = encode_utf8(s);
    assert(b[0] == 36u8);
    assert(b[1] == 50u8);
    assert(b[2] == 98u8);
    assert(b[3] == 36u8);
    assert(b[4] == (48 + cost / 10) as u8);
    assert(b[5] == (48 + cost % 10) as u8);
    assert(b[6] == 36u8);
    assert(find_byte(b, 36, 0) == Some(0int));
    assert(find_byte(b, 36, 3) == Some(3int));
    assert(find_byte(b, 36, 2) == Some(3int));
    assert(find_byte(b, 36, 1) == Some(3int));
    assert(find_byte(b, 36, 6) == Some(6int));
    assert(find_byte(b, 36, 5) == Some(6int));
    assert(find_byte(b, 36, 4) == Some(6int));
    let f = b.subrange(4, 6);
    assert(third_dollar_field(b) == Some(f));
    let g = seq![f[0]];
    assert(f.drop_last() =~= g);
    assert(g.drop_last() =~= Seq::<u8>::empty());
    assert(digits_value(g.drop_last()) == 0);
    assert(g.last() == b[4]);
    assert(all_digits(f));
    assert(digits_value(g) == cost / 10);
    assert(f.last() == f[1]);
    assert(digits_value(f) == (cost / 10) * 10 + cost % 10);
}

/// Bcrypt hashing with a fixed cost.
pub(crate) struct BcryptDriver {
    pub(crate) config: BcryptConfig,
}

impl BcryptDriver {
    pub(crate) fn new(config: BcryptConfig) -> (d: BcryptDriver)
        ensures
            d.config == config,
    {
        BcryptDriver { config }
    }

    /// Hash `password` with a fresh salt at the configured cost: an error for a
    /// cost outside 4 to 31; a hash in bcrypt form for that cost that accepts
    /// the password when it succeeds.
    pub(crate) fn hash(&self, password: &str) -> (r: Result<String, HashError>)
        ensures
            !(4 <= self.config.cost <= 31) ==> r matches Err(HashError::HashFailed(_)),
            r matches Ok(h) ==> bcrypt_text(h@, self.config.cost) && bcrypt_verdict(password@, h@)
                == Some(true),
            r is Err ==> r matches Err(HashError::HashFailed(_)),
    {
        match bcrypt_hash(password, self.config.cost) {
            Ok(h) => Ok(h),
            Err(msg) => Err(HashError::hash_failed(msg)),
        }
    }

    /// Check `password` against `hash`: whether it matches, or `HashFailed`
    /// when bcrypt rejects the hash.
    pub(crate) fn verify(&self, password: &str, hash: &str) -> (r: Result<bool, HashError>)
        ensures
            match bcrypt_verdict(password@, hash@) {
                Some(b) => r == Ok::<bool, HashError>(b),
                None => r matches Err(HashError::HashFailed(_)),
            },
    {
        match bcrypt_check(password, hash) {
            Ok(b) => Ok(b),
            Err(msg) => Err(HashError::hash_failed(msg)),
        }
    }

    /// Whether `hash` claims a lower cost than the configured one (a hash
    /// whose cost cannot be read counts as cost 0).
    pub(crate) fn needs_rehash(&self, hash: &str) -> (r: bool)
        ensures
            r == (bcrypt_stored_cost(encode_utf8(hash@)) < self.config.cost),
    {
        let b = hash.as_bytes();
        let stored: u32 = match third_field_bounds(b) {
            Some((s, e)) => {
                let field = slice_range(b, s, e);
                match parse_u32(field) {
                    Some(v) => v,
                    None => 0,
                }
            },
            None => 0,
        };
        stored < self.config.cost
    }
}

/// The bytes `b[start..end]`.
fn slice_range(b: &[u8], start: usize, end: usize) -> (r: &[u8])
    requires
        start <= end <= b@.len(),
    ensures
        r@ == b@.subrange(start as int, end as int),
{
    let (head, _) = b.split_at(end);
    let (_, tail) = head.split_at(start);
    assert(tail@ =~= b@.subrange(start as int, end as int));
    tail
}

} // verus!
