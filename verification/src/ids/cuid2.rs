//! CUID2: 24 lowercase letters and digits, from a SHA3-256 digest of the
//! time, a counter, a host fingerprint and random bytes.

use vstd::prelude::*;
use vstd::utf8::*;

use super::ulid::{be_value, lemma_be_bound, lemma_pow256_mono, pow256};
use super::IdError;
use crate::crypto::{sha3_256, sha3_256_digest};
use crate::entropy::{random_bytes, unix_time_ms};
use crate::text::{ascii_chars, ascii_to_string, is_ascii_bytes, lemma_ascii_utf8};

verus! {

/// The base-36 digit `d` (0 to 35): `0-9` then `a-z`.
pub open spec fn base36_digit(d: nat) -> u8 {
    if d < 10 {
        (48 + d) as u8
    } else {
        (97 + d - 10) as u8
    }
}

/// The last `len` base-36 digits of `n`, most significant first (leading zeros kept).
pub open spec fn base36_fixed(n: nat, len: nat) -> Seq<u8>
    decreases len,
{
    if len == 0 {
        Seq::empty()
    } else {
        base36_fixed(n / 36, (len - 1) as nat).push(base36_digit(n % 36))
    }
}

/// The last `k` bytes of `n`, most significant first.
pub open spec fn be_bytes(n: nat, k: nat) -> Seq<u8>
    decreases k,
{
    if k == 0 {
        Seq::empty()
    } else {
        be_bytes(n / 256, (k - 1) as nat).push((n % 256) as u8)
    }
}

/// A lowercase ASCII letter.
pub open spec fn is_lower_byte(b: u8) -> bool {
    97 <= b <= 122
}

/// An ASCII letter of either case.
pub open spec fn is_alpha_byte(b: u8) -> bool {
    (65 <= b <= 90) || (97 <= b <= 122)
}

/// A lowercase ASCII letter or an ASCII digit.
pub open spec fn is_lower_or_digit_byte(b: u8) -> bool {
    is_lower_byte(b) || (48 <= b <= 57)
}

/// The bytes of a CUID2: 24 lowercase letters and digits, the first a letter.
pub open spec fn is_cuid2_bytes(b: Seq<u8>) -> bool {
    &&& b.len() == 24
    &&& is_lower_byte(b[0])
    &&& forall|i: int| 0 <= i < 24 ==> is_lower_or_digit_byte(#[trigger] b[i])
}

/// How `Cuid2::from_str` judges the UTF-8 bytes of a string: the length, then
/// the first character, then every character.
pub open spec fn cuid2_check(b: Seq<u8>) -> Result<(), IdError> {
    if b.len() != 24 {
        Err(IdError::InvalidFormat("cuid2", "expected 24 chars"))
    } else if !is_alpha_byte(b[0]) {
        Err(IdError::InvalidFormat("cuid2", "must start with a letter"))
    } else if exists|i: int| 0 <= i < 24 && !is_lower_or_digit_byte(#[trigger] b[i]) {
        Err(IdError::InvalidFormat("cuid2", "only lowercase letters and digits"))
    } else {
        Ok(())
    }
}

/// The bytes a CUID2 is made from: the time in milliseconds (16 bytes), the
/// counter (8 bytes), the fingerprint and the random bytes.
pub open spec fn cuid2_input(ts: u128, count: u64, fingerprint: Seq<u8>, random: Seq<u8>) -> Seq<u8> {
    be_bytes(ts as nat, 16) + be_bytes(count as nat, 8) + fingerprint + random
}

/// The CUID2 bytes for a digest: a letter chosen by byte 16, then the first
/// 16 bytes as a number written in 23 base-36 digits.
pub open spec fn cuid2_of_digest(h: Seq<u8>) -> Seq<u8> {
    seq![(97 + h[16] % 26) as u8] + base36_fixed(be_value(h.take(16)), 23)
}

/// The last `length` base-36 digits of `n`, most significant first.
pub fn encode_base36_fixed(n: u128, length: usize) -> (digits: Vec<u8>)
    ensures
        digits@ == base36_fixed(n as nat, length as nat),
    decreases length,
{
    if length == 0 {
        return Vec::new();
    }
    let mut digits = encode_base36_fixed(n / 36, length - 1);
    let d = n % 36;
    let c: u8 = if d < 10 { 48 + d as u8 } else { 97 + (d - 10) as u8 };
    digits.push(c);
    digits
}

/// Append the last `k` bytes of `n`, most significant first.
fn push_be(n: u128, k: usize, out: &mut Vec<u8>)
    ensures
        final(out)@ == old(out)@ + be_bytes(n as nat, k as nat),
    decreases k,
{
    if k == 0 {
        assert(out@ =~= old(out)@ + be_bytes(n as nat, 0));
        return;
    }
    push_be(n / 256, k - 1, out);
    out.push((n % 256) as u8);
    assert(out@ =~= old(out)@ + be_bytes(n as nat, k as nat));
}

/// The per-process part of CUID2 generation: a counter and a fingerprint.
pub struct Cuid2Context {
    counter: u64,
    fingerprint: Vec<u8>,
}

impl Cuid2Context {
    /// A context for process `pid`: counter 0, fingerprint the SHA3-256 of the
    /// process id (little-endian) and 24 random bytes.
    pub fn new(pid: u32) -> (ctx: Cuid2Context)
        ensures
            ctx.counter() == 0,
            exists|rnd: Seq<u8>|
                rnd.len() == 24 && ctx.fingerprint() == sha3_256_digest(
                    #[trigger] (be_bytes(pid as nat, 4).reverse() + rnd),
                ),
    {
        let mut input: Vec<u8> = Vec::new();
        push_be(pid as u128, 4, &mut input);
        proof {
            lemma_be_bytes_len(pid as nat, 4);
        }
        let mut le: Vec<u8> = Vec::new();
        let mut i: usize = 4;
        while i > 0
            invariant
                i <= 4,
                input@ == be_bytes(pid as nat, 4),
                input@.len() == 4,
                le@ == input@.subrange(i as int, 4).reverse(),
            decreases i,
        {
            i = i - 1;
            le.push(input[i]);
            assert(le@ =~= input@.subrange(i as int, 4).reverse());
        }
        assert(input@.subrange(0, 4) =~= input@);
        let rnd = random_bytes(24);
        let mut k: usize = 0;
        while k < rnd.len()
            invariant
                k <= rnd@.len(),
                le@ == be_bytes(pid as nat, 4).reverse() + rnd@.take(k as int),
            decreases rnd@.len() - k,
        {
            le.push(rnd[k]);
            k = k + 1;
            assert(le@ =~= be_bytes(pid as nat, 4).reverse() + rnd@.take(k as int));
        }
        assert(rnd@.take(k as int) =~= rnd@);
        let fingerprint = sha3_256(le.as_slice());
        Cuid2Context { counter: 0, fingerprint }
    }

    /// The next counter value to be used.
    pub closed spec fn counter(&self) -> u64 {
        self.counter
    }

    /// The fingerprint mixed into every identifier.
    pub closed spec fn fingerprint(&self) -> Seq<u8> {
        self.fingerprint@
    }
}

/// A CUID2 identifier: 24 lowercase letters and digits starting with a letter.
#[derive(Debug, PartialEq, Eq, Hash)]
pub struct Cuid2(String);

impl View for Cuid2 {
    type V = Seq<char>;

    closed spec fn view(&self) -> Seq<char> {
        self.0@
    }
}

impl Clone for Cuid2 {
    fn clone(&self) -> (r: Self)
        ensures
            r@ == self@,
    {
        proof {
            use_type_invariant(self);
        }
        Cuid2(self.0.clone())
    }
}

impl Cuid2 {
    #[verifier::type_invariant]
    spec fn well_formed(&self) -> bool {
        is_cuid2_bytes(encode_utf8(self.0@))
    }

    /// The CUID2 that a 32-byte digest stands for.
    pub fn from_digest(hash: &[u8]) -> (id: Cuid2)
        requires
            hash@.len() == 32,
        ensures
            id@ == ascii_chars(cuid2_of_digest(hash@)),
    {
        let mut n: u128 = 0;
        let mut i: usize = 0;
        while i < 16
            invariant
                i <= 16,
                hash@.len() == 32,
                n == be_value(hash@.take(i as int)),
            decreases 16 - i,
        {
            proof {
                let t = hash@.take(i + 1);
                assert(t.drop_last() =~= hash@.take(i as int));
                lemma_be_bound(t);
                assert(pow256(16) == 0x1_0000_0000_0000_0000_0000_0000_0000_0000) by {
                    reveal_with_fuel(pow256, 17);
                }
                lemma_pow256_mono((i + 1) as nat, 16);
            }
            n = n * 256 + hash[i] as u128;
            i = i + 1;
        }
        let mut bytes: Vec<u8> = Vec::new();
        bytes.push(97 + hash[16] % 26);
        let body = encode_base36_fixed(n, 23);
        let mut k: usize = 0;
        while k < body.len()
            invariant
                k <= body@.len(),
                bytes@ == seq![(97 + hash@[16] % 26) as u8] + body@.take(k as int),
            decreases body@.len() - k,
        {
            bytes.push(body[k]);
            k = k + 1;
            assert(bytes@ =~= seq![(97 + hash@[16] % 26) as u8] + body@.take(k as int));
        }
        assert(body@.take(k as int) =~= body@);
        proof {
            lemma_cuid2_of_digest(hash@);
        }
        let s = ascii_to_string(bytes);
        proof {
            lemma_ascii_utf8(cuid2_of_digest(hash@));
        }
        Cuid2(s)
    }

    /// A new CUID2 from the current time, the context's counter (which then
    /// moves on by one, wrapping), its fingerprint and 32 random bytes.
    pub fn generate(ctx: &mut Cuid2Context) -> (id: Cuid2)
        ensures
            final(ctx).counter() == old(ctx).counter().wrapping_add(1),
            final(ctx).fingerprint() == old(ctx).fingerprint(),
            exists|ts: u128, rnd: Seq<u8>|
                rnd.len() == 32 && id@ == ascii_chars(
                    cuid2_of_digest(
                        sha3_256_digest(
                            #[trigger] cuid2_input(ts, old(ctx).counter(), old(ctx).fingerprint(), rnd),
                        ),
                    ),
                ),
    {
        let ts = unix_time_ms();
        let count = ctx.counter;
        ctx.counter = ctx.counter.wrapping_add(1);
        let rnd = random_bytes(32);
        let mut input: Vec<u8> = Vec::new();
        push_be(ts, 16, &mut input);
        push_be(count as u128, 8, &mut input);
        append_bytes(&mut input, ctx.fingerprint.as_slice());
        append_bytes(&mut input, rnd.as_slice());
        assert(input@ =~= cuid2_input(ts, count, ctx.fingerprint@, rnd@));
        let hash = sha3_256(input.as_slice());
        proof {
            assert(hash@.len() == 32);
        }
        Self::from_digest(hash.as_slice())
    }

    /// The text of the identifier.
    pub fn as_str(&self) -> (s: &str)
        ensures
            s@ == self@,
            is_cuid2_bytes(encode_utf8(s@)),
    {
        proof {
            use_type_invariant(self);
        }
        self.0.as_str()
    }

    /// The text of the identifier.
    pub fn to_string(&self) -> (s: String)
        ensures
            s@ == self@,
    {
        self.0.clone()
    }

    /// Parse a CUID2: 24 bytes, a letter first, only lowercase letters and digits.
    pub fn from_str(s: &str) -> (r: Result<Cuid2, IdError>)
        ensures
            match cuid2_check(encode_utf8(s@)) {
                Ok(_) => r matches Ok(id) && id@ == s@,
                Err(e) => r == Err::<Cuid2, IdError>(e),
            },
    {
        let b = s.as_bytes();
        if b.len() != 24 {
            return Err(IdError::InvalidFormat("cuid2", "expected 24 chars"));
        }
        let first = b[0];
        if !((65 <= first && first <= 90) || (97 <= first && first <= 122)) {
            return Err(IdError::InvalidFormat("cuid2", "must start with a letter"));
        }
        let mut i: usize = 0;
        while i < 24
            invariant
                i <= 24,
                b@.len() == 24,
                b@ == encode_utf8(s@),
                is_alpha_byte(b@[0]),
                forall|j: int| 0 <= j < i ==> is_lower_or_digit_byte(#[trigger] b@[j]),
            decreases 24 - i,
        {
            let c = b[i];
            if !((97 <= c && c <= 122) || (48 <= c && c <= 57)) {
                assert(!is_lower_or_digit_byte(b@[i as int]));
                return Err(IdError::InvalidFormat("cuid2", "only lowercase letters and digits"));
            }
            i = i + 1;
        }
        assert(is_cuid2_bytes(b@));
        Ok(Cuid2(s.to_owned()))
    }
}

/// Every CUID2's text is accepted by `Cuid2::from_str`, which gives the same
/// identifier back.
pub proof fn lemma_cuid2_text_accepted(b: Seq<u8>)
    requires
        is_cuid2_bytes(b),
    ensures
        cuid2_check(b) == Ok::<(), IdError>(()),
{
}

/// Append all of `src` to `out`.
fn append_bytes(out: &mut Vec<u8>, src: &[u8])
    ensures
        final(out)@ == old(out)@ + src@,
{
    let mut k: usize = 0;
    while k < src.len()
        invariant
            k <= src@.len(),
            out@ == old(out)@ + src@.take(k as int),
        decreases src@.len() - k,
    {
        out.push(src[k]);
        k = k + 1;
        assert(out@ =~= old(out)@ + src@.take(k as int));
    }
    assert(src@.take(k as int) =~= src@);
}

/// `be_bytes(n, k)` has `k` bytes.
proof fn lemma_be_bytes_len(n: nat, k: nat)
    ensures
        be_bytes(n, k).len() == k,
    decreases k,
{
    if k > 0 {
        lemma_be_bytes_len(n / 256, (k - 1) as nat);
    }
}

/// The bytes of a digest's CUID2 are a CUID2 text of ASCII bytes.
proof fn lemma_cuid2_of_digest(h: Seq<u8>)
    requires
        h.len() == 32,
    ensures
        is_cuid2_bytes(cuid2_of_digest(h)),
        is_ascii_bytes(cuid2_of_digest(h)),
{
    let body = base36_fixed(be_value(h.take(16)), 23);
    lemma_base36_fixed_chars(be_value(h.take(16)), 23);
    let b = cuid2_of_digest(h);
    assert forall|i: int| 0 <= i < 24 implies is_lower_or_digit_byte(#[trigger] b[i]) && b[i]
        < 128 by {
        if i > 0 {
            assert(b[i] == body[i - 1]);
        }
    }
}

/// Base-36 digits are lowercase letters and digits.
proof fn lemma_base36_fixed_chars(n: nat, len: nat)
    ensures
        base36_fixed(n, len).len() == len,
        forall|i: int|
            0 <= i < len ==> is_lower_or_digit_byte(#[trigger] base36_fixed(n, len)[i]),
    decreases len,
{
    if len > 0 {
        lemma_base36_fixed_chars(n / 36, (len - 1) as nat);
    }
}

} // verus!
