//! Time-based one-time passwords (RFC 6238) with HMAC-SHA256 and six digits.

use vstd::prelude::*;
use vstd::slice::slice_to_vec;
use vstd::utf8::encode_utf8;

use crate::crypto::{hmac_sha256, hmac_sha256_tag};
use crate::entropy::unix_time_secs;
use crate::text::{all_digits, ascii_chars, ascii_to_string, is_ascii_bytes, lemma_ascii_utf8};

verus! {

/// Default time step in seconds.
pub const TOTP_DEFAULT_INTERVAL: u64 = 30;

/// A TOTP generator: a shared secret and a time step in seconds.
#[derive(Debug, Clone)]
pub struct TOTP {
    pub secret: Vec<u8>,
    pub interval: u64,
}

/// Why a code was rejected before it was compared.
#[derive(Debug, Clone, PartialEq, Eq, Structural)]
pub enum TOTPError {
    InvalidLength(usize),
    NonDigit,
}

/// The eight bytes of `n`, most significant first.
pub open spec fn be_bytes(n: u64) -> Seq<u8> {
    Seq::new(8, |i: int| ((n >> ((56 - 8 * i) as u64)) & 0xff) as u8)
}

/// Dynamic truncation (RFC 4226, 5.3) of a 32-byte tag: four bytes from the
/// offset in the low nibble of the last byte, top bit cleared.
pub open spec fn truncate_tag(tag: Seq<u8>) -> u32 {
    let off = (tag[31] & 0x0f) as int;
    ((((tag[off] & 0x7f) as u32) << 24u32) | ((tag[off + 1] as u32) << 16u32) | ((tag[off + 2]
        as u32) << 8u32) | (tag[off + 3] as u32)) as u32
}

/// The six decimal digits of `v` (`v < 1_000_000`), with leading zeros.
pub open spec fn six_digits(v: u32) -> Seq<u8> {
    Seq::new(6, |i: int| (48 + (v as int / (pow10((5 - i) as nat) as int)) % 10) as u8)
}

/// `10^n`.
pub open spec fn pow10(n: nat) -> nat
    decreases n,
{
    if n == 0 {
        1
    } else {
        10 * pow10((n - 1) as nat)
    }
}

/// The code for `counter` under `secret`, as ASCII bytes.
pub open spec fn totp_code(secret: Seq<u8>, counter: u64) -> Seq<u8> {
    six_digits(truncate_tag(hmac_sha256_tag(secret, be_bytes(counter))) % 1_000_000)
}

/// A code is checked only when it is six bytes, all ASCII digits.
pub open spec fn well_formed_code(code: Seq<char>) -> bool {
    encode_utf8(code).len() == 6 && all_digits(encode_utf8(code))
}

/// Some counter in `lo..=hi` has `code` as its code.
pub open spec fn matches_in(secret: Seq<u8>, code: Seq<char>, lo: int, hi: int) -> bool {
    exists|c: u64| lo <= c <= hi && code == ascii_chars(#[trigger] totp_code(secret, c))
}

fn be8(n: u64) -> (b: Vec<u8>)
    ensures
        b@ == be_bytes(n),
{
    let mut b: Vec<u8> = Vec::new();
    let mut i: u64 = 0;
    while i < 8
        invariant
            i <= 8,
            b@ == be_bytes(n).take(i as int),
        decreases 8 - i,
    {
        b.push(((n >> (56 - 8 * i)) & 0xff) as u8);
        i = i + 1;
        assert(b@ =~= be_bytes(n).take(i as int));
    }
    assert(b@ =~= be_bytes(n));
    b
}

proof fn lemma_six_digits_ascii(v: u32)
    ensures
        is_ascii_bytes(six_digits(v)),
        all_digits(six_digits(v)),
        six_digits(v).len() == 6,
{
    assert forall|i: int| 0 <= i < 6 implies 48 <= #[trigger] six_digits(v)[i] <= 57 by {
        let p = pow10((5 - i) as nat);
        assert(p > 0) by {
            lemma_pow10_pos((5 - i) as nat);
        }
        assert(0 <= (v as int / (p as int)) % 10 < 10);
    }
}

proof fn lemma_pow10_pos(n: nat)
    ensures
        pow10(n) > 0,
    decreases n,
{
    if n > 0 {
        lemma_pow10_pos((n - 1) as nat);
    }
}

impl TOTP {
    /// A generator for `secret` and a time step of `interval` seconds.
    pub fn new(secret: &[u8], interval: u64) -> (t: TOTP)
        ensures
            t.secret@ == secret@,
            t.interval == interval,
    {
        TOTP { secret: slice_to_vec(secret), interval }
    }

    /// The six-digit code for `counter`: HMAC-SHA256 of the counter's eight
    /// big-endian bytes, dynamically truncated, modulo 10^6, zero-padded.
    pub fn generate(&self, counter: u64) -> (code: String)
        ensures
            code@ == ascii_chars(totp_code(self.secret@, counter)),
    {
        let msg = be8(counter);
        let tag = hmac_sha256(self.secret.as_slice(), msg.as_slice());
        let last = tag[31];
        proof {
            assert(last & 0x0f <= 15) by (bit_vector);
        }
        let off = (last & 0x0f) as usize;
        let v: u32 = ((tag[off] & 0x7f) as u32) << 24 | ((tag[off + 1] as u32) << 16) | ((tag[off
            + 2] as u32) << 8) | (tag[off + 3] as u32);
        let otp = v % 1_000_000;
        let mut digits: Vec<u8> = Vec::new();
        let mut div: u32 = 100_000;
        let mut i: u32 = 0;
        proof {
            reveal_with_fuel(pow10, 6);
        }
        while i < 6
            invariant
                i <= 6,
                div == pow10((5 - i) as nat) || (i == 6 && div == 0),
                digits@ == six_digits(otp).take(i as int),
            decreases 6 - i,
        {
            proof {
                lemma_pow10_pos((5 - i) as nat);
                reveal_with_fuel(pow10, 6);
            }
            digits.push(48 + ((otp / div) % 10) as u8);
            i = i + 1;
            div = div / 10;
            assert(digits@ =~= six_digits(otp).take(i as int));
        }
        proof {
            assert(digits@ =~= six_digits(otp));
            lemma_six_digits_ascii(otp);
        }
        ascii_to_string(digits)
    }

    /// Check that `code` is six ASCII digits.
    fn parse_code(&self, code: &str) -> (r: Result<(), TOTPError>)
        ensures
            r is Ok <==> well_formed_code(code@),
            encode_utf8(code@).len() != 6 ==> r == Err::<(), TOTPError>(
                TOTPError::InvalidLength(encode_utf8(code@).len() as usize),
            ),
    {
        let b = code.as_bytes();
        if b.len() != 6 {
            return Err(TOTPError::InvalidLength(b.len()));
        }
        let mut i: usize = 0;
        while i < 6
            invariant
                i <= 6,
                b@ == encode_utf8(code@),
                b@.len() == 6,
                forall|j: int| 0 <= j < i ==> 48 <= #[trigger] b@[j] <= 57,
            decreases 6 - i,
        {
            if b[i] < 48 || b[i] > 57 {
                return Err(TOTPError::NonDigit);
            }
            i = i + 1;
        }
        Ok(())
    }

    /// Whether `code` is six ASCII digits equal to the code for `counter`.
    pub fn verify(&self, code: &str, counter: u64) -> (ok: bool)
        ensures
            ok == (well_formed_code(code@) && code@ == ascii_chars(
                totp_code(self.secret@, counter),
            )),
    {
        if self.parse_code(code).is_err() {
            return false;
        }
        let actual = self.generate(counter);
        let expected = code.to_owned();
        actual == expected
    }

    /// Whether `code` is six ASCII digits equal to the code of some counter in
    /// `counter - drift ..= counter + drift` (both ends saturating).
    pub fn verify_drift(&self, code: &str, counter: u64, drift: u64) -> (ok: bool)
        ensures
            ok == (well_formed_code(code@) && matches_in(
                self.secret@,
                code@,
                if counter >= drift { counter - drift } else { 0 },
                if counter + drift <= u64::MAX { counter + drift } else { u64::MAX as int },
            )),
    {
        if self.parse_code(code).is_err() {
            return false;
        }
        let mut low = counter.saturating_sub(drift);
        let high = counter.saturating_add(drift);
        let ghost lo = low as int;
        let expected = code.to_owned();
        while low <= high
            invariant
                lo <= low,
                lo == (if counter >= drift { counter - drift } else { 0 }),
                high == (if counter + drift <= u64::MAX { counter + drift } else { u64::MAX as int }),
                expected@ == code@,
                well_formed_code(code@),
                !matches_in(self.secret@, code@, lo, low - 1),
            decreases high - low + 1,
        {
            if self.generate(low) == expected {
                return true;
            }
            proof {
                assert(!matches_in(self.secret@, code@, lo, low as int)) by {
                    if matches_in(self.secret@, code@, lo, low as int) {
                        let c = choose|c: u64|
                            lo <= c <= low && code@ == ascii_chars(
                                #[trigger] totp_code(self.secret@, c),
                            );
                        if c < low {
                            assert(matches_in(self.secret@, code@, lo, low - 1));
                        }
                    }
                }
            }
            if low == high {
                return false;
            }
            low = low + 1;
        }
        false
    }

    /// The counter at `unix_secs` seconds since the epoch: `unix_secs / interval`.
    pub fn counter_at(&self, unix_secs: u64) -> (c: u64)
        requires
            self.interval > 0,
        ensures
            c == unix_secs / self.interval,
    {
        unix_secs / self.interval
    }

    /// The counter for the current time: the clock's seconds since the epoch
    /// divided by the interval.
    pub fn now(&self) -> (c: u64)
        requires
            self.interval > 0,
        ensures
            exists|secs: u64| c == #[trigger] (secs / self.interval),
    {
        self.counter_at(unix_time_secs())
    }
}

impl Default for TOTP {
    /// A placeholder secret and a 30-second step.
    fn default() -> (t: TOTP)
        ensures
            t.secret@ == encode_utf8("change-me-change-me-change-me!"@),
            t.interval == TOTP_DEFAULT_INTERVAL,
    {
        TOTP {
            secret: slice_to_vec("change-me-change-me-change-me!".as_bytes()),
            interval: TOTP_DEFAULT_INTERVAL,
        }
    }
}

/// A code generated for a counter verifies for that counter.
pub proof fn lemma_generated_code_verifies(secret: Seq<u8>, counter: u64)
    ensures
        well_formed_code(ascii_chars(totp_code(secret, counter))),
{
    let v = truncate_tag(hmac_sha256_tag(secret, be_bytes(counter))) % 1_000_000;
    lemma_six_digits_ascii(v);
    lemma_ascii_utf8(six_digits(v));
}

/// A code generated for counter `c` verifies with drift `d` at every counter
/// within `d` of `c`.
pub proof fn lemma_drift_window(secret: Seq<u8>, c: u64, counter: u64, drift: u64)
    requires
        counter <= c + drift,
        c <= counter + drift,
    ensures
        matches_in(
            secret,
            ascii_chars(totp_code(secret, c)),
            if counter >= drift { counter - drift } else { 0 },
            if counter + drift <= u64::MAX { counter + drift } else { u64::MAX as int },
        ),
{
    assert(ascii_chars(totp_code(secret, c)) == ascii_chars(totp_code(secret, c)));
}

} // verus!
