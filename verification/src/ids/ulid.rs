//! ULID: 48-bit millisecond timestamp and 80 random bits, written as 26
//! Crockford base-32 characters, so that the text sorts by time.

use vstd::prelude::*;
use vstd::utf8::*;

use super::IdError;
use crate::entropy::{random_bytes, unix_time_ms};
use crate::text::{ascii_chars, ascii_to_string, is_ascii_bytes, lemma_ascii_utf8, utf8_len};

verus! {

/// The Crockford base-32 character of digit `d` (`0`..`31`): `0-9`, then the
/// capitals without I, L, O and U.
pub open spec fn crockford_char(d: int) -> u8 {
    if d < 10 {
        (48 + d) as u8
    } else if d < 18 {
        (65 + d - 10) as u8
    } else if d < 20 {
        (74 + d - 18) as u8
    } else if d < 22 {
        (77 + d - 20) as u8
    } else if d < 27 {
        (80 + d - 22) as u8
    } else {
        (86 + d - 27) as u8
    }
}

/// The digit that a byte stands for in the Crockford alphabet (capital or
/// small letters alike), or `-1` for a byte outside it.
pub open spec fn crockford_value(b: u8) -> i8 {
    let u: int = if 97 <= b <= 122 { b - 32 } else { b as int };
    if 48 <= b <= 57 {
        (b - 48) as i8
    } else if 65 <= u <= 72 {
        (u - 65 + 10) as i8
    } else if u == 74 || u == 75 {
        (u - 74 + 18) as i8
    } else if u == 77 || u == 78 {
        (u - 77 + 20) as i8
    } else if 80 <= u <= 84 {
        (u - 80 + 22) as i8
    } else if 86 <= u <= 90 {
        (u - 86 + 27) as i8
    } else {
        -1i8
    }
}

/// A character of a well-formed ULID: a digit or a capital of the alphabet.
pub open spec fn is_ulid_byte(b: u8) -> bool {
    crockford_value(b) >= 0 && !(97 <= b <= 122)
}

/// The 80-bit number that ten random bytes stand for, most significant first.
pub open spec fn random_bits(r: Seq<u8>) -> u128
    decreases r.len(),
{
    if r.len() == 0 {
        0
    } else {
        ((random_bits(r.drop_last()) << 8u128) | (r.last() as u128)) as u128
    }
}

/// Digit `i` of the ULID of timestamp `ts` and random bytes `r`: ten 5-bit
/// groups of the timestamp, then sixteen of the random number.
pub open spec fn ulid_digit(ts: u64, r: Seq<u8>, i: int) -> int {
    if i < 10 {
        ((ts >> ((45 - 5 * i) as u64)) & 0x1f) as int
    } else {
        ((random_bits(r) >> ((5 * (25 - i)) as u128)) & 0x1f) as int
    }
}

/// The 26 bytes of the ULID of timestamp `ts` and random bytes `r`.
pub open spec fn ulid_bytes(ts: u64, r: Seq<u8>) -> Seq<u8> {
    Seq::new(26, |i: int| crockford_char(ulid_digit(ts, r, i)))
}

/// The timestamp read back from the first `n` characters: five bits per
/// character, a byte outside the alphabet counting as `-1` (all ones).
pub open spec fn timestamp_prefix(b: Seq<u8>, n: int) -> u64
    decreases n,
{
    if n <= 0 {
        0
    } else {
        ((timestamp_prefix(b, n - 1) << 5u64) | (crockford_value(b[n - 1]) as u64)) as u64
    }
}

/// Text of a well-formed ULID: its 26 bytes are digits or capitals of the alphabet.
pub open spec fn is_ulid_text(s: Seq<char>) -> bool {
    let b = encode_utf8(s);
    &&& b.len() == 26
    &&& forall|i: int| 0 <= i < 26 ==> #[trigger] b[i] < 128 && is_ulid_byte(b[i])
}

/// The capital form of an ASCII letter byte; other bytes are kept.
pub open spec fn upper_byte(b: u8) -> u8 {
    if 97 <= b <= 122 {
        (b - 32) as u8
    } else {
        b
    }
}

/// What `from_str` answers for the text `s` (checked byte by byte: a
/// character outside ASCII has a byte outside the alphabet).
pub open spec fn ulid_parse(s: Seq<char>) -> Result<Seq<char>, IdError> {
    let b = encode_utf8(s);
    if b.len() != 26 {
        Err(IdError::InvalidFormat("ulid", "expected 26 chars"))
    } else if exists|i: int| 0 <= i < b.len() && crockford_value(#[trigger] b[i]) < 0 {
        Err(IdError::InvalidFormat("ulid", "invalid Crockford base32 char"))
    } else {
        Ok(ascii_chars(b.map_values(|x: u8| upper_byte(x))))
    }
}

/// The Crockford character of digit `d`.
fn crockford_digit(d: u64) -> (c: u8)
    requires
        d < 32,
    ensures
        c == crockford_char(d as int),
{
    let d = d as u8;
    if d < 10 {
        48 + d
    } else if d < 18 {
        65 + d - 10
    } else if d < 20 {
        74 + d - 18
    } else if d < 22 {
        77 + d - 20
    } else if d < 27 {
        80 + d - 22
    } else {
        86 + d - 27
    }
}

/// The digit of a byte in the Crockford alphabet, or `-1`.
fn crockford_decode(b: u8) -> (v: i8)
    ensures
        v == crockford_value(b),
{
    let u: u8 = if 97 <= b && b <= 122 { b - 32 } else { b };
    if 48 <= b && b <= 57 {
        (b - 48) as i8
    } else if 65 <= u && u <= 72 {
        (u - 65 + 10) as i8
    } else if u == 74 || u == 75 {
        (u - 74 + 18) as i8
    } else if u == 77 || u == 78 {
        (u - 77 + 20) as i8
    } else if 80 <= u && u <= 84 {
        (u - 80 + 22) as i8
    } else if 86 <= u && u <= 90 {
        (u - 86 + 27) as i8
    } else {
        -1
    }
}

proof fn lemma_crockford_roundtrip(d: int)
    requires
        0 <= d < 32,
    ensures
        crockford_value(crockford_char(d)) == d,
        is_ulid_byte(crockford_char(d)),
        crockford_char(d) < 128,
{
}

proof fn lemma_five_bits(x: u64, s: u64)
    requires
        s < 64,
    ensures
        (x >> s) & 0x1f < 32,
{
    assert((x >> s) & 0x1f < 32) by (bit_vector);
}

proof fn lemma_five_bits_u128(x: u128, s: u128)
    requires
        s < 128,
    ensures
        (x >> s) & 0x1f < 32,
{
    assert((x >> s) & 0x1f < 32) by (bit_vector);
}

proof fn lemma_ulid_bytes_ok(ts: u64, r: Seq<u8>)
    ensures
        is_ascii_bytes(ulid_bytes(ts, r)),
        forall|i: int| 0 <= i < 26 ==> is_ulid_byte(#[trigger] ulid_bytes(ts, r)[i]),
        is_ulid_text(ascii_chars(ulid_bytes(ts, r))),
{
    assert forall|i: int| 0 <= i < 26 implies #[trigger] ulid_bytes(ts, r)[i] < 128 && is_ulid_byte(
        ulid_bytes(ts, r)[i],
    ) by {
        if i < 10 {
            lemma_five_bits(ts, (45 - 5 * i) as u64);
        } else {
            lemma_five_bits_u128(random_bits(r), (5 * (25 - i)) as u128);
        }
        lemma_crockford_roundtrip(ulid_digit(ts, r, i));
    }
    lemma_ascii_utf8(ulid_bytes(ts, r));
}

/// The timestamp read back from a ULID made of `ts` and `r` is the low 50 bits of `ts`.
pub proof fn lemma_from_parts_timestamp(ts: u64, r: Seq<u8>)
    ensures
        timestamp_prefix(encode_utf8(ascii_chars(ulid_bytes(ts, r))), 10) == ts
            & 0x3_ffff_ffff_ffff,
{
    lemma_ulid_bytes_ok(ts, r);
    lemma_ascii_utf8(ulid_bytes(ts, r));
    lemma_timestamp_roundtrip(ts, r);
}

/// The 26 ULID characters of timestamp `ts_ms` and ten random bytes.
fn encode_ulid(ts_ms: u64, random: &[u8]) -> (chars: Vec<u8>)
    requires
        random@.len() == 10,
    ensures
        chars@ == ulid_bytes(ts_ms, random@),
{
    let mut chars: Vec<u8> = Vec::new();
    let mut i: u64 = 0;
    while i < 10
        invariant
            i <= 10,
            chars@.len() == i,
            forall|j: int| 0 <= j < i ==> chars@[j] == ulid_bytes(ts_ms, random@)[j],
        decreases 10 - i,
    {
        proof {
            lemma_five_bits(ts_ms, (45 - 5 * i) as u64);
        }
        chars.push(crockford_digit((ts_ms >> (45 - 5 * i)) & 0x1f));
        i = i + 1;
    }
    let mut r: u128 = 0;
    let mut k: usize = 0;
    while k < 10
        invariant
            k <= 10,
            random@.len() == 10,
            r == random_bits(random@.subrange(0, k as int)),
        decreases 10 - k,
    {
        assert(random@.subrange(0, k + 1).drop_last() =~= random@.subrange(0, k as int));
        r = (r << 8) | (random[k] as u128);
        k = k + 1;
    }
    assert(random@.subrange(0, 10) =~= random@);
    let mut j: u128 = 10;
    while j < 26
        invariant
            10 <= j <= 26,
            r == random_bits(random@),
            chars@.len() == j,
            forall|m: int| 0 <= m < j ==> chars@[m] == ulid_bytes(ts_ms, random@)[m],
        decreases 26 - j,
    {
        proof {
            lemma_five_bits_u128(r, (5 * (25 - j)) as u128);
        }
        chars.push(crockford_digit(((r >> (5 * (25 - j))) & 0x1f) as u64));
        j = j + 1;
    }
    assert(chars@ =~= ulid_bytes(ts_ms, random@));
    chars
}

proof fn lemma_timestamp_step(ts: u64, s: u64)
    requires
        s <= 45,
    ensures
        ((((ts >> ((50 - s) as u64)) & (((1u64 << s) - 1) as u64)) << 5u64) | ((ts >> ((45
            - s) as u64)) & 0x1f)) == (ts >> ((45 - s) as u64)) & (((1u64 << ((s + 5) as u64))
            - 1) as u64),
{
    assert(((((ts >> ((50 - s) as u64)) & (((1u64 << s) - 1) as u64)) << 5u64) | ((ts >> ((45
        - s) as u64)) & 0x1f)) == (ts >> ((45 - s) as u64)) & (((1u64 << ((s + 5) as u64)) - 1)
        as u64)) by (bit_vector)
        requires
            s <= 45,
    ;
}

proof fn lemma_timestamp_prefix(ts: u64, r: Seq<u8>, k: int)
    requires
        0 <= k <= 10,
    ensures
        timestamp_prefix(ulid_bytes(ts, r), k) == (ts >> ((50 - 5 * k) as u64)) & (((1u64 << ((5
            * k) as u64)) - 1) as u64),
    decreases k,
{
    let b = ulid_bytes(ts, r);
    if k == 0 {
        assert((ts >> 50u64) & (((1u64 << 0u64) - 1) as u64) == 0) by (bit_vector);
    } else {
        lemma_timestamp_prefix(ts, r, k - 1);
        lemma_five_bits(ts, (45 - 5 * (k - 1)) as u64);
        lemma_crockford_roundtrip(ulid_digit(ts, r, k - 1));
        lemma_timestamp_step(ts, (5 * (k - 1)) as u64);
        assert(crockford_value(b[k - 1]) as u64 == (ts >> ((45 - 5 * (k - 1)) as u64)) & 0x1f);
    }
}

/// Reading the timestamp back from the first ten characters gives the low 50
/// bits of the timestamp that was written.
pub proof fn lemma_timestamp_roundtrip(ts: u64, r: Seq<u8>)
    ensures
        timestamp_prefix(ulid_bytes(ts, r), 10) == ts & 0x3_ffff_ffff_ffff,
{
    lemma_timestamp_prefix(ts, r, 10);
    assert((ts >> 0u64) & (((1u64 << 50u64) - 1) as u64) == ts & 0x3_ffff_ffff_ffff)
        by (bit_vector);
}

/// A ULID: 26 characters, ten for the millisecond timestamp and sixteen for
/// the random part.
#[derive(Debug, PartialEq, Eq, Hash)]
pub struct Ulid(String);

impl Clone for Ulid {
    fn clone(&self) -> (r: Self)
        ensures
            r@ == self@,
    {
        proof {
            use_type_invariant(self);
        }
        Ulid(self.0.clone())
    }
}

impl View for Ulid {
    type V = Seq<char>;

    closed spec fn view(&self) -> Seq<char> {
        self.0@
    }
}

impl Ulid {
    #[verifier::type_invariant]
    spec fn well_formed(&self) -> bool {
        is_ulid_text(self.0@)
    }

    /// The ULID of a given timestamp and ten given random bytes.
    pub fn from_parts(ts_ms: u64, random: &[u8]) -> (id: Ulid)
        requires
            random@.len() == 10,
        ensures
            id@ == ascii_chars(ulid_bytes(ts_ms, random@)),
    {
        let chars = encode_ulid(ts_ms, random);
        proof {
            lemma_ulid_bytes_ok(ts_ms, random@);
        }
        Ulid(ascii_to_string(chars))
    }

    /// A new ULID from the current time and fresh random bytes.
    pub fn generate() -> (id: Ulid)
        ensures
            exists|ts: u64, r: Seq<u8>|
                r.len() == 10 && id@ == ascii_chars(#[trigger] ulid_bytes(ts, r)),
    {
        let ts = unix_time_ms() as u64;
        let rnd = random_bytes(10);
        Self::from_parts(ts, rnd.as_slice())
    }

    /// Monotonic generation: within one millisecond the random part of the
    /// previous ULID is incremented instead of drawn again, so the text grows.
    pub fn monotonic(state: &mut UlidMonotonic) -> (id: Ulid)
        ensures
            final(state)@ matches Some((ts, r)) && r.len() == 10 && id@ == ascii_chars(
                ulid_bytes(ts, r),
            ),
            old(state)@ matches Some((ts0, r0)) ==> (final(state)@ matches Some((ts, r)) && (ts
                == ts0 && be_value(r0) + 1 < pow256(10) ==> be_value(r) == be_value(r0) + 1)),
    {
        let ts = unix_time_ms() as u64;
        state.next_random(ts);
        proof {
            use_type_invariant(&*state);
        }
        let id = match &state.last {
            Some((t, r)) => Self::from_parts(*t, r.as_slice()),
            None => Self::from_parts(0, &[0u8; 10]),
        };
        id
    }

    /// The text of the ULID; it is always 26 digits or capitals of the alphabet.
    pub fn as_str(&self) -> (s: &str)
        ensures
            s@ == self@,
            is_ulid_text(s@),
    {
        proof {
            use_type_invariant(self);
        }
        self.0.as_str()
    }

    /// The text of the ULID.
    pub fn to_string(&self) -> (s: String)
        ensures
            s@ == self@,
    {
        self.0.clone()
    }

    /// The timestamp in milliseconds, read back from the first ten characters.
    pub fn timestamp_ms(&self) -> (ts: u64)
        ensures
            ts == timestamp_prefix(encode_utf8(self@), 10),
    {
        proof {
            use_type_invariant(self);
        }
        let bytes = self.0.as_str().as_bytes();
        let ghost b = encode_utf8(self@);
        let mut ts: u64 = 0;
        let mut k: usize = 0;
        while k < 10
            invariant
                k <= 10,
                bytes@ == b,
                b.len() == 26,
                ts == timestamp_prefix(b, k as int),
            decreases 10 - k,
        {
            let v = crockford_decode(bytes[k]);
            ts = (ts << 5) | (#[verifier::truncate] (v as u64));
            k = k + 1;
        }
        ts
    }

    /// Parse a ULID: exactly 26 bytes, each a character of the Crockford
    /// alphabet in either case; small letters are stored as capitals.
    pub fn from_str(s: &str) -> (res: Result<Ulid, IdError>)
        ensures
            match ulid_parse(s@) {
                Ok(t) => res matches Ok(id) && id@ == t,
                Err(e) => res == Err::<Ulid, IdError>(e),
            },
    {
        let bytes = s.as_bytes();
        let ghost b = encode_utf8(s@);
        if bytes.len() != 26 {
            return Err(IdError::InvalidFormat("ulid", "expected 26 chars"));
        }
        let mut up: Vec<u8> = Vec::new();
        let mut k: usize = 0;
        while k < 26
            invariant
                k <= 26,
                bytes@ == b,
                b == encode_utf8(s@),
                b.len() == 26,
                forall|i: int| 0 <= i < k ==> crockford_value(#[trigger] b[i]) >= 0,
                up@.len() == k,
                forall|i: int|
                    0 <= i < k ==> #[trigger] up@[i] == upper_byte(b[i]) && up@[i] < 128
                        && is_ulid_byte(up@[i]),
            decreases 26 - k,
        {
            let x = bytes[k];
            if crockford_decode(x) < 0 {
                assert(crockford_value(b[k as int]) < 0);
                return Err(IdError::InvalidFormat("ulid", "invalid Crockford base32 char"));
            }
            let u = if 97 <= x && x <= 122 { x - 32 } else { x };
            up.push(u);
            k = k + 1;
        }
        let ghost upb = up@;
        proof {
            assert(upb =~= b.map_values(|x: u8| upper_byte(x)));
            lemma_ascii_utf8(upb);
        }
        Ok(Ulid(ascii_to_string(up)))
    }
}

/// `256^n`.
pub open spec fn pow256(n: nat) -> nat
    decreases n,
{
    if n == 0 {
        1
    } else {
        256 * pow256((n - 1) as nat)
    }
}

/// The number that bytes stand for, most significant first.
pub open spec fn be_value(r: Seq<u8>) -> nat
    decreases r.len(),
{
    if r.len() == 0 {
        0
    } else {
        (be_value(r.drop_last()) * 256 + r.last()) as nat
    }
}

/// `pow256` grows with its exponent.
pub(crate) proof fn lemma_pow256_mono(a: nat, b: nat)
    requires
        a <= b,
    ensures
        pow256(a) <= pow256(b),
    decreases b - a,
{
    if a < b {
        lemma_pow256_mono(a, (b - 1) as nat);
    }
}

/// Two byte strings of one length with one value are equal.
pub(crate) proof fn lemma_be_injective(x: Seq<u8>, y: Seq<u8>)
    requires
        x.len() == y.len(),
        be_value(x) == be_value(y),
    ensures
        x == y,
    decreases x.len(),
{
    if x.len() > 0 {
        let xp = be_value(x.drop_last());
        let yp = be_value(y.drop_last());
        let xl = x.last() as int;
        let yl = y.last() as int;
        assert(xp == yp && xl == yl) by (nonlinear_arith)
            requires
                xp * 256 + xl == yp * 256 + yl,
                0 <= xl < 256,
                0 <= yl < 256,
                xp >= 0,
                yp >= 0,
        ;
        lemma_be_injective(x.drop_last(), y.drop_last());
        assert(x =~= x.drop_last().push(x.last()));
        assert(y =~= y.drop_last().push(y.last()));
    } else {
        assert(x =~= y);
    }
}

/// Of two byte strings of one length, the one with the smaller value has the
/// smaller byte at the first position where they differ.
pub(crate) proof fn lemma_be_first_difference(x: Seq<u8>, y: Seq<u8>)
    requires
        x.len() == y.len(),
        be_value(x) < be_value(y),
    ensures
        exists|k: int|
            0 <= k < x.len() && x[k] < y[k] && (forall|j: int| 0 <= j < k ==> #[trigger] x[j] == y[j]),
    decreases x.len(),
{
    let n = x.len();
    let xs = x.drop_last();
    let ys = y.drop_last();
    let xp = be_value(xs);
    let yp = be_value(ys);
    let xl = x.last() as int;
    let yl = y.last() as int;
    if xp < yp {
        lemma_be_first_difference(xs, ys);
        let k = choose|k: int|
            0 <= k < xs.len() && xs[k] < ys[k] && (forall|j: int| 0 <= j < k ==> #[trigger] xs[j] == ys[j]);
        assert(x[k] < y[k]);
        assert forall|j: int| 0 <= j < k implies #[trigger] x[j] == y[j] by {
            assert(xs[j] == ys[j]);
        }
    } else if xp == yp {
        lemma_be_injective(xs, ys);
        assert(xl < yl);
        assert forall|j: int| 0 <= j < n - 1 implies #[trigger] x[j] == y[j] by {
            assert(xs[j] == ys[j]);
        }
        assert(x[n - 1] < y[n - 1]);
    } else {
        assert(false) by (nonlinear_arith)
            requires
                xp > yp,
                xp * 256 + xl < yp * 256 + yl,
                0 <= xl < 256,
                0 <= yl < 256,
        ;
    }
}

/// `a` comes strictly before `b` in byte order: at the first position where
/// they differ, `a` has the smaller byte.
pub open spec fn bytes_before(a: Seq<u8>, b: Seq<u8>) -> bool {
    exists|k: int|
        0 <= k < a.len() && k < b.len() && a[k] < b[k] && (forall|j: int|
            0 <= j < k ==> #[trigger] a[j] == b[j])
}

proof fn lemma_shift_split(x: u64, s: u64)
    requires
        s <= 58,
    ensures
        x >> s == ((x >> ((s + 5) as u64)) << 5u64) | ((x >> s) & 0x1f),
{
    assert(x >> s == ((x >> ((s + 5) as u64)) << 5u64) | ((x >> s) & 0x1f)) by (bit_vector)
        requires
            s <= 58,
    ;
}

proof fn lemma_shift_split_u128(x: u128, s: u128)
    requires
        s <= 122,
    ensures
        x >> s == ((x >> ((s + 5) as u128)) << 5u128) | ((x >> s) & 0x1f),
{
    assert(x >> s == ((x >> ((s + 5) as u128)) << 5u128) | ((x >> s) & 0x1f)) by (bit_vector)
        requires
            s <= 122,
    ;
}

proof fn lemma_shift_mono(x: u64, y: u64, s: u64)
    requires
        x <= y,
        s < 64,
    ensures
        x >> s <= y >> s,
{
    assert(x >> s <= y >> s) by (bit_vector)
        requires
            x <= y,
            s < 64,
    ;
}

proof fn lemma_shift_mono_u128(x: u128, y: u128, s: u128)
    requires
        x <= y,
        s < 128,
    ensures
        x >> s <= y >> s,
{
    assert(x >> s <= y >> s) by (bit_vector)
        requires
            x <= y,
            s < 128,
    ;
}

/// Two five-bit digits appended to one prefix compare as the digits.
proof fn lemma_digit_order(p: u64, x: u64, y: u64)
    requires
        x == (p << 5u64) | (x & 0x1f),
        y == (p << 5u64) | (y & 0x1f),
        x < y,
    ensures
        x & 0x1f < y & 0x1f,
{
    assert(x & 0x1f < y & 0x1f) by (bit_vector)
        requires
            x == (p << 5u64) | (x & 0x1f),
            y == (p << 5u64) | (y & 0x1f),
            x < y,
    ;
}

proof fn lemma_digit_order_u128(p: u128, x: u128, y: u128)
    requires
        x == (p << 5u128) | (x & 0x1f),
        y == (p << 5u128) | (y & 0x1f),
        x < y,
    ensures
        x & 0x1f < y & 0x1f,
{
    assert(x & 0x1f < y & 0x1f) by (bit_vector)
        requires
            x == (p << 5u128) | (x & 0x1f),
            y == (p << 5u128) | (y & 0x1f),
            x < y,
    ;
}

/// The Crockford characters are in the order of their digits.
proof fn lemma_crockford_ordered(d1: int, d2: int)
    requires
        0 <= d1 < d2 < 32,
    ensures
        crockford_char(d1) < crockford_char(d2),
{
}

/// The ULID digits agree at every position below `k`.
pub open spec fn digits_agree(ts1: u64, r1: Seq<u8>, ts2: u64, r2: Seq<u8>, k: int) -> bool {
    forall|j: int| 0 <= j < k ==> #[trigger] ulid_digit(ts1, r1, j) == ulid_digit(ts2, r2, j)
}

/// The first timestamp digit where two timestamps differ is smaller in the
/// smaller one.
proof fn lemma_ts_first_difference(ts1: u64, ts2: u64, r1: Seq<u8>, r2: Seq<u8>, k: int)
    requires
        0 <= k < 10,
        ts1 < ts2 < 0x4_0000_0000_0000,
        ts1 >> ((50 - 5 * k) as u64) == ts2 >> ((50 - 5 * k) as u64),
        digits_agree(ts1, r1, ts2, r2, k),
    ensures
        exists|m: int|
            k <= m < 10 && ulid_digit(ts1, r1, m) < ulid_digit(ts2, r2, m) && digits_agree(
                ts1,
                r1,
                ts2,
                r2,
                m,
            ),
    decreases 10 - k,
{
    let s = (45 - 5 * k) as u64;
    let a = ts1 >> s;
    let b = ts2 >> s;
    lemma_shift_split(ts1, s);
    lemma_shift_split(ts2, s);
    lemma_shift_mono(ts1, ts2, s);
    assert(((s + 5) as u64) == ((50 - 5 * k) as u64));
    if a == b {
        assert(ulid_digit(ts1, r1, k) == ulid_digit(ts2, r2, k));
        if k == 9 {
            assert(ts1 >> 0u64 == ts1 && ts2 >> 0u64 == ts2) by (bit_vector);
            assert(false);
        } else {
            assert(digits_agree(ts1, r1, ts2, r2, k + 1));
            lemma_ts_first_difference(ts1, ts2, r1, r2, k + 1);
        }
    } else {
        lemma_digit_order(ts1 >> ((s + 5) as u64), a, b);
        assert(ulid_digit(ts1, r1, k) < ulid_digit(ts2, r2, k));
    }
}

/// The first random digit where two random numbers differ is smaller in the
/// smaller one.
proof fn lemma_random_first_difference(ts: u64, r1: Seq<u8>, r2: Seq<u8>, k: int)
    requires
        10 <= k < 26,
        random_bits(r1) < random_bits(r2) < 0x1_0000_0000_0000_0000_0000,
        random_bits(r1) >> ((130 - 5 * k) as u128) == random_bits(r2) >> ((130 - 5 * k) as u128),
        digits_agree(ts, r1, ts, r2, k),
    ensures
        exists|m: int|
            k <= m < 26 && ulid_digit(ts, r1, m) < ulid_digit(ts, r2, m) && digits_agree(
                ts,
                r1,
                ts,
                r2,
                m,
            ),
    decreases 26 - k,
{
    let x = random_bits(r1);
    let y = random_bits(r2);
    let s = (125 - 5 * k) as u128;
    let a = x >> s;
    let b = y >> s;
    lemma_shift_split_u128(x, s);
    lemma_shift_split_u128(y, s);
    lemma_shift_mono_u128(x, y, s);
    assert(((s + 5) as u128) == ((130 - 5 * k) as u128));
    assert(s == (5 * (25 - k)) as u128);
    if a == b {
        assert(ulid_digit(ts, r1, k) == ulid_digit(ts, r2, k));
        if k == 25 {
            assert(x >> 0u128 == x && y >> 0u128 == y) by (bit_vector);
            assert(false);
        } else {
            assert(digits_agree(ts, r1, ts, r2, k + 1));
            lemma_random_first_difference(ts, r1, r2, k + 1);
        }
    } else {
        lemma_digit_order_u128(x >> ((s + 5) as u128), a, b);
        assert(ulid_digit(ts, r1, k) < ulid_digit(ts, r2, k));
    }
}

/// From a first differing digit, the ULID texts are in byte order.
proof fn lemma_bytes_before_at(ts1: u64, r1: Seq<u8>, ts2: u64, r2: Seq<u8>, m: int)
    requires
        0 <= m < 26,
        ulid_digit(ts1, r1, m) < ulid_digit(ts2, r2, m),
        digits_agree(ts1, r1, ts2, r2, m),
    ensures
        bytes_before(ulid_bytes(ts1, r1), ulid_bytes(ts2, r2)),
{
    let a = ulid_bytes(ts1, r1);
    let b = ulid_bytes(ts2, r2);
    if m < 10 {
        lemma_five_bits(ts2, (45 - 5 * m) as u64);
    } else {
        lemma_five_bits_u128(random_bits(r2), (5 * (25 - m)) as u128);
    }
    lemma_crockford_ordered(ulid_digit(ts1, r1, m), ulid_digit(ts2, r2, m));
    assert forall|j: int| 0 <= j < m implies #[trigger] a[j] == b[j] by {
        assert(ulid_digit(ts1, r1, j) == ulid_digit(ts2, r2, j));
    }
    assert(a[m] < b[m]);
}

/// ULIDs sort by time: a ULID of an earlier millisecond (timestamps below
/// 2^50, the width the text holds) comes first in byte order, whatever the
/// random parts.
pub proof fn lemma_ulid_time_ordered(ts1: u64, r1: Seq<u8>, ts2: u64, r2: Seq<u8>)
    requires
        ts1 < ts2 < 0x4_0000_0000_0000,
    ensures
        bytes_before(ulid_bytes(ts1, r1), ulid_bytes(ts2, r2)),
{
    assert(ts1 >> 50u64 == 0 && ts2 >> 50u64 == 0) by (bit_vector)
        requires
            ts1 < ts2 < 0x4_0000_0000_0000,
    ;
    lemma_ts_first_difference(ts1, ts2, r1, r2, 0);
    let m = choose|m: int|
        0 <= m < 10 && ulid_digit(ts1, r1, m) < ulid_digit(ts2, r2, m) && digits_agree(
            ts1,
            r1,
            ts2,
            r2,
            m,
        );
    lemma_bytes_before_at(ts1, r1, ts2, r2, m);
}

/// Ten bytes read as a number the same way as `be_value` does.
proof fn lemma_random_bits_value(r: Seq<u8>)
    requires
        r.len() <= 10,
    ensures
        random_bits(r) as nat == be_value(r),
        be_value(r) < pow256(r.len()),
    decreases r.len(),
{
    lemma_be_bound(r);
    if r.len() > 0 {
        let p = r.drop_last();
        lemma_random_bits_value(p);
        lemma_pow256_mono(p.len(), 9);
        assert(pow256(9) == 0x1_0000_0000_0000_0000_00) by {
            reveal_with_fuel(pow256, 10);
        }
        let x = random_bits(p);
        let b = r.last();
        assert(((x << 8u128) | (b as u128)) == x * 256 + b) by (bit_vector)
            requires
                x < 0x1_0000_0000_0000_0000_00,
        ;
    }
}

/// Within one millisecond ULIDs sort by their random parts: the smaller
/// number comes first in byte order.
pub proof fn lemma_ulid_random_ordered(ts: u64, r1: Seq<u8>, r2: Seq<u8>)
    requires
        r1.len() == 10,
        r2.len() == 10,
        be_value(r1) < be_value(r2),
    ensures
        bytes_before(ulid_bytes(ts, r1), ulid_bytes(ts, r2)),
{
    lemma_random_bits_value(r1);
    lemma_random_bits_value(r2);
    assert(pow256(10) == 0x1_0000_0000_0000_0000_0000) by {
        reveal_with_fuel(pow256, 11);
    }
    let x = random_bits(r1);
    let y = random_bits(r2);
    assert(x >> 80u128 == 0 && y >> 80u128 == 0) by (bit_vector)
        requires
            x < y < 0x1_0000_0000_0000_0000_0000,
    ;
    assert(digits_agree(ts, r1, ts, r2, 10));
    lemma_random_first_difference(ts, r1, r2, 10);
    let m = choose|m: int|
        10 <= m < 26 && ulid_digit(ts, r1, m) < ulid_digit(ts, r2, m) && digits_agree(
            ts,
            r1,
            ts,
            r2,
            m,
        );
    lemma_bytes_before_at(ts, r1, ts, r2, m);
}

/// Successive monotonic ULIDs increase in byte order: the next one is of a
/// later millisecond (below 2^50), or of the same millisecond with the random
/// number one higher.
pub proof fn lemma_monotonic_increasing(ts0: u64, r0: Seq<u8>, ts: u64, r: Seq<u8>)
    requires
        r0.len() == 10,
        r.len() == 10,
        ts0 <= ts < 0x4_0000_0000_0000,
        ts == ts0 ==> be_value(r) == be_value(r0) + 1,
    ensures
        bytes_before(ulid_bytes(ts0, r0), ulid_bytes(ts, r)),
{
    if ts == ts0 {
        lemma_ulid_random_ordered(ts, r0, r);
    } else {
        lemma_ulid_time_ordered(ts0, r0, ts, r);
    }
}

/// A well-formed ULID text parses back to itself; `from_str` accepts exactly
/// the 26-byte texts of Crockford characters (either case), as `ulid_parse` says.
pub proof fn lemma_ulid_text_roundtrip(s: Seq<char>)
    requires
        is_ulid_text(s),
    ensures
        ulid_parse(s) == Ok::<Seq<char>, IdError>(s),
{
    let b = encode_utf8(s);
    assert(forall|i: int| 0 <= i < b.len() ==> crockford_value(#[trigger] b[i]) >= 0);
    assert(is_ascii_bytes(b));
    let up = b.map_values(|x: u8| upper_byte(x));
    assert(up =~= b);
    lemma_ascii_utf8(b);
    encode_utf8_decode_utf8(s);
}

/// State of monotonic generation: the millisecond and random bytes of the
/// last ULID handed out.
pub struct UlidMonotonic {
    last: Option<(u64, Vec<u8>)>,
}

impl View for UlidMonotonic {
    type V = Option<(u64, Seq<u8>)>;

    closed spec fn view(&self) -> Option<(u64, Seq<u8>)> {
        match self.last {
            Some((t, r)) => Some((t, r@)),
            None => None,
        }
    }
}

impl UlidMonotonic {
    #[verifier::type_invariant]
    spec fn well_formed(&self) -> bool {
        self.last matches Some((_, r)) ==> r@.len() == 10
    }

    /// No ULID handed out yet.
    pub fn new() -> (s: UlidMonotonic)
        ensures
            s@ is None,
    {
        UlidMonotonic { last: None }
    }

    /// Move to timestamp `ts`: the same millisecond increments the random
    /// bytes (drawing new ones when all 80 bits are set), another draws fresh ones.
    pub fn next_random(&mut self, ts: u64)
        ensures
            final(self)@ matches Some((t, r)) && t == ts && r.len() == 10,
            old(self)@ matches Some((t0, r0)) ==> (t0 == ts && be_value(r0) + 1 < pow256(10)
                ==> (final(self)@ matches Some((_, r)) && be_value(r) == be_value(r0) + 1)),
    {
        proof {
            use_type_invariant(&*self);
        }
        let mut cur = None;
        std::mem::swap(&mut cur, &mut self.last);
        let next = match cur {
            Some((t0, mut r)) => {
                if t0 == ts {
                    let wrapped = increment_be(&mut r);
                    if wrapped {
                        r = random_bytes(10);
                    }
                    Some((t0, r))
                } else {
                    Some((ts, random_bytes(10)))
                }
            },
            None => Some((ts, random_bytes(10))),
        };
        self.last = next;
    }
}

/// Add one to a big-endian number held in bytes; returns `true` when every
/// byte was 255 and the number wrapped around to zero.
pub fn increment_be(bytes: &mut Vec<u8>) -> (wrapped: bool)
    requires
        old(bytes)@.len() > 0,
    ensures
        final(bytes)@.len() == old(bytes)@.len(),
        wrapped <==> be_value(old(bytes)@) + 1 == pow256(old(bytes)@.len()),
        !wrapped ==> be_value(final(bytes)@) == be_value(old(bytes)@) + 1,
        wrapped ==> be_value(final(bytes)@) == 0,
{
    let n = bytes.len();
    let ghost orig = bytes@;
    let mut i = n - 1;
    loop
        invariant
            i < n,
            orig == old(bytes)@,
            n == orig.len(),
            bytes@.len() == n,
            bytes@.subrange(0, i + 1) == orig.subrange(0, i + 1),
            forall|j: int| i < j < n ==> #[trigger] orig[j] == 255 && bytes@[j] == 0,
        decreases i,
    {
        let b = bytes[i];
        let ghost before = bytes@;
        proof {
            assert forall|j: int| 0 <= j <= i implies #[trigger] before[j] == orig[j] by {
                assert(before.subrange(0, i + 1)[j] == orig.subrange(0, i + 1)[j]);
            }
        }
        if b < 255 {
            bytes.set(i, b + 1);
            proof {
                assert(bytes@.subrange(0, i as int) =~= orig.subrange(0, i as int));
                assert forall|j: int| i < j < n implies #[trigger] orig[j] == 255 && bytes@[j]
                    == 0 by {
                    assert(orig[j] == 255);
                    assert(before[j] == 0);
                }
                lemma_increment_at(orig, bytes@, i as int);
            }
            return false;
        }
        bytes.set(i, 0);
        if i == 0 {
            proof {
                assert forall|j: int| 0 <= j < n implies #[trigger] orig[j] == 255 by {
                    if j > 0 {
                        assert(orig[j] == 255);
                    }
                }
                assert forall|j: int| 0 <= j < n implies #[trigger] bytes@[j] == 0 by {
                    if j > 0 {
                        assert(orig[j] == 255 && before[j] == 0);
                    }
                }
                lemma_all_max(orig);
                lemma_all_zero(bytes@);
            }
            return true;
        }
        proof {
            assert(bytes@.subrange(0, i as int) =~= orig.subrange(0, i as int));
        }
        i = i - 1;
    }
}

pub(crate) proof fn lemma_be_bound(r: Seq<u8>)
    ensures
        be_value(r) < pow256(r.len()),
    decreases r.len(),
{
    if r.len() > 0 {
        lemma_be_bound(r.drop_last());
        let a = be_value(r.drop_last());
        let p = pow256((r.len() - 1) as nat);
        assert(a * 256 + r.last() < p * 256) by (nonlinear_arith)
            requires
                a < p,
                r.last() < 256,
        ;
    }
}

proof fn lemma_be_concat(a: Seq<u8>, b: Seq<u8>)
    ensures
        be_value(a + b) == be_value(a) * pow256(b.len()) + be_value(b),
    decreases b.len(),
{
    if b.len() == 0 {
        assert(a + b =~= a);
        assert(be_value(a + b) == be_value(a));
        assert(be_value(b) == 0);
        assert(pow256(0) == 1);
    } else {
        let b1 = b.drop_last();
        assert((a + b).drop_last() =~= a + b1);
        assert((a + b).last() == b.last());
        lemma_be_concat(a, b1);
        assert(be_value(a + b1) == be_value(a) * pow256(b1.len()) + be_value(b1));
        let x = be_value(a);
        let p = pow256(b1.len());
        let y = be_value(b1);
        let l = b.last() as int;
        assert(be_value(a + b) == be_value(a + b1) * 256 + l);
        assert(be_value(b) == y * 256 + l);
        assert(pow256(b.len()) == 256 * p);
        assert((x * p + y) * 256 + l == x * (256 * p) + (y * 256 + l)) by (nonlinear_arith);
        assert(be_value(a + b) == (x * p + y) * 256 + l);
        assert(be_value(a + b) == x * pow256(b.len()) + be_value(b));
    }
}

proof fn lemma_all_max(r: Seq<u8>)
    requires
        forall|j: int| 0 <= j < r.len() ==> #[trigger] r[j] == 255,
    ensures
        be_value(r) + 1 == pow256(r.len()),
    decreases r.len(),
{
    if r.len() > 0 {
        lemma_all_max(r.drop_last());
    }
}

proof fn lemma_all_zero(r: Seq<u8>)
    requires
        forall|j: int| 0 <= j < r.len() ==> #[trigger] r[j] == 0,
    ensures
        be_value(r) == 0,
    decreases r.len(),
{
    if r.len() > 0 {
        lemma_all_zero(r.drop_last());
    }
}

proof fn lemma_increment_at(orig: Seq<u8>, new: Seq<u8>, i: int)
    requires
        0 <= i < orig.len(),
        new.len() == orig.len(),
        new.subrange(0, i) == orig.subrange(0, i),
        orig[i] < 255,
        new[i] == orig[i] + 1,
        forall|j: int| i < j < orig.len() ==> #[trigger] orig[j] == 255 && new[j] == 0,
    ensures
        be_value(new) == be_value(orig) + 1,
        be_value(orig) + 1 < pow256(orig.len()),
{
    let n = orig.len();
    let p = orig.subrange(0, i);
    let fo = orig.subrange(i + 1, n as int);
    let fnew = new.subrange(i + 1, n as int);
    assert(orig =~= (p + seq![orig[i]]) + fo);
    assert(new =~= (p + seq![new[i]]) + fnew);
    lemma_be_concat(p + seq![orig[i]], fo);
    lemma_be_concat(p + seq![new[i]], fnew);
    assert((p + seq![orig[i]]).drop_last() =~= p);
    assert((p + seq![new[i]]).drop_last() =~= p);
    assert forall|j: int| 0 <= j < fo.len() implies #[trigger] fo[j] == 255 by {
        assert(orig[i + 1 + j] == 255);
    }
    assert forall|j: int| 0 <= j < fnew.len() implies #[trigger] fnew[j] == 0 by {
        assert(orig[i + 1 + j] == 255);
    }
    lemma_all_max(fo);
    lemma_all_zero(fnew);
    let k = pow256(fo.len());
    let bp = be_value(p);
    let x = orig[i] as int;
    assert((bp * 256 + x) * k + (k - 1) + 1 == (bp * 256 + x + 1) * k) by (nonlinear_arith);
    lemma_be_bound(new);
}

} // verus!
