//! Byte and character helpers shared by the encoders in this crate.

use vstd::prelude::*;
use vstd::utf8::*;

verus! {

/// Every byte lies in the ASCII range.
pub open spec fn is_ascii_bytes(b: Seq<u8>) -> bool {
    forall|i: int| 0 <= i < b.len() ==> #[trigger] b[i] < 128
}

/// The characters that a sequence of ASCII bytes stands for.
pub open spec fn ascii_chars(b: Seq<u8>) -> Seq<char> {
    Seq::new(b.len(), |i: int| b[i] as char)
}

/// ASCII bytes are valid UTF-8 and decode byte for byte.
pub proof fn lemma_ascii_utf8(b: Seq<u8>)
    requires
        is_ascii_bytes(b),
    ensures
        encode_utf8(ascii_chars(b)) == b,
        valid_utf8(b),
        decode_utf8(b) == ascii_chars(b),
{
    let c = ascii_chars(b);
    assert forall|i: int| 0 <= i < c.len() implies '\0' <= #[trigger] c[i] <= '\u{7f}' by {
        let x = b[i];
        assert(x < 128);
        assert((x as char) as u32 == x as u32);
    }
    is_ascii_chars_encode_utf8(c);
    assert forall|i: int| 0 <= i < b.len() implies #[trigger] encode_utf8(c)[i] == b[i] by {
        let x = b[i];
        assert(c[i] as u8 == x);
    }
    assert(encode_utf8(c) =~= b);
    encode_utf8_valid_utf8(c);
    encode_utf8_decode_utf8(c);
}

/// `String::from_utf8`: succeeds exactly on valid UTF-8 and then holds the
/// decoded characters (its documentation says so).
#[verifier::external_body]
pub(crate) fn string_from_utf8(bytes: Vec<u8>) -> (res: Option<String>)
    ensures
        res is Some <==> valid_utf8(bytes@),
        res matches Some(s) ==> s@ == decode_utf8(bytes@),
{
    String::from_utf8(bytes).ok()
}

/// Builds a string from ASCII bytes.
pub fn ascii_to_string(bytes: Vec<u8>) -> (res: String)
    requires
        is_ascii_bytes(bytes@),
    ensures
        res@ == ascii_chars(bytes@),
{
    proof {
        lemma_ascii_utf8(bytes@);
    }
    let ghost b = bytes@;
    let r = string_from_utf8(bytes);
    r.unwrap()
}

/// Unicode `Uppercase` property of a character, as `char::is_uppercase` reports it.
pub uninterp spec fn char_is_uppercase(c: char) -> bool;

/// Whether `c` is uppercase: for ASCII exactly `A-Z` (the Unicode property, which std reports for every
/// character; outside ASCII it is named, not restated).
pub open spec fn uppercase_char(c: char) -> bool {
    if (c as u32) < 128 {
        'A' <= c <= 'Z'
    } else {
        char_is_uppercase(c)
    }
}

/// Unicode `Lowercase` property of a character, as `char::is_lowercase` reports it.
pub uninterp spec fn char_is_lowercase(c: char) -> bool;

/// Whether `c` is lowercase: for ASCII exactly `a-z` (the Unicode property, which std reports for every
/// character; outside ASCII it is named, not restated).
pub open spec fn lowercase_char(c: char) -> bool {
    if (c as u32) < 128 {
        'a' <= c <= 'z'
    } else {
        char_is_lowercase(c)
    }
}

/// Unicode `Alphabetic` or `Numeric` property, as `char::is_alphanumeric` reports it.
pub uninterp spec fn char_is_alphanumeric(c: char) -> bool;

/// Whether `c` is alphabetic or numeric: for ASCII exactly the letters and digits (the Unicode property, which std reports for every
/// character; outside ASCII it is named, not restated).
pub open spec fn alphanumeric_char(c: char) -> bool {
    if (c as u32) < 128 {
        ('A' <= c <= 'Z') || ('a' <= c <= 'z') || ('0' <= c <= '9')
    } else {
        char_is_alphanumeric(c)
    }
}

/// `char::is_uppercase`: `A-Z` among ASCII characters, the named property beyond.
#[verifier::external_body]
pub(crate) fn is_uppercase(c: char) -> (r: bool)
    ensures
        r == (if (c as u32) < 128 {
            'A' <= c <= 'Z'
        } else {
            char_is_uppercase(c)
        }),
{
    c.is_uppercase()
}

/// `char::is_lowercase`: `a-z` among ASCII characters, the named property beyond.
#[verifier::external_body]
pub(crate) fn is_lowercase(c: char) -> (r: bool)
    ensures
        r == (if (c as u32) < 128 {
            'a' <= c <= 'z'
        } else {
            char_is_lowercase(c)
        }),
{
    c.is_lowercase()
}

/// `char::is_alphanumeric`: letters and digits among ASCII characters, the named property beyond.
#[verifier::external_body]
pub(crate) fn is_alphanumeric(c: char) -> (r: bool)
    ensures
        r == (if (c as u32) < 128 {
            ('A' <= c <= 'Z') || ('a' <= c <= 'z') || ('0' <= c <= '9')
        } else {
            char_is_alphanumeric(c)
        }),
{
    c.is_alphanumeric()
}

/// Unicode `White_Space` property, as `char::is_whitespace` reports it.
pub uninterp spec fn char_is_whitespace(c: char) -> bool;

/// Whether `c` is white space: for ASCII exactly space, tab, line feed, vertical tab, form feed and carriage return (the Unicode property, which std reports for every
/// character; outside ASCII it is named, not restated).
pub open spec fn whitespace_char(c: char) -> bool {
    if (c as u32) < 128 {
        c == ' ' || ('\t' <= c <= '\r')
    } else {
        char_is_whitespace(c)
    }
}

/// `char::is_whitespace`: space and `\t`..`\r` among ASCII characters, the named property beyond.
#[verifier::external_body]
pub(crate) fn is_whitespace(c: char) -> (r: bool)
    ensures
        r == (if (c as u32) < 128 {
            c == ' ' || ('\t' <= c <= '\r')
        } else {
            char_is_whitespace(c)
        }),
{
    c.is_whitespace()
}

/// `String::from_iter` over characters: the string of exactly those characters.
#[verifier::external_body]
pub(crate) fn string_from_chars(cs: &[char]) -> (s: String)
    ensures
        s@ == cs@,
{
    cs.iter().collect()
}

/// An ASCII decimal digit.
pub open spec fn is_digit_char(c: char) -> bool {
    '0' <= c <= '9'
}

/// The number of bytes in the UTF-8 encoding of a string.
pub open spec fn utf8_len(s: Seq<char>) -> nat {
    encode_utf8(s).len()
}

/// All bytes are ASCII decimal digits.
pub open spec fn all_digits(d: Seq<u8>) -> bool {
    forall|i: int| 0 <= i < d.len() ==> 48 <= #[trigger] d[i] <= 57
}

/// The number that ASCII decimal digits stand for.
pub open spec fn digits_value(d: Seq<u8>) -> nat
    decreases d.len(),
{
    if d.len() == 0 {
        0
    } else {
        (digits_value(d.drop_last()) * 10 + (d.last() - 48)) as nat
    }
}

/// The decimal digits of `n`, without leading zeros.
pub open spec fn decimal_digits(n: nat) -> Seq<u8>
    decreases n,
{
    if n < 10 {
        seq![(48 + n) as u8]
    } else {
        decimal_digits(n / 10).push((48 + n % 10) as u8)
    }
}

/// Decimal digits stand for the number they were written from.
pub proof fn lemma_decimal_digits(n: nat)
    ensures
        all_digits(decimal_digits(n)),
        digits_value(decimal_digits(n)) == n,
        decimal_digits(n).len() >= 1,
        decimal_digits(n)[0] != 48 || n == 0,
    decreases n,
{
    let d = decimal_digits(n);
    if n >= 10 {
        lemma_decimal_digits(n / 10);
        assert(d.drop_last() =~= decimal_digits(n / 10));
        assert(d.last() == (48 + n % 10) as u8);
        assert(d.last() - 48 == n % 10);
        assert((n / 10) * 10 + n % 10 == n);
        assert(digits_value(d) == digits_value(d.drop_last()) * 10 + (d.last() - 48));
    } else {
        assert(d.drop_last() =~= Seq::<u8>::empty());
        assert(digits_value(d.drop_last()) == 0);
        assert(d.last() - 48 == n);
        assert(digits_value(d) == digits_value(d.drop_last()) * 10 + (d.last() - 48));
    }
}

/// What `str::parse::<u64>` gives for the bytes `b`: an optional `+`, then one
/// or more ASCII digits whose value fits in 64 bits.
pub open spec fn parse_u64_spec(b: Seq<u8>) -> Option<u64> {
    let d = if b.len() > 0 && b[0] == 43 { b.drop_first() } else { b };
    if d.len() == 0 || !all_digits(d) || digits_value(d) > u64::MAX {
        None
    } else {
        Some(digits_value(d) as u64)
    }
}

/// What `str::parse::<i64>` gives for the bytes `b`: an optional `+` or `-`,
/// then one or more ASCII digits whose signed value fits in 64 bits.
pub open spec fn parse_i64_spec(b: Seq<u8>) -> Option<i64> {
    let neg = b.len() > 0 && b[0] == 45;
    let d = if b.len() > 0 && (b[0] == 43 || b[0] == 45) { b.drop_first() } else { b };
    if d.len() == 0 || !all_digits(d) {
        None
    } else if neg {
        if digits_value(d) > 0x8000_0000_0000_0000 {
            None
        } else {
            Some((0 - digits_value(d)) as i64)
        }
    } else if digits_value(d) > 0x7fff_ffff_ffff_ffff {
        None
    } else {
        Some(digits_value(d) as i64)
    }
}

proof fn lemma_digits_value_prefix(d: Seq<u8>, k: int)
    requires
        0 <= k <= d.len(),
        all_digits(d),
    ensures
        digits_value(d.take(k)) <= digits_value(d),
    decreases d.len() - k,
{
    if k < d.len() {
        lemma_digits_value_prefix(d, k + 1);
        assert(d.take(k + 1).drop_last() =~= d.take(k));
    } else {
        assert(d.take(k) =~= d);
    }
}

/// Value of the ASCII digits `d`, or `None` when a byte is not a digit, when
/// there are none, or when the value exceeds `limit`.
fn digits_up_to(d: &[u8], start: usize, limit: u64) -> (r: Option<u64>)
    requires
        start <= d@.len(),
    ensures
        ({
            let t = d@.subrange(start as int, d@.len() as int);
            r == if t.len() == 0 || !all_digits(t) || digits_value(t) > limit {
                None
            } else {
                Some(digits_value(t) as u64)
            }
        }),
{
    let ghost t = d@.subrange(start as int, d@.len() as int);
    if start == d.len() {
        return None;
    }
    let mut acc: u64 = 0;
    let mut i = start;
    while i < d.len()
        invariant
            start <= i <= d@.len(),
            t == d@.subrange(start as int, d@.len() as int),
            all_digits(t.take(i - start)),
            acc == digits_value(t.take(i - start)),
            acc <= limit,
        decreases d@.len() - i,
    {
        let c = d[i];
        assert(t.take(i - start + 1).drop_last() =~= t.take(i - start));
        if c < 48 || c > 57 {
            assert(!all_digits(t)) by {
                assert(t[i - start] == c);
            }
            return None;
        }
        let next: u128 = (acc as u128) * 10 + ((c - 48) as u128);
        if next > limit as u128 {
            proof {
                if all_digits(t) {
                    lemma_digits_value_prefix(t, i - start + 1);
                }
            }
            return None;
        }
        acc = next as u64;
        i = i + 1;
        assert(all_digits(t.take(i - start)));
    }
    assert(t.take(i - start) =~= t);
    Some(acc)
}

/// `str::parse::<u64>` on the bytes of a string, written out.
pub fn parse_u64(b: &[u8]) -> (r: Option<u64>)
    ensures
        r == parse_u64_spec(b@),
{
    let start: usize = if b.len() > 0 && b[0] == 43 { 1 } else { 0 };
    proof {
        let d = if b@.len() > 0 && b@[0] == 43 { b@.drop_first() } else { b@ };
        assert(d =~= b@.subrange(start as int, b@.len() as int));
    }
    digits_up_to(b, start, u64::MAX)
}

/// What `str::parse` gives for an unsigned type whose largest value is `max`:
/// an optional `+`, then one or more ASCII digits whose value is at most `max`.
pub open spec fn parse_unsigned_spec(b: Seq<u8>, max: nat) -> Option<nat> {
    let d = if b.len() > 0 && b[0] == 43 { b.drop_first() } else { b };
    if d.len() == 0 || !all_digits(d) || digits_value(d) > max {
        None
    } else {
        Some(digits_value(d))
    }
}

/// `str::parse::<u32>` on the bytes of a string, written out.
pub fn parse_u32(b: &[u8]) -> (r: Option<u32>)
    ensures
        r == (match parse_unsigned_spec(b@, u32::MAX as nat) {
            Some(v) => Some(v as u32),
            None => None,
        }),
{
    let start: usize = if b.len() > 0 && b[0] == 43 { 1 } else { 0 };
    proof {
        let d = if b@.len() > 0 && b@[0] == 43 { b@.drop_first() } else { b@ };
        assert(d =~= b@.subrange(start as int, b@.len() as int));
    }
    match digits_up_to(b, start, 0xffff_ffff) {
        Some(v) => Some(v as u32),
        None => None,
    }
}

/// `str::parse::<u8>` on the bytes of a string, written out.
pub fn parse_u8(b: &[u8]) -> (r: Option<u8>)
    ensures
        r == (match parse_unsigned_spec(b@, u8::MAX as nat) {
            Some(v) => Some(v as u8),
            None => None,
        }),
{
    let start: usize = if b.len() > 0 && b[0] == 43 { 1 } else { 0 };
    proof {
        let d = if b@.len() > 0 && b@[0] == 43 { b@.drop_first() } else { b@ };
        assert(d =~= b@.subrange(start as int, b@.len() as int));
    }
    match digits_up_to(b, start, 0xff) {
        Some(v) => Some(v as u8),
        None => None,
    }
}

/// `str::parse::<i64>` on the bytes of a string, written out.
pub fn parse_i64(b: &[u8]) -> (r: Option<i64>)
    ensures
        r == parse_i64_spec(b@),
{
    let signed = b.len() > 0 && (b[0] == 43 || b[0] == 45);
    let neg = b.len() > 0 && b[0] == 45;
    let start: usize = if signed { 1 } else { 0 };
    proof {
        let d = if signed { b@.drop_first() } else { b@ };
        assert(d =~= b@.subrange(start as int, b@.len() as int));
    }
    if neg {
        match digits_up_to(b, start, 0x8000_0000_0000_0000) {
            None => None,
            Some(v) => {
                if v == 0x8000_0000_0000_0000 {
                    Some(i64::MIN)
                } else {
                    Some(0 - (v as i64))
                }
            },
        }
    } else {
        match digits_up_to(b, start, 0x7fff_ffff_ffff_ffff) {
            None => None,
            Some(v) => Some(v as i64),
        }
    }
}

/// Append the decimal digits of `n` to `out`.
pub fn push_decimal(n: u64, out: &mut Vec<u8>)
    ensures
        final(out)@ == old(out)@ + decimal_digits(n as nat),
    decreases n,
{
    if n >= 10 {
        push_decimal(n / 10, out);
    }
    out.push(48 + (n % 10) as u8);
    proof {
        if n >= 10 {
            assert(decimal_digits(n as nat) == decimal_digits((n / 10) as nat).push(
                (48 + n % 10) as u8,
            ));
        }
    }
    assert(out@ =~= old(out)@ + decimal_digits(n as nat));
}

/// Decimal text of a signed 64-bit number, with `-` in front when negative.
pub open spec fn i64_decimal(n: i64) -> Seq<u8> {
    if n < 0 {
        seq![45u8] + decimal_digits((0 - n) as nat)
    } else {
        decimal_digits(n as nat)
    }
}

/// Append the decimal text of `n` to `out`.
pub fn push_i64_decimal(n: i64, out: &mut Vec<u8>)
    ensures
        final(out)@ == old(out)@ + i64_decimal(n),
{
    if n < 0 {
        out.push(45);
        let magnitude: u64 = if n == i64::MIN {
            0x8000_0000_0000_0000
        } else {
            (0 - n) as u64
        };
        push_decimal(magnitude, out);
        assert(out@ =~= old(out)@ + i64_decimal(n));
    } else {
        push_decimal(n as u64, out);
    }
}

/// Parsing the decimal text of a number gives the number back.
pub proof fn lemma_i64_decimal_parse(n: i64)
    ensures
        parse_i64_spec(i64_decimal(n)) == Some(n),
        is_ascii_bytes(i64_decimal(n)),
        i64_decimal(n).len() >= 1,
{
    let m: nat = if n < 0 { (0 - n) as nat } else { n as nat };
    lemma_decimal_digits(m);
    let d = decimal_digits(m);
    let b = i64_decimal(n);
    if n < 0 {
        assert(b.drop_first() =~= d);
    } else {
        assert(b[0] == d[0]);
    }
    assert forall|i: int| 0 <= i < b.len() implies #[trigger] b[i] < 128 by {
        if n < 0 && i > 0 {
            assert(b[i] == d[i - 1]);
        }
    }
}

/// The lowercase hexadecimal digit for `d` (0 to 15).
pub open spec fn hex_digit(d: nat) -> u8 {
    if d < 10 {
        (48 + d) as u8
    } else {
        (87 + d) as u8
    }
}

/// Lowercase hexadecimal text of `b`, two digits per byte.
pub open spec fn hex_text(b: Seq<u8>) -> Seq<u8>
    decreases b.len(),
{
    if b.len() == 0 {
        Seq::empty()
    } else {
        hex_text(b.drop_last()) + seq![hex_digit((b.last() / 16) as nat), hex_digit((b.last() % 16) as nat)]
    }
}

/// Hexadecimal text has two ASCII hex digits per byte.
pub proof fn lemma_hex_text(b: Seq<u8>)
    ensures
        hex_text(b).len() == 2 * b.len(),
        forall|i: int|
            0 <= i < hex_text(b).len() ==> {
                let c = #[trigger] hex_text(b)[i];
                (48 <= c <= 57) || (97 <= c <= 102)
            },
    decreases b.len(),
{
    if b.len() > 0 {
        lemma_hex_text(b.drop_last());
    }
}

/// Byte `i` of `b` is written at positions `2i` (high nibble) and `2i + 1`
/// (low nibble) of its hexadecimal text.
pub proof fn lemma_hex_text_at(b: Seq<u8>, i: int)
    requires
        0 <= i < b.len(),
    ensures
        hex_text(b).len() == 2 * b.len(),
        hex_text(b)[2 * i] == hex_digit((b[i] / 16) as nat),
        hex_text(b)[2 * i + 1] == hex_digit((b[i] % 16) as nat),
    decreases b.len(),
{
    lemma_hex_text(b);
    lemma_hex_text(b.drop_last());
    if i < b.len() - 1 {
        lemma_hex_text_at(b.drop_last(), i);
    }
}

/// Append the lowercase hexadecimal text of `b` to `out`.
pub fn push_hex(b: &[u8], out: &mut Vec<u8>)
    ensures
        final(out)@ == old(out)@ + hex_text(b@),
{
    let mut i: usize = 0;
    while i < b.len()
        invariant
            i <= b@.len(),
            out@ == old(out)@ + hex_text(b@.take(i as int)),
        decreases b@.len() - i,
    {
        let x = b[i];
        let hi = x / 16;
        let lo = x % 16;
        out.push(if hi < 10 { 48 + hi } else { 87 + hi });
        out.push(if lo < 10 { 48 + lo } else { 87 + lo });
        assert(b@.take(i + 1).drop_last() =~= b@.take(i as int));
        assert(b@.take(i + 1).last() == x);
        i = i + 1;
        assert(out@ =~= old(out)@ + hex_text(b@.take(i as int)));
    }
    assert(b@.take(i as int) =~= b@);
}

/// The first position at or after `from` that holds `c`.
pub open spec fn find_byte(b: Seq<u8>, c: u8, from: int) -> Option<int>
    decreases b.len() - from,
{
    if from < 0 || from >= b.len() {
        None
    } else if b[from] == c {
        Some(from)
    } else {
        find_byte(b, c, from + 1)
    }
}

/// The first position at or after `from` holding `c`, as `find_byte` says.
pub fn find_byte_from(b: &[u8], c: u8, from: usize) -> (r: Option<usize>)
    requires
        from <= b@.len(),
    ensures
        match r {
            Some(i) => find_byte(b@, c, from as int) == Some(i as int) && from <= i < b.len(),
            None => find_byte(b@, c, from as int) is None,
        },
{
    let mut i = from;
    while i < b.len()
        invariant
            from <= i <= b@.len(),
            find_byte(b@, c, from as int) == find_byte(b@, c, i as int),
        decreases b@.len() - i,
    {
        if b[i] == c {
            return Some(i);
        }
        i = i + 1;
    }
    None
}

/// How many bytes of `b` equal `c`.
pub open spec fn count_byte(b: Seq<u8>, c: u8) -> nat
    decreases b.len(),
{
    if b.len() == 0 {
        0
    } else {
        count_byte(b.drop_last(), c) + if b.last() == c {
            1nat
        } else {
            0nat
        }
    }
}

/// Counting over a concatenation adds up.
pub proof fn lemma_count_byte_concat(a: Seq<u8>, b: Seq<u8>, c: u8)
    ensures
        count_byte(a + b, c) == count_byte(a, c) + count_byte(b, c),
    decreases b.len(),
{
    if b.len() == 0 {
        assert(a + b =~= a);
    } else {
        lemma_count_byte_concat(a, b.drop_last(), c);
        assert((a + b).drop_last() =~= a + b.drop_last());
    }
}

/// A sequence without `c` counts none of it.
pub proof fn lemma_count_byte_none(b: Seq<u8>, c: u8)
    requires
        forall|i: int| 0 <= i < b.len() ==> #[trigger] b[i] != c,
    ensures
        count_byte(b, c) == 0,
    decreases b.len(),
{
    if b.len() > 0 {
        lemma_count_byte_none(b.drop_last(), c);
    }
}

/// `find_byte` stops at the first `c` at or after `from`.
pub proof fn lemma_find_byte_at(b: Seq<u8>, c: u8, from: int, k: int)
    requires
        0 <= from <= k < b.len(),
        b[k] == c,
        forall|i: int| from <= i < k ==> #[trigger] b[i] != c,
    ensures
        find_byte(b, c, from) == Some(k),
    decreases k - from,
{
    if from < k {
        lemma_find_byte_at(b, c, from + 1, k);
    }
}

/// The number of `c` bytes in `b`, counted in a loop.
pub fn count_byte_exec(b: &[u8], c: u8) -> (n: usize)
    ensures
        n == count_byte(b@, c),
        n <= b@.len(),
{
    let mut n: usize = 0;
    let mut i: usize = 0;
    while i < b.len()
        invariant
            i <= b@.len(),
            n == count_byte(b@.take(i as int), c),
            n <= i,
        decreases b@.len() - i,
    {
        assert(b@.take(i + 1).drop_last() =~= b@.take(i as int));
        if b[i] == c {
            n = n + 1;
        }
        i = i + 1;
    }
    assert(b@.take(i as int) =~= b@);
    n
}

/// Whether two byte slices are equal.
pub fn bytes_eq(a: &[u8], b: &[u8]) -> (r: bool)
    ensures
        r == (a@ == b@),
{
    if a.len() != b.len() {
        return false;
    }
    let mut i: usize = 0;
    while i < a.len()
        invariant
            i <= a@.len(),
            a@.len() == b@.len(),
            forall|j: int| 0 <= j < i ==> a@[j] == b@[j],
        decreases a@.len() - i,
    {
        if a[i] != b[i] {
            return false;
        }
        i = i + 1;
    }
    assert(a@ =~= b@);
    true
}

} // verus!
