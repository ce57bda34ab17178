//! Random hex and alphanumeric strings, and constant-time comparison.

use vstd::prelude::*;

use crate::entropy::{random_bytes, random_u32};
use crate::text::{ascii_chars, ascii_to_string, hex_text, is_ascii_bytes, lemma_hex_text, push_hex};

verus! {

/// The 62 characters of [`alphanumeric`]: `A-Z`, `a-z`, `0-9`.
pub open spec fn alphanumeric_charset() -> Seq<u8> {
    Seq::new(26, |i: int| (65 + i) as u8) + Seq::new(26, |i: int| (97 + i) as u8) + Seq::new(
        10,
        |i: int| (48 + i) as u8,
    )
}

/// An ASCII letter or digit.
pub open spec fn is_alphanumeric_byte(c: u8) -> bool {
    (65 <= c <= 90) || (97 <= c <= 122) || (48 <= c <= 57)
}

/// The character a random draw `roll` picks: `charset[roll % 62]`.
pub open spec fn alphanumeric_pick(roll: u32) -> u8 {
    alphanumeric_charset()[(roll % 62) as int]
}

/// The characters a sequence of random draws picks.
pub open spec fn alphanumeric_text(rolls: Seq<u32>) -> Seq<u8> {
    rolls.map_values(|r: u32| alphanumeric_pick(r))
}

/// The lowercase hexadecimal text of `bytes`.
pub fn hex_encode(bytes: &[u8]) -> (s: String)
    ensures
        s@ == ascii_chars(hex_text(bytes@)),
{
    let mut out: Vec<u8> = Vec::new();
    push_hex(bytes, &mut out);
    proof {
        lemma_hex_text(bytes@);
        assert(out@ =~= hex_text(bytes@));
        assert forall|i: int| 0 <= i < out@.len() implies #[trigger] out@[i] < 128 by {
            let c = hex_text(bytes@)[i];
            assert((48 <= c <= 57) || (97 <= c <= 102));
        }
    }
    ascii_to_string(out)
}

/// `byte_len` random bytes as lowercase hexadecimal (`2 * byte_len` characters).
pub fn hex(byte_len: usize) -> (s: String)
    ensures
        exists|b: Seq<u8>| b.len() == byte_len && s@ == ascii_chars(#[trigger] hex_text(b)),
{
    let bytes = random_bytes(byte_len);
    hex_encode(bytes.as_slice())
}

/// The character of [`alphanumeric`] for one random draw.
pub fn alphanumeric_char(roll: u32) -> (c: u8)
    ensures
        c == alphanumeric_pick(roll),
        is_alphanumeric_byte(c),
{
    let idx = roll % 62;
    if idx < 26 {
        65 + idx as u8
    } else if idx < 52 {
        97 + (idx - 26) as u8
    } else {
        48 + (idx - 52) as u8
    }
}

/// `len` random ASCII letters and digits, each `charset[next_u32() % 62]`.
pub fn alphanumeric(len: usize) -> (s: String)
    ensures
        s@.len() == len,
        exists|rolls: Seq<u32>|
            rolls.len() == len && s@ == ascii_chars(
                #[trigger] alphanumeric_text(rolls),
            ),
{
    let mut out: Vec<u8> = Vec::new();
    let ghost mut rolls: Seq<u32> = Seq::empty();
    let mut i: usize = 0;
    while i < len
        invariant
            i <= len,
            rolls.len() == i,
            out@ == alphanumeric_text(rolls),
            forall|j: int| 0 <= j < out@.len() ==> is_alphanumeric_byte(#[trigger] out@[j]),
        decreases len - i,
    {
        let roll = random_u32();
        let c = alphanumeric_char(roll);
        out.push(c);
        proof {
            rolls = rolls.push(roll);
            assert(out@ =~= alphanumeric_text(rolls));
        }
        i = i + 1;
    }
    proof {
        assert(is_ascii_bytes(out@));
    }
    let s = ascii_to_string(out);
    assert(s@ == ascii_chars(alphanumeric_text(rolls)));
    s
}

/// Whether `a` and `b` are equal, comparing every byte whatever the first
/// difference (lengths are compared first).
pub fn constant_time_eq(a: &[u8], b: &[u8]) -> (eq: bool)
    ensures
        eq == (a@ == b@),
{
    if a.len() != b.len() {
        return false;
    }
    let mut r: u8 = 0;
    let mut i: usize = 0;
    while i < a.len()
        invariant
            i <= a@.len(),
            a@.len() == b@.len(),
            (r == 0) <==> (forall|j: int| 0 <= j < i ==> a@[j] == b@[j]),
        decreases a@.len() - i,
    {
        let x = a[i];
        let y = b[i];
        assert(((r | (x ^ y)) == 0) <==> (r == 0 && x == y)) by (bit_vector);
        r = r | (x ^ y);
        i = i + 1;
    }
    if r == 0 {
        assert(a@ =~= b@);
    }
    r == 0
}

} // verus!
