//! UUID version 7: a millisecond timestamp, then random bits; shown as 36
//! hyphenated lowercase hex characters.

use uuid::{NoContext, Timestamp, Uuid};
use vstd::prelude::*;

use super::ulid::{be_value, bytes_before, lemma_be_first_difference};
use super::IdError;
use crate::text::{ascii_chars, hex_digit, hex_text, lemma_hex_text, lemma_hex_text_at};

verus! {

#[verifier::external_type_specification]
#[verifier::external_body]
pub struct ExUuid(Uuid);

/// The version number a UUID carries in the high nibble of byte 6.
pub open spec fn version_of(b: Seq<u8>) -> u8 {
    b[6] / 16
}

/// The hyphenated lowercase text of 16 bytes: groups of 4, 2, 2, 2 and 6
/// bytes in hex, separated by `-`.
pub open spec fn uuid_hyphen_bytes(b: Seq<u8>) -> Seq<u8> {
    hex_text(b.subrange(0, 4)) + seq![45u8] + hex_text(b.subrange(4, 6)) + seq![45u8] + hex_text(
        b.subrange(6, 8),
    ) + seq![45u8] + hex_text(b.subrange(8, 10)) + seq![45u8] + hex_text(b.subrange(10, 16))
}

/// The 16 bytes `uuid::Uuid::parse_str` reads from `text`, or `None` when it
/// rejects the text.
pub uninterp spec fn uuid_parsed(text: Seq<char>) -> Option<Seq<u8>>;

/// The variant a UUID carries in the two high bits of byte 8 (`2` is the
/// RFC 9562 variant, bits `10`).
pub open spec fn variant_of(b: Seq<u8>) -> u8 {
    b[8] / 64
}

/// `Uuid::new_v7(Timestamp::now(NoContext))` as bytes. It depends on the
/// clock and on randomness; its version nibble is 7 and its variant bits are
/// `10` (the crate writes `(random & 0x3F) | 0x80` into byte 8).
#[verifier::external_body]
fn uuid_v7_now() -> (b: [u8; 16])
    ensures
        version_of(b@) == 7,
        variant_of(b@) == 2,
{
    Uuid::new_v7(Timestamp::now(NoContext)).into_bytes()
}

/// `Uuid::parse_str(text)` as bytes: the result named `uuid_parsed`.
#[verifier::external_body]
fn uuid_parse(text: &str) -> (r: Option<[u8; 16]>)
    ensures
        match uuid_parsed(text@) {
            Some(b) => r matches Some(v) && v@ == b,
            None => r is None,
        },
{
    Uuid::parse_str(text).ok().map(|u| u.into_bytes())
}

/// `Uuid::from_bytes(bytes).to_string()`: the hyphenated lowercase form,
/// which `Uuid::parse_str` reads back to the same bytes.
#[verifier::external_body]
fn uuid_text(bytes: [u8; 16]) -> (s: String)
    ensures
        s@ == ascii_chars(uuid_hyphen_bytes(bytes@)),
        uuid_parsed(s@) == Some(bytes@),
{
    Uuid::from_bytes(bytes).to_string()
}

/// The 16 bytes a `uuid::Uuid` holds, as `Uuid::as_bytes` gives them.
pub uninterp spec fn uuid_bytes(u: Uuid) -> Seq<u8>;

/// `Uuid::from_bytes(bytes)`: the UUID holding exactly `bytes`.
#[verifier::external_body]
fn uuid_from_bytes(bytes: [u8; 16]) -> (u: Uuid)
    ensures
        uuid_bytes(u) == bytes@,
{
    Uuid::from_bytes(bytes)
}

/// A version 7 UUID.
#[derive(Debug, PartialEq, Eq, Hash, PartialOrd, Ord)]
pub struct UuidV7 {
    bytes: [u8; 16],
}

impl View for UuidV7 {
    type V = Seq<u8>;

    closed spec fn view(&self) -> Seq<u8> {
        self.bytes@
    }
}

impl Clone for UuidV7 {
    fn clone(&self) -> (r: Self)
        ensures
            r@ == self@,
    {
        proof {
            use_type_invariant(self);
        }
        UuidV7 { bytes: self.bytes }
    }
}

impl Default for UuidV7 {
    /// A fresh UUID, as [`UuidV7::generate`].
    fn default() -> (id: Self)
        ensures
            id@.len() == 16,
            version_of(id@) == 7,
    {
        Self::generate()
    }
}

impl UuidV7 {
    #[verifier::type_invariant]
    spec fn well_formed(&self) -> bool {
        version_of(self.bytes@) == 7
    }

    /// A new UUID v7 from the current time and randomness, with the RFC 9562
    /// variant.
    pub fn generate() -> (id: UuidV7)
        ensures
            id@.len() == 16,
            version_of(id@) == 7,
            variant_of(id@) == 2,
    {
        UuidV7 { bytes: uuid_v7_now() }
    }

    /// A new UUID v7, as [`generate`](Self::generate).
    pub fn new() -> (id: UuidV7)
        ensures
            id@.len() == 16,
            version_of(id@) == 7,
    {
        Self::generate()
    }

    /// The UUID as a `uuid::Uuid`: the same 16 bytes, version 7.
    pub fn as_uuid(&self) -> (u: Uuid)
        ensures
            uuid_bytes(u) == self@,
            version_of(uuid_bytes(u)) == 7,
    {
        proof {
            use_type_invariant(self);
        }
        uuid_from_bytes(self.bytes)
    }

    /// The 16 bytes of the UUID; its version nibble is 7.
    pub fn as_bytes(&self) -> (b: &[u8; 16])
        ensures
            b@ == self@,
            version_of(b@) == 7,
    {
        proof {
            use_type_invariant(self);
        }
        &self.bytes
    }

    /// The hyphenated lowercase text of the UUID, which parses back to it.
    pub fn to_string(&self) -> (s: String)
        ensures
            s@ == ascii_chars(uuid_hyphen_bytes(self@)),
            uuid_parsed(s@) == Some(self@),
            version_of(self@) == 7,
    {
        proof {
            use_type_invariant(self);
        }
        uuid_text(self.bytes)
    }

    /// Parse a UUID in any form `Uuid::parse_str` accepts, and require version 7.
    pub fn from_str(s: &str) -> (r: Result<UuidV7, IdError>)
        ensures
            match uuid_parsed(s@) {
                None => r == Err::<UuidV7, IdError>(
                    IdError::InvalidFormat("uuid_v7", "invalid UUID format"),
                ),
                Some(b) => if version_of(b) == 7 {
                    r matches Ok(id) && id@ == b
                } else {
                    r == Err::<UuidV7, IdError>(IdError::InvalidFormat("uuid_v7", "not a v7 UUID"))
                },
            },
    {
        match uuid_parse(s) {
            None => Err(IdError::InvalidFormat("uuid_v7", "invalid UUID format")),
            Some(b) => {
                if b[6] / 16 != 7 {
                    Err(IdError::InvalidFormat("uuid_v7", "not a v7 UUID"))
                } else {
                    Ok(UuidV7 { bytes: b })
                }
            },
        }
    }
}

/// The 48-bit timestamp field of a UUID v7: its first six bytes.
pub open spec fn uuid_millis(b: Seq<u8>) -> nat {
    be_value(b.subrange(0, 6))
}

/// Where the hex digit of the high (`hi`) or low nibble of byte `j` (below 6)
/// stands in the hyphenated text.
pub open spec fn nibble_position(j: int, hi: bool) -> int {
    (if j < 4 {
        2 * j
    } else {
        2 * j + 1
    }) + (if hi {
        0int
    } else {
        1int
    })
}

/// The first six bytes of a UUID and the hyphen after the fourth, as they
/// stand in its hyphenated text.
proof fn lemma_uuid_text_head(a: Seq<u8>, j: int)
    requires
        a.len() == 16,
        0 <= j < 6,
    ensures
        uuid_hyphen_bytes(a)[8] == 45,
        uuid_hyphen_bytes(a)[nibble_position(j, true)] == hex_digit((a[j] / 16) as nat),
        uuid_hyphen_bytes(a)[nibble_position(j, false)] == hex_digit((a[j] % 16) as nat),
        uuid_hyphen_bytes(a).len() == 36,
{
    lemma_hex_text(a.subrange(0, 4));
    lemma_hex_text(a.subrange(4, 6));
    lemma_hex_text(a.subrange(6, 8));
    lemma_hex_text(a.subrange(8, 10));
    lemma_hex_text(a.subrange(10, 16));
    if j < 4 {
        lemma_hex_text_at(a.subrange(0, 4), j);
    } else {
        lemma_hex_text_at(a.subrange(4, 6), j - 4);
    }
}

/// Lowercase hex digits are in the order of their values.
proof fn lemma_hex_digit_ordered(d1: nat, d2: nat)
    requires
        d1 < d2 < 16,
    ensures
        hex_digit(d1) < hex_digit(d2),
{
}

/// UUIDs sort by time: one whose 48-bit timestamp field is smaller comes
/// first in text order.
pub proof fn lemma_uuid_text_time_ordered(a: Seq<u8>, b: Seq<u8>)
    requires
        a.len() == 16,
        b.len() == 16,
        uuid_millis(a) < uuid_millis(b),
    ensures
        bytes_before(uuid_hyphen_bytes(a), uuid_hyphen_bytes(b)),
{
    let a6 = a.subrange(0, 6);
    let b6 = b.subrange(0, 6);
    lemma_be_first_difference(a6, b6);
    let k = choose|k: int|
        0 <= k < a6.len() && a6[k] < b6[k] && (forall|j: int| 0 <= j < k ==> #[trigger] a6[j] == b6[j]);
    let ta = uuid_hyphen_bytes(a);
    let tb = uuid_hyphen_bytes(b);
    lemma_uuid_text_head(a, k);
    lemma_uuid_text_head(b, k);
    let hi_a = (a[k] / 16) as nat;
    let hi_b = (b[k] / 16) as nat;
    let target = if hi_a < hi_b {
        nibble_position(k, true)
    } else {
        nibble_position(k, false)
    };
    assert forall|p: int| 0 <= p < target implies #[trigger] ta[p] == tb[p] by {
        if p == 8 {
        } else {
            let j = if p < 8 { p / 2 } else { (p - 1) / 2 };
            assert(a6[j] == b6[j] || j == k);
            lemma_uuid_text_head(a, j);
            lemma_uuid_text_head(b, j);
            assert(p == nibble_position(j, true) || p == nibble_position(j, false));
        }
    }
    if hi_a < hi_b {
        lemma_hex_digit_ordered(hi_a, hi_b);
    } else {
        lemma_hex_digit_ordered((a[k] % 16) as nat, (b[k] % 16) as nat);
    }
    assert(ta[target] < tb[target]);
}

} // verus!
