//! Reading PHC strings (`$<algorithm>$v=<version>$<param>=<value>,...$<salt>$<hash>`),
//! the format Argon2 and Scrypt hashes are stored in.

use password_hash::PasswordHash;
use vstd::prelude::*;

use crate::text::{all_digits, decimal_digits, digits_value, lemma_decimal_digits};

verus! {

/// What `password_hash::PasswordHash::new` reads from `hash`: the algorithm
/// identifier and the parameters as (name, value) pairs in order, all as
/// bytes; `None` when `hash` is not a PHC string.
pub uninterp spec fn phc_fields(hash: Seq<char>) -> Option<(Seq<u8>, Seq<(Seq<u8>, Seq<u8>)>)>;

/// `PasswordHash::new(hash)`, with its algorithm identifier and parameter
/// names and values taken out as bytes: the result named `phc_fields`.
#[verifier::external_body]
pub(crate) fn phc_parse(hash: &str) -> (r: Option<(Vec<u8>, Vec<(Vec<u8>, Vec<u8>)>)>)
    ensures
        r.deep_view() == phc_fields(hash@),
{
    let parsed = PasswordHash::new(hash).ok()?;
    let params = parsed.params.iter().map(
        |(name, value)| (name.as_str().as_bytes().to_vec(), value.as_str().as_bytes().to_vec()),
    ).collect();
    Some((parsed.algorithm.as_str().as_bytes().to_vec(), params))
}

/// A PHC decimal (as `password_hash::Value::decimal` reads it): one or more
/// ASCII digits, no leading zero unless the value is `0`, at most `u32::MAX`.
pub open spec fn phc_decimal_spec(v: Seq<u8>) -> Option<u32> {
    if v.len() == 0 || !all_digits(v) || (v[0] == 48 && v.len() > 1) || digits_value(v)
        > u32::MAX {
        None
    } else {
        Some(digits_value(v) as u32)
    }
}

/// The value of the last parameter named `name` whose value is a PHC decimal,
/// or 0 when there is none.
pub open spec fn last_decimal_param(params: Seq<(Seq<u8>, Seq<u8>)>, name: Seq<u8>) -> u32
    decreases params.len(),
{
    if params.len() == 0 {
        0
    } else if params.last().0 == name && phc_decimal_spec(params.last().1) is Some {
        phc_decimal_spec(params.last().1)->0
    } else {
        last_decimal_param(params.drop_last(), name)
    }
}

/// The parameter list `(name, decimal text of value)` for the given pairs.
pub open spec fn decimal_param(name: Seq<u8>, value: u32) -> (Seq<u8>, Seq<u8>) {
    (name, decimal_digits(value as nat))
}

/// A number's decimal text reads back as that number.
pub proof fn lemma_phc_decimal(n: u32)
    ensures
        phc_decimal_spec(decimal_digits(n as nat)) == Some(n),
{
    lemma_decimal_digits(n as nat);
}

/// `Value::decimal` on the bytes of a parameter value.
pub(crate) fn phc_decimal(v: &[u8]) -> (r: Option<u32>)
    ensures
        r == phc_decimal_spec(v@),
{
    if v.len() == 0 {
        return None;
    }
    let mut i: usize = 0;
    let mut acc: u64 = 0;
    while i < v.len()
        invariant
            i <= v@.len(),
            all_digits(v@.take(i as int)),
            acc == digits_value(v@.take(i as int)),
            acc <= u32::MAX,
        decreases v@.len() - i,
    {
        let c = v[i];
        assert(v@.take(i + 1).drop_last() =~= v@.take(i as int));
        if c < 48 || c > 57 {
            assert(!all_digits(v@)) by {
                assert(v@[i as int] == c);
            }
            return None;
        }
        let next: u64 = acc * 10 + (c - 48) as u64;
        if next > 0xffff_ffff {
            proof {
                assert(all_digits(v@.take(i + 1)));
                lemma_digits_prefix_bound(v@, i + 1);
            }
            return None;
        }
        acc = next;
        i = i + 1;
        assert(all_digits(v@.take(i as int)));
    }
    assert(v@.take(i as int) =~= v@);
    if v[0] == 48 && v.len() > 1 {
        return None;
    }
    Some(acc as u32)
}

/// When all of `d` is digits, its value is at least that of any prefix.
proof fn lemma_digits_prefix_bound(d: Seq<u8>, k: int)
    requires
        0 <= k <= d.len(),
        all_digits(d.take(k)),
    ensures
        all_digits(d) ==> digits_value(d.take(k)) <= digits_value(d),
    decreases d.len() - k,
{
    if k < d.len() && all_digits(d) {
        assert(d.take(k + 1).drop_last() =~= d.take(k));
        assert(all_digits(d.take(k + 1)));
        lemma_digits_prefix_bound(d, k + 1);
    } else if k == d.len() {
        assert(d.take(k) =~= d);
    }
}

} // verus!
