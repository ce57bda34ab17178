//! Keys for [`Encrypter`](super::Encrypter) and [`Signer`](super::Signer).

use vstd::prelude::*;

use super::error::{EncryptError, EncryptErrorView};
use crate::text::{is_whitespace, string_from_chars, whitespace_char};

verus! {

/// Primary key and, for key rotation, older keys that are still accepted for
/// decryption.
#[derive(Debug, Clone)]
pub struct EncryptConfig {
    /// Primary encryption / signing key; an AES key is derived from it with SHA-256.
    pub key: String,
    /// Previous keys, tried in order for decryption when the primary fails.
    pub old_keys: Vec<String>,
}

impl EncryptConfig {
    /// A configuration with `key` and no old keys.
    pub fn new(key: &str) -> (c: EncryptConfig)
        ensures
            c.key@ == key@,
            c.old_keys@.len() == 0,
    {
        EncryptConfig { key: key.to_owned(), old_keys: Vec::new() }
    }

    /// The same configuration with `old_keys` as the previous keys.
    pub fn with_old_keys(self, old_keys: &[&str]) -> (c: EncryptConfig)
        ensures
            c.key@ == self.key@,
            c.old_keys@.len() == old_keys@.len(),
            forall|i: int| 0 <= i < old_keys@.len() ==> (#[trigger] c.old_keys@[i])@ == old_keys@[i]@,
    {
        let mut keys: Vec<String> = Vec::new();
        let mut i: usize = 0;
        while i < old_keys.len()
            invariant
                i <= old_keys@.len(),
                keys@.len() == i,
                forall|j: int| 0 <= j < i ==> (#[trigger] keys@[j])@ == old_keys@[j]@,
            decreases old_keys@.len() - i,
        {
            keys.push(old_keys[i].to_owned());
            i = i + 1;
        }
        EncryptConfig { key: self.key, old_keys: keys }
    }
}

/// `s` without its leading whitespace.
pub open spec fn trim_start_ws(s: Seq<char>) -> Seq<char>
    decreases s.len(),
{
    if s.len() > 0 && whitespace_char(s[0]) {
        trim_start_ws(s.drop_first())
    } else {
        s
    }
}

/// `s` without its trailing whitespace.
pub open spec fn trim_end_ws(s: Seq<char>) -> Seq<char>
    decreases s.len(),
{
    if s.len() > 0 && whitespace_char(s.last()) {
        trim_end_ws(s.drop_last())
    } else {
        s
    }
}

/// `s` without leading and trailing whitespace (`str::trim`).
pub open spec fn trim_ws(s: Seq<char>) -> Seq<char> {
    trim_end_ws(trim_start_ws(s))
}

/// The pieces of `s` between commas (`str::split(',')`): one more than the
/// number of commas.
pub open spec fn split_commas(s: Seq<char>) -> Seq<Seq<char>>
    decreases s.len(),
{
    if s.len() == 0 {
        seq![Seq::<char>::empty()]
    } else {
        let parts = split_commas(s.drop_last());
        if s.last() == ',' {
            parts.push(Seq::<char>::empty())
        } else {
            parts.update(parts.len() - 1, parts.last().push(s.last()))
        }
    }
}

/// `split_commas` always yields at least one piece.
proof fn lemma_split_commas_len(s: Seq<char>)
    ensures
        split_commas(s).len() >= 1,
    decreases s.len(),
{
    if s.len() > 0 {
        lemma_split_commas_len(s.drop_last());
    }
}

/// The old keys that an `ENCRYPT_OLD_KEYS` value lists: unset or empty gives
/// none; else its comma-separated pieces, each trimmed.
pub open spec fn old_keys_from(v: Option<String>) -> Seq<Seq<char>> {
    match v {
        Some(s) => if s@.len() == 0 {
            Seq::empty()
        } else {
            split_commas(s@).map_values(|p: Seq<char>| trim_ws(p))
        },
        None => Seq::empty(),
    }
}

/// The characters `cs` without leading and trailing whitespace.
fn trim_chars(cs: &[char]) -> (s: String)
    ensures
        s@ == trim_ws(cs@),
{
    let n = cs.len();
    let mut start: usize = 0;
    assert(cs@.subrange(0, n as int) =~= cs@);
    while start < n && is_whitespace(cs[start])
        invariant
            start <= n,
            n == cs@.len(),
            trim_start_ws(cs@) == trim_start_ws(cs@.subrange(start as int, n as int)),
        decreases n - start,
    {
        assert(cs@.subrange(start as int, n as int).drop_first() =~= cs@.subrange(
            start + 1,
            n as int,
        ));
        start = start + 1;
    }
    assert(trim_start_ws(cs@) == cs@.subrange(start as int, n as int));
    let mut end: usize = n;
    while end > start && is_whitespace(cs[end - 1])
        invariant
            start <= end <= n,
            n == cs@.len(),
            trim_ws(cs@) == trim_end_ws(cs@.subrange(start as int, end as int)),
        decreases end - start,
    {
        assert(cs@.subrange(start as int, end as int).drop_last() =~= cs@.subrange(
            start as int,
            end - 1,
        ));
        end = end - 1;
    }
    let piece = slice_chars(cs, start, end);
    string_from_chars(piece)
}

/// The characters `cs[start..end]`.
fn slice_chars(cs: &[char], start: usize, end: usize) -> (r: &[char])
    requires
        start <= end <= cs@.len(),
    ensures
        r@ == cs@.subrange(start as int, end as int),
{
    let (head, _) = cs.split_at(end);
    let (_, tail) = head.split_at(start);
    assert(tail@ =~= cs@.subrange(start as int, end as int));
    tail
}

/// The trimmed comma-separated pieces of `s`.
fn split_trim(s: &str) -> (keys: Vec<String>)
    ensures
        keys@.len() == split_commas(s@).len(),
        forall|j: int| 0 <= j < keys@.len() ==> (#[trigger] keys@[j])@ == trim_ws(split_commas(s@)[j]),
{
    let mut keys: Vec<String> = Vec::new();
    let mut cur: Vec<char> = Vec::new();
    let mut i: usize = 0;
    let total = s.unicode_len();
    for c in it: s.chars()
        invariant
            it.seq() == s@,
            total == s@.len(),
            i == it.index(),
            i <= s@.len(),
            split_commas(s@.take(i as int)).len() == keys@.len() + 1,
            forall|j: int| 0 <= j < keys@.len() ==> (#[trigger] keys@[j])@ == trim_ws(split_commas(s@.take(i as int))[j]),
            cur@ == split_commas(s@.take(i as int)).last(),
    {
        let ghost prev = s@.take(i as int);
        proof {
            lemma_split_commas_len(prev);
            assert(s@.take(i + 1).drop_last() =~= prev);
            assert(s@.take(i + 1).last() == c);
        }
        if c == ',' {
            let k = trim_chars(cur.as_slice());
            keys.push(k);
            cur = Vec::new();
        } else {
            cur.push(c);
        }
        i = i + 1;
        proof {
            let now = s@.take(i as int);
            assert forall|j: int| 0 <= j < keys@.len() implies (#[trigger] keys@[j])@ == trim_ws(split_commas(now)[j]) by {
                if j < keys@.len() - 1 || c != ',' {
                    assert(split_commas(now)[j] == split_commas(prev)[j]);
                }
            }
        }
    }
    assert(s@.take(i as int) =~= s@);
    let last = trim_chars(cur.as_slice());
    keys.push(last);
    keys
}

impl EncryptConfig {
    /// The configuration that `ENCRYPT_KEY` and `ENCRYPT_OLD_KEYS` describe:
    /// an error when the key is unset; old keys as comma-separated, trimmed
    /// pieces (none when unset or empty).
    pub fn from_env_values(key: Option<String>, old_keys: Option<String>) -> (r: Result<
        EncryptConfig,
        EncryptError,
    >)
        ensures
            match key {
                None => r matches Err(e) && e@ == EncryptErrorView::InvalidFormat(
                    "missing ENCRYPT_KEY env var"@,
                ),
                Some(k) => r matches Ok(c) && c.key@ == k@ && c.old_keys@.len() == old_keys_from(
                    old_keys,
                ).len() && forall|j: int|
                    0 <= j < c.old_keys@.len() ==> (#[trigger] c.old_keys@[j])@ == old_keys_from(
                        old_keys,
                    )[j],
            },
    {
        let key = match key {
            Some(k) => k,
            None => return Err(EncryptError::invalid_format("missing ENCRYPT_KEY env var")),
        };
        let keys: Vec<String> = match &old_keys {
            Some(s) => if s.as_str().unicode_len() == 0 {
                Vec::new()
            } else {
                split_trim(s.as_str())
            },
            None => Vec::new(),
        };
        Ok(EncryptConfig { key, old_keys: keys })
    }
}

} // verus!
