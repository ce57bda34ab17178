//! NanoID: short random identifiers drawn from a configurable alphabet.

use vstd::prelude::*;

use super::IdError;
use crate::entropy::random_bytes;
use crate::text::{ascii_chars, ascii_to_string, is_ascii_bytes};

verus! {

/// Length of a default NanoID.
pub const DEFAULT_SIZE: usize = 21;

/// The default alphabet: `A-Z`, `a-z`, `0-9`, `_` and `-` (64 URL-safe characters).
pub open spec fn default_alphabet_spec() -> Seq<u8> {
    Seq::new(
        64,
        |i: int|
            if i < 26 {
                (65 + i) as u8
            } else if i < 52 {
                (97 + i - 26) as u8
            } else if i < 62 {
                (48 + i - 52) as u8
            } else if i == 62 {
                95u8
            } else {
                45u8
            },
    )
}

/// The default alphabet as bytes.
pub fn default_alphabet() -> (a: Vec<u8>)
    ensures
        a@ == default_alphabet_spec(),
{
    let mut a: Vec<u8> = Vec::new();
    let mut i: u8 = 0;
    while i < 64
        invariant
            i <= 64,
            a@ == default_alphabet_spec().take(i as int),
        decreases 64 - i,
    {
        let c: u8 = if i < 26 {
            65 + i
        } else if i < 52 {
            97 + i - 26
        } else if i < 62 {
            48 + i - 52
        } else if i == 62 {
            95
        } else {
            45
        };
        a.push(c);
        i = i + 1;
        assert(a@ =~= default_alphabet_spec().take(i as int));
    }
    assert(a@ =~= default_alphabet_spec());
    a
}

/// The mask `2^k - 1` (`k >= 1`) built by doubling from 1 until it reaches `n`.
pub open spec fn mask_from(m: nat, n: nat) -> nat
    decreases (if m < n { n - m } else { 0 }),
{
    if m >= n {
        m
    } else {
        mask_from(2 * m + 1, n)
    }
}

/// The smallest mask of the form `2^k - 1` (`k >= 1`) that is at least `n`.
pub open spec fn mask_for(n: nat) -> nat {
    mask_from(1, n)
}

/// The byte values `b & mask` of `random` that index into the alphabet, mapped
/// to the alphabet's characters, in order.
pub open spec fn picks(alphabet: Seq<u8>, mask: usize, random: Seq<u8>) -> Seq<u8>
    decreases random.len(),
{
    if random.len() == 0 {
        seq![]
    } else {
        let rest = picks(alphabet, mask, random.drop_last());
        let idx = ((random.last() as usize) & mask) as int;
        if idx < alphabet.len() {
            rest.push(alphabet[idx])
        } else {
            rest
        }
    }
}

proof fn lemma_picks_prefix(alphabet: Seq<u8>, mask: usize, random: Seq<u8>, j: int)
    requires
        0 <= j <= random.len(),
    ensures
        picks(alphabet, mask, random.take(j)).len() <= picks(alphabet, mask, random).len(),
        picks(alphabet, mask, random.take(j)) == picks(alphabet, mask, random).take(
            picks(alphabet, mask, random.take(j)).len() as int,
        ),
    decreases random.len(),
{
    if j == random.len() {
        assert(random.take(j) =~= random);
    } else {
        assert(random.drop_last().take(j) =~= random.take(j));
        lemma_picks_prefix(alphabet, mask, random.drop_last(), j);
        let p = picks(alphabet, mask, random.drop_last());
        let q = picks(alphabet, mask, random);
        assert(q.take(p.len() as int) =~= p);
        let pj = picks(alphabet, mask, random.take(j));
        assert(q.take(pj.len() as int) =~= p.take(pj.len() as int));
    }
}

/// Characters of an alphabet picked by the bytes `random`, appended to `out`
/// until it holds `size` characters: each byte `b` gives `alphabet[b & mask]`
/// when that index is inside the alphabet and is skipped otherwise.
pub fn pick_from_random(
    alphabet: &[u8],
    mask: usize,
    random: &[u8],
    out: &mut Vec<u8>,
    size: usize,
)
    requires
        old(out)@.len() <= size,
    ensures
        final(out)@ == (if old(out)@.len() + picks(alphabet@, mask, random@).len() <= size {
            old(out)@ + picks(alphabet@, mask, random@)
        } else {
            (old(out)@ + picks(alphabet@, mask, random@)).take(size as int)
        }),
{
    let ghost start = out@;
    let alen = alphabet.len();
    let mut j: usize = 0;
    while j < random.len()
        invariant
            j <= random@.len(),
            alen == alphabet@.len(),
            start == old(out)@,
            start.len() <= size,
            out@ == start + picks(alphabet@, mask, random@.take(j as int)),
            out@.len() <= size,
        ensures
            out@ == start + picks(alphabet@, mask, random@.take(j as int)),
            j == random@.len() || out@.len() == size,
            out@.len() <= size,
            j <= random@.len(),
        decreases random@.len() - j,
    {
        if out.len() == size {
            break;
        }
        let b = random[j];
        let idx = (b as usize) & mask;
        assert(random@.take(j + 1).drop_last() =~= random@.take(j as int));
        if idx < alen {
            out.push(alphabet[idx]);
        }
        j = j + 1;
        assert(out@ =~= start + picks(alphabet@, mask, random@.take(j as int)));
    }
    proof {
        let all = picks(alphabet@, mask, random@);
        let got = picks(alphabet@, mask, random@.take(j as int));
        lemma_picks_prefix(alphabet@, mask, random@, j as int);
        if j == random@.len() {
            assert(random@.take(j as int) =~= random@);
        } else {
            assert(out@.len() == size);
            assert((start + all).take(size as int) =~= start + got);
        }
    }
}

/// Every byte of `s` is one of the alphabet's.
pub open spec fn drawn_from(s: Seq<u8>, alphabet: Seq<u8>) -> bool {
    forall|i: int| 0 <= i < s.len() ==> alphabet.contains(#[trigger] s[i])
}

proof fn lemma_picks_drawn(alphabet: Seq<u8>, mask: usize, random: Seq<u8>)
    ensures
        drawn_from(picks(alphabet, mask, random), alphabet),
    decreases random.len(),
{
    if random.len() > 0 {
        lemma_picks_drawn(alphabet, mask, random.drop_last());
        let rest = picks(alphabet, mask, random.drop_last());
        let idx = ((random.last() as usize) & mask) as int;
        if idx < alphabet.len() {
            let q = rest.push(alphabet[idx]);
            assert forall|i: int| 0 <= i < q.len() implies alphabet.contains(#[trigger] q[i]) by {
                if i < rest.len() {
                    assert(q[i] == rest[i]);
                } else {
                    assert(alphabet[idx] == q[i]);
                }
            }
        }
    }
}

/// A random string of `size` characters of `alphabet`: random bytes are
/// masked to the smallest `2^k - 1` covering the alphabet and bytes that fall
/// outside it are skipped. The alphabet must be ASCII, non-empty and at most
/// 256 bytes long. Random bytes are drawn in rounds of 256; after `u64::MAX`
/// rounds any characters still missing are the alphabet's first, so the loop
/// ends on every input (in practice a round almost always completes it).
pub fn generate_nanoid_custom(alphabet: &[u8], size: usize) -> (s: String)
    requires
        0 < alphabet@.len() <= 256,
        is_ascii_bytes(alphabet@),
    ensures
        exists|b: Seq<u8>|
            b.len() == size && drawn_from(b, alphabet@) && s@ == #[trigger] ascii_chars(b),
{
    let alen = alphabet.len();
    let mut mask: usize = 1;
    while mask < alen
        invariant
            1 <= mask <= 511,
            alen <= 256,
            mask_from(mask as nat, alen as nat) == mask_for(alen as nat),
        decreases 512 - mask,
    {
        mask = mask * 2 + 1;
    }
    let mut result: Vec<u8> = Vec::new();
    let mut rounds: u64 = u64::MAX;
    while result.len() < size
        invariant
            result@.len() <= size,
            drawn_from(result@, alphabet@),
            alen == alphabet@.len(),
            alen > 0,
        decreases rounds, size - result@.len(),
    {
        if rounds == 0 {
            result.push(alphabet[0]);
        } else {
            rounds = rounds - 1;
            let buf = random_bytes(256);
            let ghost before = result@;
            pick_from_random(alphabet, mask, buf.as_slice(), &mut result, size);
            proof {
                lemma_picks_drawn(alphabet@, mask, buf@);
                let p = picks(alphabet@, mask, buf@);
                assert forall|i: int| 0 <= i < result@.len() implies alphabet@.contains(
                    #[trigger] result@[i],
                ) by {
                    if i < before.len() {
                        assert(result@[i] == before[i]);
                    } else {
                        assert(result@[i] == p[i - before.len()]);
                    }
                }
            }
        }
    }
    let ghost b = result@;
    proof {
        assert forall|i: int| 0 <= i < b.len() implies #[trigger] b[i] < 128 by {
            assert(alphabet@.contains(b[i]));
            let k = choose|k: int| 0 <= k < alphabet@.len() && alphabet@[k] == b[i];
        }
    }
    ascii_to_string(result)
}

/// A NanoID.
#[derive(Debug, Clone, PartialEq, Eq, Hash, PartialOrd, Ord)]
pub struct NanoId(String);

impl View for NanoId {
    type V = Seq<char>;

    closed spec fn view(&self) -> Seq<char> {
        self.0@
    }
}

impl NanoId {
    /// A 21-character NanoID over the default alphabet.
    pub fn generate() -> (id: NanoId)
        ensures
            exists|b: Seq<u8>|
                b.len() == DEFAULT_SIZE && drawn_from(b, default_alphabet_spec()) && id@
                    == #[trigger] ascii_chars(b),
    {
        let a = default_alphabet();
        proof {
            lemma_default_alphabet_ascii();
        }
        NanoId(generate_nanoid_custom(a.as_slice(), DEFAULT_SIZE))
    }

    /// Same as [`NanoId::generate`].
    pub fn new() -> (id: NanoId)
        ensures
            exists|b: Seq<u8>|
                b.len() == DEFAULT_SIZE && drawn_from(b, default_alphabet_spec()) && id@
                    == #[trigger] ascii_chars(b),
    {
        Self::generate()
    }

    /// A NanoID of `size` characters over the default alphabet.
    pub fn with_size(size: usize) -> (id: NanoId)
        ensures
            exists|b: Seq<u8>|
                b.len() == size && drawn_from(b, default_alphabet_spec()) && id@
                    == #[trigger] ascii_chars(b),
    {
        let a = default_alphabet();
        proof {
            lemma_default_alphabet_ascii();
        }
        NanoId(generate_nanoid_custom(a.as_slice(), size))
    }

    /// A NanoID of `size` characters over a custom ASCII alphabet.
    pub fn custom(alphabet: &[u8], size: usize) -> (id: NanoId)
        requires
            0 < alphabet@.len() <= 256,
            is_ascii_bytes(alphabet@),
        ensures
            exists|b: Seq<u8>|
                b.len() == size && drawn_from(b, alphabet@) && id@ == #[trigger] ascii_chars(b),
    {
        NanoId(generate_nanoid_custom(alphabet, size))
    }

    pub fn as_str(&self) -> (s: &str)
        ensures
            s@ == self@,
    {
        self.0.as_str()
    }

    /// The text of the NanoID.
    pub fn to_string(&self) -> (s: String)
        ensures
            s@ == self@,
    {
        self.0.clone()
    }

    /// Any non-empty string is accepted as a NanoID.
    pub fn from_str(s: &str) -> (res: Result<NanoId, IdError>)
        ensures
            s@.len() == 0 ==> res == Err::<NanoId, IdError>(
                IdError::InvalidFormat("nanoid", "must not be empty"),
            ),
            s@.len() > 0 ==> (res matches Ok(id) && id@ == s@),
    {
        if s.is_empty() {
            return Err(IdError::InvalidFormat("nanoid", "must not be empty"));
        }
        Ok(NanoId(s.to_owned()))
    }
}

proof fn lemma_default_alphabet_ascii()
    ensures
        is_ascii_bytes(default_alphabet_spec()),
        default_alphabet_spec().len() == 64,
{
}

impl Default for NanoId {
    /// A fresh default NanoID.
    fn default() -> (id: NanoId)
        ensures
            exists|b: Seq<u8>|
                b.len() == DEFAULT_SIZE && drawn_from(b, default_alphabet_spec()) && id@
                    == #[trigger] ascii_chars(b),
    {
        Self::generate()
    }
}

} // verus!
