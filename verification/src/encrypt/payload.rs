//! The plaintext inside an encrypted token: compact JSON
//! `{"v":"<value>"[,"p":"<purpose>"][,"e":<expiry>]}`, with strings escaped as
//! `serde_json` writes them.

use vstd::prelude::*;

use vstd::slice::slice_subrange;

use crate::text::{
    bytes_eq, i64_decimal, lemma_i64_decimal_parse, parse_i64, parse_i64_spec, push_i64_decimal,
};

verus! {

/// Lowercase hexadecimal digit of `d` (`0..16`).
pub open spec fn hex_digit(d: int) -> u8 {
    if d < 10 {
        (48 + d) as u8
    } else {
        (97 + d - 10) as u8
    }
}

/// Value of a lowercase hexadecimal digit, or `None`.
pub open spec fn hex_value(c: u8) -> Option<int> {
    if 48 <= c <= 57 {
        Some(c - 48)
    } else if 97 <= c <= 102 {
        Some(c - 97 + 10)
    } else {
        None
    }
}

/// How one byte of a string is written inside JSON quotes.
pub open spec fn escape_byte(b: u8) -> Seq<u8> {
    if b == 34 {
        seq![92u8, 34u8]
    } else if b == 92 {
        seq![92u8, 92u8]
    } else if b == 8 {
        seq![92u8, 98u8]
    } else if b == 12 {
        seq![92u8, 102u8]
    } else if b == 10 {
        seq![92u8, 110u8]
    } else if b == 13 {
        seq![92u8, 114u8]
    } else if b == 9 {
        seq![92u8, 116u8]
    } else if b < 32 {
        seq![92u8, 117u8, 48u8, 48u8, hex_digit((b / 16) as int), hex_digit((b % 16) as int)]
    } else {
        seq![b]
    }
}

/// How a string is written inside JSON quotes.
pub open spec fn escape(s: Seq<u8>) -> Seq<u8>
    decreases s.len(),
{
    if s.len() == 0 {
        seq![]
    } else {
        escape_byte(s[0]) + escape(s.drop_first())
    }
}

/// The escape unit at position `i` (which is not a quote): the byte it
/// stands for and its length. Only the forms that `escape_byte` writes are read.
pub open spec fn unescape_one(b: Seq<u8>, i: int) -> Option<(u8, int)> {
    if i < 0 || i >= b.len() {
        None
    } else if b[i] == 92 {
        if i + 1 >= b.len() {
            None
        } else {
            let c = b[i + 1];
            if c == 34 {
                Some((34u8, 2))
            } else if c == 92 {
                Some((92u8, 2))
            } else if c == 98 {
                Some((8u8, 2))
            } else if c == 102 {
                Some((12u8, 2))
            } else if c == 110 {
                Some((10u8, 2))
            } else if c == 114 {
                Some((13u8, 2))
            } else if c == 116 {
                Some((9u8, 2))
            } else if c == 117 && b.len() - i > 5 && b[i + 2] == 48 && b[i + 3] == 48 {
                match (hex_value(b[i + 4]), hex_value(b[i + 5])) {
                    (Some(h1), Some(h2)) => {
                        let x = 16 * h1 + h2;
                        if x < 32 && x != 8 && x != 9 && x != 10 && x != 12 && x != 13 {
                            Some((x as u8, 6))
                        } else {
                            None
                        }
                    },
                    _ => None,
                }
            } else {
                None
            }
        }
    } else if b[i] < 32 {
        None
    } else {
        Some((b[i], 1))
    }
}

/// The string that starts at position `i` (just after its opening quote) and
/// the position just after its closing quote.
pub open spec fn read_str(b: Seq<u8>, i: int) -> Option<(Seq<u8>, int)>
    decreases b.len() - i,
{
    if i < 0 || i >= b.len() {
        None
    } else if b[i] == 34 {
        Some((seq![], i + 1))
    } else {
        match unescape_one(b, i) {
            None => None,
            Some((x, n)) => if n >= 1 {
                match read_str(b, i + n) {
                    None => None,
                    Some((rest, end)) => Some((seq![x] + rest, end)),
                }
            } else {
                None
            },
        }
    }
}

proof fn lemma_unescape_escape_byte(pre: Seq<u8>, x: u8, tail: Seq<u8>)
    ensures
        unescape_one(pre + escape_byte(x) + tail, pre.len() as int) == Some(
            (x, escape_byte(x).len() as int),
        ),
        (pre + escape_byte(x) + tail)[pre.len() as int] != 34,
{
    let b = pre + escape_byte(x) + tail;
    let i = pre.len() as int;
    let e = escape_byte(x);
    assert(b[i] == e[0]);
    if e.len() >= 2 {
        assert(b[i + 1] == e[1]);
    }
    if e.len() == 6 {
        assert(b[i + 2] == e[2]);
        assert(b[i + 3] == e[3]);
        assert(b[i + 4] == e[4]);
        assert(b[i + 5] == e[5]);
        assert(x < 32);
        let h1 = x / 16;
        let h2 = x % 16;
        assert(hex_value(hex_digit(h1 as int)) == Some(h1 as int));
        assert(hex_value(hex_digit(h2 as int)) == Some(h2 as int));
        assert(16 * h1 + h2 == x);
    }
}

/// Reading back an escaped string followed by a quote gives the string.
pub proof fn lemma_read_escaped(pre: Seq<u8>, s: Seq<u8>, tail: Seq<u8>)
    ensures
        read_str(pre + escape(s) + seq![34u8] + tail, pre.len() as int) == Some(
            (s, (pre.len() + escape(s).len() + 1) as int),
        ),
    decreases s.len(),
{
    let b = pre + escape(s) + seq![34u8] + tail;
    let i = pre.len() as int;
    if s.len() == 0 {
        assert(escape(s) =~= Seq::<u8>::empty());
        assert(b[i] == 34);
    } else {
        let x = s[0];
        let rest = s.drop_first();
        let e = escape_byte(x);
        assert(escape(s) == e + escape(rest));
        lemma_unescape_escape_byte(pre, x, escape(rest) + seq![34u8] + tail);
        assert(b =~= pre + e + (escape(rest) + seq![34u8] + tail));
        let pre2 = pre + e;
        lemma_read_escaped(pre2, rest, tail);
        assert(b =~= pre2 + escape(rest) + seq![34u8] + tail);
        assert(e.len() >= 1);
        assert(seq![x] + rest =~= s);
    }
}

/// `{"v":"`
pub open spec fn open_v() -> Seq<u8> {
    seq![123u8, 34u8, 118u8, 34u8, 58u8, 34u8]
}

/// `,"p":"`
pub open spec fn sep_p() -> Seq<u8> {
    seq![44u8, 34u8, 112u8, 34u8, 58u8, 34u8]
}

/// `,"e":`
pub open spec fn sep_e() -> Seq<u8> {
    seq![44u8, 34u8, 101u8, 34u8, 58u8]
}

/// Value, optional purpose and optional expiry (Unix seconds) of a token.
pub struct Payload {
    pub v: Vec<u8>,
    pub p: Option<Vec<u8>>,
    pub e: Option<i64>,
}

/// The abstract content of a payload: value bytes, purpose bytes, expiry.
pub type PayloadView = (Seq<u8>, Option<Seq<u8>>, Option<i64>);

impl View for Payload {
    type V = PayloadView;

    open spec fn view(&self) -> PayloadView {
        (
            self.v@,
            match self.p {
                Some(p) => Some(p@),
                None => None,
            },
            self.e,
        )
    }
}

/// The JSON text of a payload, fields in the order `v`, `p`, `e`, absent
/// fields left out.
pub open spec fn payload_json(p: PayloadView) -> Seq<u8> {
    open_v() + escape(p.0) + seq![34u8] + purpose_text(p.1) + expiry_text(p.2) + seq![125u8]
}

/// `pat` stands in `b` at position `i`.
pub open spec fn has_at(b: Seq<u8>, i: int, pat: Seq<u8>) -> bool {
    0 <= i && i + pat.len() <= b.len() && b.subrange(i, i + pat.len()) == pat
}

/// The end of a payload from position `j`: an optional `e` field, then `}`
/// as the last byte.
pub open spec fn parse_tail(b: Seq<u8>, v: Seq<u8>, q: Option<Seq<u8>>, j: int) -> Option<
    PayloadView,
> {
    if has_at(b, j, sep_e()) {
        let region = b.subrange(j + 5, b.len() - 1);
        if b.len() - j >= 6 && b[b.len() - 1] == 125 {
            match parse_i64_spec(region) {
                Some(n) => if i64_decimal(n) == region {
                    Some((v, q, Some(n)))
                } else {
                    None
                },
                None => None,
            }
        } else {
            None
        }
    } else if j < b.len() && b.len() - j == 1 && b[j] == 125 {
        Some((v, q, None))
    } else {
        None
    }
}

/// Read a payload back from its JSON text; only the text that
/// `payload_json` writes is accepted.
pub open spec fn parse_payload(b: Seq<u8>) -> Option<PayloadView> {
    if !has_at(b, 0, open_v()) {
        None
    } else {
        match read_str(b, 6) {
            None => None,
            Some((v, i)) => if has_at(b, i, sep_p()) {
                match read_str(b, i + 6) {
                    None => None,
                    Some((q, j)) => parse_tail(b, v, Some(q), j),
                }
            } else {
                parse_tail(b, v, None, i)
            },
        }
    }
}

/// The text of the optional purpose field.
pub open spec fn purpose_text(q: Option<Seq<u8>>) -> Seq<u8> {
    match q {
        Some(q) => sep_p() + escape(q) + seq![34u8],
        None => seq![],
    }
}

/// The text of the optional expiry field.
pub open spec fn expiry_text(e: Option<i64>) -> Seq<u8> {
    match e {
        Some(n) => sep_e() + i64_decimal(n),
        None => seq![],
    }
}

proof fn lemma_parse_tail(pre: Seq<u8>, v: Seq<u8>, q: Option<Seq<u8>>, e: Option<i64>)
    ensures
        parse_tail(pre + expiry_text(e) + seq![125u8], v, q, pre.len() as int) == Some((v, q, e)),
{
    let b = pre + expiry_text(e) + seq![125u8];
    let j = pre.len() as int;
    match e {
        Some(n) => {
            lemma_i64_decimal_parse(n);
            assert(b.subrange(j, j + 5) =~= sep_e());
            assert(b.subrange(j + 5, b.len() - 1) =~= i64_decimal(n));
        },
        None => {
            assert(b[j] == 125);
            if has_at(b, j, sep_e()) {
                assert(b.subrange(j, j + 5)[0] == b[j]);
            }
        },
    }
}

proof fn lemma_after_value(pre: Seq<u8>, v: Seq<u8>, q: Option<Seq<u8>>, e: Option<i64>)
    ensures
        ({
            let b = pre + purpose_text(q) + expiry_text(e) + seq![125u8];
            let i = pre.len() as int;
            (if has_at(b, i, sep_p()) {
                match read_str(b, i + 6) {
                    None => None,
                    Some((q2, j)) => parse_tail(b, v, Some(q2), j),
                }
            } else {
                parse_tail(b, v, None, i)
            }) == Some((v, q, e))
        }),
{
    let b = pre + purpose_text(q) + expiry_text(e) + seq![125u8];
    let i = pre.len() as int;
    match q {
        Some(qq) => {
            assert(b.subrange(i, i + 6) =~= sep_p());
            let pre3 = pre + sep_p();
            lemma_read_escaped(pre3, qq, expiry_text(e) + seq![125u8]);
            assert(b =~= pre3 + escape(qq) + seq![34u8] + (expiry_text(e) + seq![125u8]));
            let pre4 = pre3 + escape(qq) + seq![34u8];
            assert(b =~= pre4 + expiry_text(e) + seq![125u8]);
            lemma_parse_tail(pre4, v, q, e);
        },
        None => {
            assert(b =~= pre + expiry_text(e) + seq![125u8]);
            if has_at(b, i, sep_p()) {
                let t = b.subrange(i, i + 6);
                assert(t[0] == b[i] && t[2] == b[i + 2]);
                match e {
                    Some(n) => {
                        assert(b[i + 2] == 101);
                    },
                    None => {
                        assert(b[i] == 125);
                    },
                }
            }
            lemma_parse_tail(pre, v, q, e);
        },
    }
}

/// Reading a payload back from its JSON text gives the payload.
pub proof fn lemma_payload_roundtrip(p: PayloadView)
    ensures
        parse_payload(payload_json(p)) == Some(p),
{
    let b = payload_json(p);
    let tail = purpose_text(p.1) + expiry_text(p.2) + seq![125u8];
    assert(b =~= open_v() + escape(p.0) + seq![34u8] + tail);
    assert(b.subrange(0, 6) =~= open_v());
    lemma_read_escaped(open_v(), p.0, tail);
    let pre2 = open_v() + escape(p.0) + seq![34u8];
    assert(b =~= pre2 + purpose_text(p.1) + expiry_text(p.2) + seq![125u8]);
    lemma_after_value(pre2, p.0, p.1, p.2);
}

proof fn lemma_escape_concat(a: Seq<u8>, b: Seq<u8>)
    ensures
        escape(a + b) == escape(a) + escape(b),
    decreases a.len(),
{
    if a.len() == 0 {
        assert(a + b =~= b);
        assert(escape(a) =~= Seq::<u8>::empty());
        assert(escape(a) + escape(b) =~= escape(b));
    } else {
        assert((a + b).drop_first() =~= a.drop_first() + b);
        lemma_escape_concat(a.drop_first(), b);
        assert(escape(a + b) == escape_byte(a[0]) + escape(a.drop_first() + b));
        assert(escape(a + b) =~= escape(a) + escape(b));
    }
}

fn push_all(out: &mut Vec<u8>, bytes: &[u8])
    ensures
        final(out)@ == old(out)@ + bytes@,
{
    let mut i: usize = 0;
    while i < bytes.len()
        invariant
            i <= bytes@.len(),
            out@ == old(out)@ + bytes@.take(i as int),
        decreases bytes@.len() - i,
    {
        out.push(bytes[i]);
        i = i + 1;
        assert(out@ =~= old(out)@ + bytes@.take(i as int));
    }
    assert(bytes@.take(i as int) =~= bytes@);
}

fn hex_char(d: u8) -> (c: u8)
    requires
        d < 16,
    ensures
        c == hex_digit(d as int),
{
    if d < 10 {
        48 + d
    } else {
        97 + d - 10
    }
}

fn push_escaped_byte(out: &mut Vec<u8>, b: u8)
    ensures
        final(out)@ == old(out)@ + escape_byte(b),
{
    if b == 34 {
        push_all(out, &[92u8, 34u8]);
    } else if b == 92 {
        push_all(out, &[92u8, 92u8]);
    } else if b == 8 {
        push_all(out, &[92u8, 98u8]);
    } else if b == 12 {
        push_all(out, &[92u8, 102u8]);
    } else if b == 10 {
        push_all(out, &[92u8, 110u8]);
    } else if b == 13 {
        push_all(out, &[92u8, 114u8]);
    } else if b == 9 {
        push_all(out, &[92u8, 116u8]);
    } else if b < 32 {
        let h1 = hex_char(b / 16);
        let h2 = hex_char(b % 16);
        push_all(out, &[92u8, 117u8, 48u8, 48u8, h1, h2]);
    } else {
        out.push(b);
    }
    assert(out@ =~= old(out)@ + escape_byte(b));
}

/// Append the JSON-escaped form of `s` to `out`.
fn push_escaped(out: &mut Vec<u8>, s: &[u8])
    ensures
        final(out)@ == old(out)@ + escape(s@),
{
    let mut i: usize = 0;
    while i < s.len()
        invariant
            i <= s@.len(),
            out@ == old(out)@ + escape(s@.take(i as int)),
        decreases s@.len() - i,
    {
        proof {
            lemma_escape_concat(s@.take(i as int), seq![s@[i as int]]);
            assert(s@.take(i as int) + seq![s@[i as int]] =~= s@.take(i + 1));
            assert(escape(seq![s@[i as int]]) == escape_byte(s@[i as int]) + escape(
                seq![s@[i as int]].drop_first(),
            ));
            assert(seq![s@[i as int]].drop_first() =~= Seq::<u8>::empty());
            assert(escape(seq![s@[i as int]]) =~= escape_byte(s@[i as int]));
        }
        push_escaped_byte(out, s[i]);
        i = i + 1;
        assert(out@ =~= old(out)@ + escape(s@.take(i as int)));
    }
    assert(s@.take(i as int) =~= s@);
}

/// The JSON text of a payload.
pub fn encode_payload(p: &Payload) -> (out: Vec<u8>)
    ensures
        out@ == payload_json(p@),
{
    let mut out: Vec<u8> = Vec::new();
    push_all(&mut out, &[123u8, 34u8, 118u8, 34u8, 58u8, 34u8]);
    push_escaped(&mut out, p.v.as_slice());
    out.push(34);
    let ghost after_v = out@;
    match &p.p {
        Some(q) => {
            push_all(&mut out, &[44u8, 34u8, 112u8, 34u8, 58u8, 34u8]);
            push_escaped(&mut out, q.as_slice());
            out.push(34);
        },
        None => {},
    }
    assert(out@ =~= after_v + purpose_text(p@.1));
    let ghost after_p = out@;
    match p.e {
        Some(n) => {
            push_all(&mut out, &[44u8, 34u8, 101u8, 34u8, 58u8]);
            push_i64_decimal(n, &mut out);
        },
        None => {},
    }
    assert(out@ =~= after_p + expiry_text(p@.2));
    out.push(125);
    assert(out@ =~= payload_json(p@));
    out
}

fn hex_val(c: u8) -> (r: Option<u8>)
    ensures
        match hex_value(c) {
            Some(v) => r == Some(v as u8),
            None => r is None,
        },
{
    if 48 <= c && c <= 57 {
        Some(c - 48)
    } else if 97 <= c && c <= 102 {
        Some(c - 97 + 10)
    } else {
        None
    }
}

fn unescape_at(b: &[u8], i: usize) -> (r: Option<(u8, usize)>)
    ensures
        match unescape_one(b@, i as int) {
            Some((x, n)) => r == Some((x, n as usize)),
            None => r is None,
        },
{
    if i >= b.len() {
        return None;
    }
    if b[i] == 92 {
        if i + 1 >= b.len() {
            return None;
        }
        let c = b[i + 1];
        if c == 34 {
            Some((34, 2))
        } else if c == 92 {
            Some((92, 2))
        } else if c == 98 {
            Some((8, 2))
        } else if c == 102 {
            Some((12, 2))
        } else if c == 110 {
            Some((10, 2))
        } else if c == 114 {
            Some((13, 2))
        } else if c == 116 {
            Some((9, 2))
        } else if c == 117 && b.len() - i > 5 && b[i + 2] == 48 && b[i + 3] == 48 {
            match (hex_val(b[i + 4]), hex_val(b[i + 5])) {
                (Some(h1), Some(h2)) => {
                    let x = 16 * h1 + h2;
                    if x < 32 && x != 8 && x != 9 && x != 10 && x != 12 && x != 13 {
                        Some((x, 6))
                    } else {
                        None
                    }
                },
                _ => None,
            }
        } else {
            None
        }
    } else if b[i] < 32 {
        None
    } else {
        Some((b[i], 1))
    }
}

/// Read the JSON string that starts at `i` (after its opening quote).
fn read_string(b: &[u8], i: usize) -> (r: Option<(Vec<u8>, usize)>)
    ensures
        match read_str(b@, i as int) {
            Some((s, end)) => r matches Some((v, e)) && v@ == s && e == end,
            None => r is None,
        },
{
    let mut acc: Vec<u8> = Vec::new();
    let mut j = i;
    while j < b.len()
        invariant
            i <= j,
            read_str(b@, i as int) == match read_str(b@, j as int) {
                Some((rest, end)) => Some((acc@ + rest, end)),
                None => None,
            },
        decreases b@.len() - j,
    {
        if b[j] == 34 {
            assert(acc@ + Seq::<u8>::empty() =~= acc@);
            return Some((acc, j + 1));
        }
        match unescape_at(b, j) {
            None => {
                return None;
            },
            Some((x, n)) => {
                proof {
                    match read_str(b@, j + n) {
                        Some((rest, end)) => {
                            assert(acc@ + (seq![x] + rest) =~= acc@.push(x) + rest);
                        },
                        None => {},
                    }
                }
                acc.push(x);
                j = j + n;
            },
        }
    }
    None
}

/// Whether `pat` stands in `b` at position `i`.
fn has_pat(b: &[u8], i: usize, pat: &[u8]) -> (r: bool)
    ensures
        r == has_at(b@, i as int, pat@),
{
    if i > b.len() || b.len() - i < pat.len() {
        return false;
    }
    bytes_eq(slice_subrange(b, i, i + pat.len()), pat)
}

fn decode_tail(b: &[u8], v: Vec<u8>, q: Option<Vec<u8>>, j: usize) -> (r: Option<Payload>)
    ensures
        match parse_tail(
            b@,
            v@,
            match q {
                Some(x) => Some(x@),
                None => None,
            },
            j as int,
        ) {
            Some(pv) => r matches Some(p) && p@ == pv,
            None => r is None,
        },
{
    let se = sep_e_bytes();
    if has_pat(b, j, se.as_slice()) {
        if b.len() - j >= 6 && b[b.len() - 1] == 125 {
            let region = slice_subrange(b, j + 5, b.len() - 1);
            match parse_i64(region) {
                Some(n) => {
                    let mut text: Vec<u8> = Vec::new();
                    push_i64_decimal(n, &mut text);
                    assert(text@ =~= i64_decimal(n));
                    if bytes_eq(text.as_slice(), region) {
                        Some(Payload { v, p: q, e: Some(n) })
                    } else {
                        None
                    }
                },
                None => None,
            }
        } else {
            None
        }
    } else if j < b.len() && b.len() - j == 1 && b[j] == 125 {
        Some(Payload { v, p: q, e: None })
    } else {
        None
    }
}

fn open_v_bytes() -> (a: [u8; 6])
    ensures
        a@ == open_v(),
{
    let a: [u8; 6] = [123u8, 34u8, 118u8, 34u8, 58u8, 34u8];
    assert(a@ =~= open_v());
    a
}

fn sep_p_bytes() -> (a: [u8; 6])
    ensures
        a@ == sep_p(),
{
    let a: [u8; 6] = [44u8, 34u8, 112u8, 34u8, 58u8, 34u8];
    assert(a@ =~= sep_p());
    a
}

fn sep_e_bytes() -> (a: [u8; 5])
    ensures
        a@ == sep_e(),
{
    let a: [u8; 5] = [44u8, 34u8, 101u8, 34u8, 58u8];
    assert(a@ =~= sep_e());
    a
}

/// Read a payload from its JSON text; only the text that `encode_payload`
/// writes is accepted.
pub fn decode_payload(b: &[u8]) -> (r: Option<Payload>)
    ensures
        match parse_payload(b@) {
            Some(pv) => r matches Some(p) && p@ == pv,
            None => r is None,
        },
{
    let ov = open_v_bytes();
    if !has_pat(b, 0, ov.as_slice()) {
        return None;
    }
    match read_string(b, 6) {
        None => None,
        Some((v, i)) => {
            let sp = sep_p_bytes();
            let blen = b.len();
            if has_pat(b, i, sp.as_slice()) {
                assert(i + 6 <= blen);
                match read_string(b, i + 6) {
                    None => None,
                    Some((q, j)) => decode_tail(b, v, Some(q), j),
                }
            } else {
                decode_tail(b, v, None, i)
            }
        },
    }
}

} // verus!
