//! Password validation against configurable rules, and a coarse strength score.

use vstd::prelude::*;

use crate::text::{
    alphanumeric_char, lowercase_char, uppercase_char, is_alphanumeric, is_digit_char,
    is_lowercase, is_uppercase, utf8_len,
};

verus! {

/// Rules a password is checked against.
#[derive(Debug, Clone)]
pub struct PasswordPolicy {
    pub min_length: usize,
    pub max_length: usize,
    pub require_uppercase: bool,
    pub require_lowercase: bool,
    pub require_digit: bool,
    pub require_special: bool,
    /// Longest allowed run of one repeated character; `0` switches the rule off.
    pub max_consecutive: usize,
}

/// The first rule that a password breaks.
#[derive(Debug, Clone, PartialEq, Eq, Structural)]
pub enum PasswordPolicyError {
    TooShort { min: usize, len: usize },
    TooLong { max: usize, len: usize },
    NoUppercase,
    NoLowercase,
    NoDigit,
    NoSpecial,
    Consecutive { count: usize, max: usize },
}

/// Some character of `s` is uppercase.
pub open spec fn has_uppercase(s: Seq<char>) -> bool {
    exists|i: int| 0 <= i < s.len() && uppercase_char(#[trigger] s[i])
}

/// Some character of `s` is lowercase.
pub open spec fn has_lowercase(s: Seq<char>) -> bool {
    exists|i: int| 0 <= i < s.len() && lowercase_char(#[trigger] s[i])
}

/// Some character of `s` is an ASCII digit.
pub open spec fn has_digit(s: Seq<char>) -> bool {
    exists|i: int| 0 <= i < s.len() && is_digit_char(#[trigger] s[i])
}

/// Some character of `s` is neither alphabetic nor numeric.
pub open spec fn has_special(s: Seq<char>) -> bool {
    exists|i: int| 0 <= i < s.len() && !alphanumeric_char(#[trigger] s[i])
}

/// Length of the run of equal characters that ends at position `i`.
pub open spec fn run_ending_at(s: Seq<char>, i: int) -> nat
    decreases i,
{
    if i > 0 && i < s.len() && s[i] == s[i - 1] {
        run_ending_at(s, i - 1) + 1
    } else {
        1
    }
}

/// The longest run of one repeated character among the first `n` characters
/// (at least 1, also for the empty string).
pub open spec fn longest_run_upto(s: Seq<char>, n: int) -> nat
    decreases n,
{
    if n <= 0 {
        1
    } else {
        let prev = longest_run_upto(s, n - 1);
        let here = run_ending_at(s, n - 1);
        if here > prev {
            here
        } else {
            prev
        }
    }
}

/// The longest run of one repeated character in `s` (at least 1).
pub open spec fn longest_run(s: Seq<char>) -> nat {
    longest_run_upto(s, s.len() as int)
}

impl PasswordPolicy {
    /// What `validate` answers for a password with characters `s`.
    pub open spec fn validation(&self, s: Seq<char>) -> Result<(), PasswordPolicyError> {
        let len = utf8_len(s);
        if len < self.min_length {
            Err(PasswordPolicyError::TooShort { min: self.min_length, len: len as usize })
        } else if len > self.max_length {
            Err(PasswordPolicyError::TooLong { max: self.max_length, len: len as usize })
        } else if self.require_uppercase && !has_uppercase(s) {
            Err(PasswordPolicyError::NoUppercase)
        } else if self.require_lowercase && !has_lowercase(s) {
            Err(PasswordPolicyError::NoLowercase)
        } else if self.require_digit && !has_digit(s) {
            Err(PasswordPolicyError::NoDigit)
        } else if self.require_special && !has_special(s) {
            Err(PasswordPolicyError::NoSpecial)
        } else if self.max_consecutive > 0 && longest_run(s) > self.max_consecutive {
            Err(
                PasswordPolicyError::Consecutive {
                    count: longest_run(s) as usize,
                    max: self.max_consecutive,
                },
            )
        } else {
            Ok(())
        }
    }
}

/// How many of the four character classes occur in `s`.
pub open spec fn variety(s: Seq<char>) -> nat {
    (if has_uppercase(s) { 1nat } else { 0nat }) + (if has_lowercase(s) { 1nat } else { 0nat })
        + (if has_digit(s) { 1nat } else { 0nat }) + (if has_special(s) { 1nat } else { 0nat })
}

/// The strength score (0 to 4) of a password with characters `s`.
pub open spec fn strength_score(s: Seq<char>) -> u8 {
    let len = utf8_len(s);
    let v = variety(s);
    if len < 6 {
        0
    } else if len >= 16 && v >= 3 {
        4
    } else if len >= 12 && v >= 2 {
        3
    } else if len >= 8 && v >= 1 {
        2
    } else {
        1
    }
}

fn any_uppercase(s: &str) -> (r: bool)
    ensures
        r == has_uppercase(s@),
{
    for c in it: s.chars()
        invariant
            it.seq() == s@,
            forall|j: int| 0 <= j < it.index() ==> !uppercase_char(#[trigger] s@[j]),
    {
        if is_uppercase(c) {
            return true;
        }
    }
    false
}

fn any_lowercase(s: &str) -> (r: bool)
    ensures
        r == has_lowercase(s@),
{
    for c in it: s.chars()
        invariant
            it.seq() == s@,
            forall|j: int| 0 <= j < it.index() ==> !lowercase_char(#[trigger] s@[j]),
    {
        if is_lowercase(c) {
            return true;
        }
    }
    false
}

fn any_digit(s: &str) -> (r: bool)
    ensures
        r == has_digit(s@),
{
    for c in it: s.chars()
        invariant
            it.seq() == s@,
            forall|j: int| 0 <= j < it.index() ==> !is_digit_char(#[trigger] s@[j]),
    {
        if '0' <= c && c <= '9' {
            return true;
        }
    }
    false
}

fn any_special(s: &str) -> (r: bool)
    ensures
        r == has_special(s@),
{
    for c in it: s.chars()
        invariant
            it.seq() == s@,
            forall|j: int| 0 <= j < it.index() ==> alphanumeric_char(#[trigger] s@[j]),
    {
        if !is_alphanumeric(c) {
            return true;
        }
    }
    false
}

proof fn lemma_run_bounds(s: Seq<char>, i: int)
    requires
        0 <= i < s.len(),
    ensures
        1 <= run_ending_at(s, i) <= i + 1,
    decreases i,
{
    if i > 0 && s[i] == s[i - 1] {
        lemma_run_bounds(s, i - 1);
    }
}

proof fn lemma_longest_bounds(s: Seq<char>, n: int)
    requires
        0 <= n <= s.len(),
    ensures
        1 <= longest_run_upto(s, n) <= if n == 0 { 1 } else { n },
    decreases n,
{
    if n > 0 {
        lemma_longest_bounds(s, n - 1);
        lemma_run_bounds(s, n - 1);
    }
}

/// The longest run of one repeated character in `s`.
fn longest_run_of(s: &str) -> (r: usize)
    ensures
        r == longest_run(s@),
{
    let total = s.unicode_len();
    let mut max_run: usize = 1;
    let mut run: usize = 1;
    let mut prev: Option<char> = None;
    for c in it: s.chars()
        invariant
            it.seq() == s@,
            total == s@.len(),
            max_run == longest_run_upto(s@, it.index() as int),
            it.index() == 0 ==> prev is None,
            it.index() > 0 ==> prev == Some(s@[it.index() - 1]) && run == run_ending_at(
                s@,
                it.index() - 1,
            ),
    {
        let ghost i = it.index() as int;
        proof {
            lemma_longest_bounds(s@, i);
            if i > 0 {
                lemma_run_bounds(s@, i - 1);
            }
        }
        if prev == Some(c) {
            run = run + 1;
            if run > max_run {
                max_run = run;
            }
        } else {
            run = 1;
        }
        prev = Some(c);
    }
    max_run
}

impl PasswordPolicy {
    /// Policy for high-security environments: 12 to 128 bytes, every
    /// character class, at most 2 repeated characters in a row.
    pub fn strict() -> (p: Self)
        ensures
            p.min_length == 12 && p.max_length == 128,
            p.require_uppercase && p.require_lowercase && p.require_digit && p.require_special,
            p.max_consecutive == 2,
    {
        PasswordPolicy {
            min_length: 12,
            max_length: 128,
            require_uppercase: true,
            require_lowercase: true,
            require_digit: true,
            require_special: true,
            max_consecutive: 2,
        }
    }

    /// Relaxed policy: 6 to 256 bytes and no other rule.
    pub fn relaxed() -> (p: Self)
        ensures
            p.min_length == 6 && p.max_length == 256,
            !p.require_uppercase && !p.require_lowercase && !p.require_digit && !p.require_special,
            p.max_consecutive == 0,
    {
        PasswordPolicy {
            min_length: 6,
            max_length: 256,
            require_uppercase: false,
            require_lowercase: false,
            require_digit: false,
            require_special: false,
            max_consecutive: 0,
        }
    }

    /// Check `password` against the rules in order (length in bytes, then the
    /// character classes, then repeated characters) and report the first one it
    /// breaks.
    pub fn validate(&self, password: &str) -> (res: Result<(), PasswordPolicyError>)
        ensures
            res == self.validation(password@),
    {
        let len = password.as_bytes().len();
        if len < self.min_length {
            return Err(PasswordPolicyError::TooShort { min: self.min_length, len });
        }
        if len > self.max_length {
            return Err(PasswordPolicyError::TooLong { max: self.max_length, len });
        }
        if self.require_uppercase && !any_uppercase(password) {
            return Err(PasswordPolicyError::NoUppercase);
        }
        if self.require_lowercase && !any_lowercase(password) {
            return Err(PasswordPolicyError::NoLowercase);
        }
        if self.require_digit && !any_digit(password) {
            return Err(PasswordPolicyError::NoDigit);
        }
        if self.require_special && !any_special(password) {
            return Err(PasswordPolicyError::NoSpecial);
        }
        if self.max_consecutive > 0 {
            let max_run = longest_run_of(password);
            if max_run > self.max_consecutive {
                return Err(
                    PasswordPolicyError::Consecutive { count: max_run, max: self.max_consecutive },
                );
            }
        }
        Ok(())
    }

    /// Strength on a scale of 0 to 4, from the length in bytes and the number
    /// of character classes present.
    pub fn strength(&self, password: &str) -> (score: u8)
        ensures
            score == strength_score(password@),
            score <= 4,
    {
        let len = password.as_bytes().len();
        if len < 6 {
            return 0;
        }
        let has_upper = any_uppercase(password);
        let has_lower = any_lowercase(password);
        let has_digit = any_digit(password);
        let has_special = any_special(password);
        let mut variety: u8 = 0;
        if has_upper {
            variety = variety + 1;
        }
        if has_lower {
            variety = variety + 1;
        }
        if has_digit {
            variety = variety + 1;
        }
        if has_special {
            variety = variety + 1;
        }
        if len >= 16 && variety >= 3 {
            4
        } else if len >= 12 && variety >= 2 {
            3
        } else if len >= 8 && variety >= 1 {
            2
        } else {
            1
        }
    }
}

impl Default for PasswordPolicy {
    /// 8 to 128 bytes with an uppercase letter, a lowercase letter and a digit.
    fn default() -> (p: Self)
        ensures
            p.min_length == 8 && p.max_length == 128,
            p.require_uppercase && p.require_lowercase && p.require_digit,
            !p.require_special,
            p.max_consecutive == 0,
    {
        PasswordPolicy {
            min_length: 8,
            max_length: 128,
            require_uppercase: true,
            require_lowercase: true,
            require_digit: true,
            require_special: false,
            max_consecutive: 0,
        }
    }
}

} // verus!
