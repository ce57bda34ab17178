//! Argon2id hashing through the `argon2` crate.

use argon2::{Algorithm, Argon2, Params, Version};
use password_hash::rand_core::OsRng;
use password_hash::{PasswordHash, PasswordHasher, PasswordVerifier, SaltString};
use vstd::prelude::*;
use vstd::utf8::encode_utf8;

use crate::hash::config::Argon2Config;
use crate::hash::error::HashError;
use crate::hash::phc::{decimal_param, last_decimal_param, phc_decimal, phc_fields, phc_parse};
use crate::text::bytes_eq;

verus! {

/// The PHC identifier `argon2id`.
pub open spec fn argon2id_name() -> Seq<u8> {
    seq![97u8, 114, 103, 111, 110, 50, 105, 100]
}

fn argon2id_bytes() -> (b: Vec<u8>)
    ensures
        b@ == argon2id_name(),
{
    let b = vec![97u8, 114, 103, 111, 110, 50, 105, 100];
    assert(b@ =~= argon2id_name());
    b
}

/// How an Argon2id PHC string begins: `$argon2id$`.
pub open spec fn argon2_text_prefix() -> Seq<char> {
    seq!['$', 'a', 'r', 'g', 'o', 'n', '2', 'i', 'd', '$']
}

/// The PHC parameter name `m` (memory in KiB).
pub open spec fn m_name() -> Seq<u8> {
    seq![109u8]
}

/// The PHC parameter name `t` (iterations).
pub open spec fn t_name() -> Seq<u8> {
    seq![116u8]
}

/// The PHC parameter name `p` (parallelism).
pub open spec fn p_name() -> Seq<u8> {
    seq![112u8]
}

/// The parameters `argon2::Params::new(m, t, p, None)` accepts: at least 8 KiB
/// of memory and 8 KiB per lane, at least one iteration, 1 to 0xFFFFFF lanes.
pub open spec fn argon2_params_valid(m: u32, t: u32, p: u32) -> bool {
    &&& m >= 8
    &&& m >= p * 8
    &&& t >= 1
    &&& 1 <= p <= 0xFF_FFFF
}

/// A password Argon2 takes: at most `0xFFFF_FFFF` bytes of UTF-8.
pub open spec fn argon2_password_fits(password: Seq<char>) -> bool {
    encode_utf8(password).len() <= 0xFFFF_FFFF
}

/// The PHC fields of an Argon2id hash made with `m`, `t` and `p`.
pub open spec fn argon2_phc(m: u32, t: u32, p: u32) -> (Seq<u8>, Seq<(Seq<u8>, Seq<u8>)>) {
    (
        argon2id_name(),
        seq![decimal_param(m_name(), m), decimal_param(t_name(), t), decimal_param(p_name(), p)],
    )
}

/// Whether `argon2::Argon2::default().verify_password` accepts `password`
/// against the PHC string `hash` (with the algorithm and parameters the hash
/// names).
pub uninterp spec fn argon2_accepts(password: Seq<char>, hash: Seq<char>) -> bool;

/// `argon2::Params::new(m, t, p, None)`: `None` when it accepts the
/// parameters, else the message of its error. It computes `p * 8` in `u32`,
/// which the precondition keeps from overflowing.
#[verifier::external_body]
fn argon2_params_check(m: u32, t: u32, p: u32) -> (r: Option<String>)
    requires
        p < 0x2000_0000,
    ensures
        r is None <==> argon2_params_valid(m, t, p),
{
    Params::new(m, t, p, None).err().map(|e| e.to_string())
}

/// `Argon2::new(Argon2id, V0x13, params).hash_password(password, salt)` with
/// a fresh random salt, as a PHC string. When it succeeds, the string reads
/// back as algorithm `argon2id` with parameters `m`, `t`, `p` in that order,
/// the password verifies against it, and (as `PasswordHash`'s `Display`
/// writes it) the text begins with `$argon2id$`. With accepted parameters,
/// a 16-byte salt and the default 32-byte output, the only error
/// `hash_password` can return is `PwdTooLong`, for a password of more than
/// `0xFFFF_FFFF` bytes (`verify_inputs`); so it succeeds on every shorter
/// password.
#[verifier::external_body]
fn argon2_hash(password: &str, m: u32, t: u32, p: u32) -> (r: Result<String, String>)
    requires
        argon2_params_valid(m, t, p),
    ensures
        argon2_password_fits(password@) ==> r is Ok,
        r matches Ok(h) ==> phc_fields(h@) == Some(argon2_phc(m, t, p)) && argon2_accepts(
            password@,
            h@,
        ),
        r matches Ok(h) ==> h@.len() >= 10 && h@.subrange(0, 10) == argon2_text_prefix(),
{
    let params = Params::new(m, t, p, None).expect("parameters were checked");
    let salt = SaltString::generate(&mut OsRng);
    let hasher = Argon2::new(Algorithm::Argon2id, Version::V0x13, params);
    hasher.hash_password(password.as_bytes(), &salt).map(|h| h.to_string()).map_err(
        |e| e.to_string(),
    )
}

/// `Argon2::default().verify_password(password, PasswordHash::new(hash))`:
/// `None` when `hash` is not a PHC string, else whether the password matches
/// (the result named `argon2_accepts`).
#[verifier::external_body]
fn argon2_verify(password: &str, hash: &str) -> (r: Option<bool>)
    ensures
        r == (match phc_fields(hash@) {
            None => None,
            Some(_) => Some(argon2_accepts(password@, hash@)),
        }),
{
    let parsed = PasswordHash::new(hash).ok()?;
    Some(Argon2::default().verify_password(password.as_bytes(), &parsed).is_ok())
}

/// What [`Argon2Driver::needs_rehash`] answers: the hash is not an Argon2id
/// PHC string, or one of its last decimal `m`, `t`, `p` parameters (0 when
/// missing) is below the configured value.
pub open spec fn argon2_needs_rehash(c: Argon2Config, hash: Seq<char>) -> bool {
    match phc_fields(hash) {
        None => true,
        Some((alg, params)) => {
            ||| alg != argon2id_name()
            ||| last_decimal_param(params, m_name()) < c.memory_kib
            ||| last_decimal_param(params, t_name()) < c.iterations
            ||| last_decimal_param(params, p_name()) < c.parallelism
        },
    }
}

/// Argon2id hashing with fixed parameters.
pub(crate) struct Argon2Driver {
    pub(crate) config: Argon2Config,
}

impl Argon2Driver {
    pub(crate) fn new(config: Argon2Config) -> (d: Argon2Driver)
        ensures
            d.config == config,
    {
        Argon2Driver { config }
    }

    /// Hash `password` with a fresh salt: `InvalidParams` exactly when the
    /// parameters are rejected; with accepted parameters, a hash that reads
    /// back with them and accepts the password, for every password Argon2
    /// takes.
    pub(crate) fn hash(&self, password: &str) -> (r: Result<String, HashError>)
        requires
            self.config.parallelism < 0x2000_0000,
        ensures
            argon2_params_valid(
                self.config.memory_kib,
                self.config.iterations,
                self.config.parallelism,
            ) && argon2_password_fits(password@) ==> r is Ok,
            r matches Err(HashError::InvalidParams(_)) <==> !argon2_params_valid(
                self.config.memory_kib,
                self.config.iterations,
                self.config.parallelism,
            ),
            r matches Ok(h) ==> phc_fields(h@) == Some(
                argon2_phc(self.config.memory_kib, self.config.iterations, self.config.parallelism),
            ) && argon2_accepts(password@, h@),
            r matches Ok(h) ==> h@.len() >= 10 && h@.subrange(0, 10) == argon2_text_prefix(),
            r is Err ==> r matches Err(HashError::InvalidParams(_)) || r matches Err(
                HashError::HashFailed(_),
            ),
    {
        let m = self.config.memory_kib;
        let t = self.config.iterations;
        let p = self.config.parallelism;
        match argon2_params_check(m, t, p) {
            Some(msg) => Err(HashError::invalid_params(msg)),
            None => match argon2_hash(password, m, t, p) {
                Ok(h) => Ok(h),
                Err(msg) => Err(HashError::hash_failed(msg)),
            },
        }
    }

    /// Check `password` against `hash`: `InvalidFormat` when `hash` is not a
    /// PHC string, else whether it matches.
    pub(crate) fn verify(&self, password: &str, hash: &str) -> (r: Result<bool, HashError>)
        ensures
            r == (match phc_fields(hash@) {
                None => Err(HashError::InvalidFormat),
                Some(_) => Ok(argon2_accepts(password@, hash@)),
            }),
    {
        match argon2_verify(password, hash) {
            None => Err(HashError::InvalidFormat),
            Some(ok) => Ok(ok),
        }
    }

    /// Whether `hash` should be replaced by a hash with the configured parameters.
    pub(crate) fn needs_rehash(&self, hash: &str) -> (r: bool)
        ensures
            r == argon2_needs_rehash(self.config, hash@),
    {
        let parsed = phc_parse(hash);
        let (alg, params) = match parsed {
            None => return true,
            Some(fields) => fields,
        };
        let ghost ps = params.deep_view();
        let expected = argon2id_bytes();
        assert(alg.deep_view() =~= alg@);
        if !bytes_eq(&alg, &expected) {
            return true;
        }
        let mut m: u32 = 0;
        let mut t: u32 = 0;
        let mut p: u32 = 0;
        let mut i: usize = 0;
        while i < params.len()
            invariant
                i <= params@.len(),
                ps == params.deep_view(),
                m == last_decimal_param(ps.take(i as int), m_name()),
                t == last_decimal_param(ps.take(i as int), t_name()),
                p == last_decimal_param(ps.take(i as int), p_name()),
            decreases params@.len() - i,
        {
            let name = &params[i].0;
            let value = &params[i].1;
            assert(ps.take(i + 1).drop_last() =~= ps.take(i as int));
            assert(name.deep_view() =~= name@);
            assert(value.deep_view() =~= value@);
            assert(ps.take(i + 1).last() == ps[i as int]);
            if name.len() == 1 {
                let d = phc_decimal(value);
                if let Some(n) = d {
                    if name[0] == 109 {
                        m = n;
                    } else if name[0] == 116 {
                        t = n;
                    } else if name[0] == 112 {
                        p = n;
                    }
                }
            }
            proof {
                if name@.len() == 1 {
                    if name@[0] == 109 {
                        assert(name@ =~= m_name());
                    } else if name@[0] == 116 {
                        assert(name@ =~= t_name());
                    } else if name@[0] == 112 {
                        assert(name@ =~= p_name());
                    }
                }
            }
            i = i + 1;
        }
        assert(ps.take(i as int) =~= ps);
        m < self.config.memory_kib || t < self.config.iterations || p < self.config.parallelism
    }
}

} // verus!
