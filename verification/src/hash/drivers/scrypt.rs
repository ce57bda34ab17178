//! Scrypt hashing through the `scrypt` crate.

use password_hash::rand_core::OsRng;
use password_hash::{PasswordHash, PasswordHasher, PasswordVerifier, SaltString};
use scrypt::{Params, Scrypt};
use vstd::arithmetic::power2::pow2;
use vstd::prelude::*;

use crate::hash::config::ScryptConfig;
use crate::hash::drivers::argon2::p_name;
use crate::hash::error::HashError;
use crate::hash::phc::{decimal_param, last_decimal_param, phc_decimal, phc_fields, phc_parse};
use crate::text::bytes_eq;

verus! {

/// The PHC identifier `scrypt`.
pub open spec fn scrypt_name() -> Seq<u8> {
    seq![115u8, 99, 114, 121, 112, 116]
}

fn scrypt_bytes() -> (b: Vec<u8>)
    ensures
        b@ == scrypt_name(),
{
    let b = vec![115u8, 99, 114, 121, 112, 116];
    assert(b@ =~= scrypt_name());
    b
}

/// How a scrypt PHC string begins: `$scrypt$`.
pub open spec fn scrypt_text_prefix() -> Seq<char> {
    seq!['$', 's', 'c', 'r', 'y', 'p', 't', '$']
}

/// The PHC parameter name `ln` (log2 of the cost N).
pub open spec fn ln_name() -> Seq<u8> {
    seq![108u8, 110]
}

/// The PHC parameter name `r` (block size).
pub open spec fn r_name() -> Seq<u8> {
    seq![114u8]
}

/// The parameters `scrypt::Params::new(log_n, r, p, 32)` accepts: positive
/// `r` and `p`, `log_n` below the bits of `usize`, `128 * r * 2^log_n` and
/// `128 * r * p` within `usize`, `log_n < 16 * r` and `r * p < 2^30`.
pub open spec fn scrypt_params_valid(log_n: u8, r: u32, p: u32) -> bool {
    &&& r > 0
    &&& p > 0
    &&& log_n < usize::BITS
    &&& 128 * r <= usize::MAX
    &&& 128 * r * pow2(log_n as nat) <= usize::MAX
    &&& 128 * r * p <= usize::MAX
    &&& log_n < 16 * r
    &&& r * p < 0x4000_0000
}

/// The PHC fields of a scrypt hash made with `log_n`, `r` and `p`.
pub open spec fn scrypt_phc(log_n: u8, r: u32, p: u32) -> (Seq<u8>, Seq<(Seq<u8>, Seq<u8>)>) {
    (
        scrypt_name(),
        seq![
            decimal_param(ln_name(), log_n as u32),
            decimal_param(r_name(), r),
            decimal_param(p_name(), p),
        ],
    )
}

/// Whether `scrypt::Scrypt.verify_password` accepts `password` against the
/// PHC string `hash` (with the parameters the hash names).
pub uninterp spec fn scrypt_accepts(password: Seq<char>, hash: Seq<char>) -> bool;

/// `scrypt::Params::new(log_n, r, p, Params::RECOMMENDED_LEN)`: `None` when it
/// accepts the parameters, else the message of its error.
#[verifier::external_body]
fn scrypt_params_check(log_n: u8, r: u32, p: u32) -> (e: Option<String>)
    ensures
        e is None <==> scrypt_params_valid(log_n, r, p),
{
    Params::new(log_n, r, p, Params::RECOMMENDED_LEN).err().map(|e| e.to_string())
}

/// `Scrypt.hash_password_customized(password, None, None, params, salt)` with
/// a fresh random salt, as a PHC string. When it succeeds, the string reads
/// back as algorithm `scrypt` with parameters `ln`, `r`, `p` in that order,
/// the password verifies against it, and (as `PasswordHash`'s `Display`
/// writes it, with no version field) the text begins with `$scrypt$`. With
/// accepted parameters, no algorithm or version override, a 16-byte salt and
/// the 32-byte output, `hash_password_customized` has no error left to
/// return, so the call succeeds.
#[verifier::external_body]
fn scrypt_hash(password: &str, log_n: u8, r: u32, p: u32) -> (h: Result<String, String>)
    requires
        scrypt_params_valid(log_n, r, p),
    ensures
        h is Ok,
        h matches Ok(s) ==> phc_fields(s@) == Some(scrypt_phc(log_n, r, p)) && scrypt_accepts(
            password@,
            s@,
        ),
        h matches Ok(s) ==> s@.len() >= 8 && s@.subrange(0, 8) == scrypt_text_prefix(),
{
    let params = Params::new(log_n, r, p, Params::RECOMMENDED_LEN).expect("parameters were checked");
    let salt = SaltString::generate(&mut OsRng);
    Scrypt.hash_password_customized(password.as_bytes(), None, None, params, &salt).map(
        |h| h.to_string(),
    ).map_err(|e| e.to_string())
}

/// `Scrypt.verify_password(password, PasswordHash::new(hash))`: `None` when
/// `hash` is not a PHC string, else whether the password matches (the result
/// named `scrypt_accepts`).
#[verifier::external_body]
fn scrypt_verify(password: &str, hash: &str) -> (r: Option<bool>)
    ensures
        r == (match phc_fields(hash@) {
            None => None,
            Some(_) => Some(scrypt_accepts(password@, hash@)),
        }),
{
    let parsed = PasswordHash::new(hash).ok()?;
    Some(Scrypt.verify_password(password.as_bytes(), &parsed).is_ok())
}

/// What [`ScryptDriver::needs_rehash`] answers: the hash is not a scrypt PHC
/// string, or one of its last decimal `ln` (cut to 8 bits), `r`, `p`
/// parameters (0 when missing) is below the configured value.
pub open spec fn scrypt_needs_rehash(c: ScryptConfig, hash: Seq<char>) -> bool {
    match phc_fields(hash) {
        None => true,
        Some((alg, params)) => {
            ||| alg != scrypt_name()
            ||| (last_decimal_param(params, ln_name()) as u8) < c.log_n
            ||| last_decimal_param(params, r_name()) < c.r
            ||| last_decimal_param(params, p_name()) < c.p
        },
    }
}

/// Scrypt hashing with fixed parameters.
pub(crate) struct ScryptDriver {
    pub(crate) config: ScryptConfig,
}

impl ScryptDriver {
    pub(crate) fn new(config: ScryptConfig) -> (d: ScryptDriver)
        ensures
            d.config == config,
    {
        ScryptDriver { config }
    }

    /// Hash `password` with a fresh salt: `InvalidParams` exactly when the
    /// parameters are rejected, else a hash that reads back with the
    /// configured parameters and accepts the password.
    pub(crate) fn hash(&self, password: &str) -> (r: Result<String, HashError>)
        ensures
            scrypt_params_valid(self.config.log_n, self.config.r, self.config.p) ==> r is Ok,
            r matches Err(HashError::InvalidParams(_)) <==> !scrypt_params_valid(
                self.config.log_n,
                self.config.r,
                self.config.p,
            ),
            r matches Ok(h) ==> phc_fields(h@) == Some(
                scrypt_phc(self.config.log_n, self.config.r, self.config.p),
            ) && scrypt_accepts(password@, h@),
            r matches Ok(h) ==> h@.len() >= 8 && h@.subrange(0, 8) == scrypt_text_prefix(),
            r is Err ==> r matches Err(HashError::InvalidParams(_)) || r matches Err(
                HashError::HashFailed(_),
            ),
    {
        let log_n = self.config.log_n;
        let r = self.config.r;
        let p = self.config.p;
        match scrypt_params_check(log_n, r, p) {
            Some(msg) => Err(HashError::invalid_params(msg)),
            None => match scrypt_hash(password, log_n, r, p) {
                Ok(h) => Ok(h),
                Err(msg) => Err(HashError::hash_failed(msg)),
            },
        }
    }

    /// Check `password` against `hash`: `InvalidFormat` when `hash` is not a
    /// PHC string, else whether it matches.
    pub(crate) fn verify(&self, password: &str, hash: &str) -> (r: Result<bool, HashError>)
        ensures
            r == (match phc_fields(hash@) {
                None => Err(HashError::InvalidFormat),
                Some(_) => Ok(scrypt_accepts(password@, hash@)),
            }),
    {
        match scrypt_verify(password, hash) {
            None => Err(HashError::InvalidFormat),
            Some(ok) => Ok(ok),
        }
    }

    /// Whether `hash` should be replaced by a hash with the configured parameters.
    pub(crate) fn needs_rehash(&self, hash: &str) -> (r: bool)
        ensures
            r == scrypt_needs_rehash(self.config, hash@),
    {
        let parsed = phc_parse(hash);
        let (alg, params) = match parsed {
            None => return true,
            Some(fields) => fields,
        };
        let ghost ps = params.deep_view();
        let expected = scrypt_bytes();
        assert(alg.deep_view() =~= alg@);
        if !bytes_eq(&alg, &expected) {
            return true;
        }
        let mut ln: u32 = 0;
        let mut r: u32 = 0;
        let mut p: u32 = 0;
        let mut i: usize = 0;
        while i < params.len()
            invariant
                i <= params@.len(),
                ps == params.deep_view(),
                ln == last_decimal_param(ps.take(i as int), ln_name()),
                r == last_decimal_param(ps.take(i as int), r_name()),
                p == last_decimal_param(ps.take(i as int), p_name()),
            decreases params@.len() - i,
        {
            let name = &params[i].0;
            let value = &params[i].1;
            assert(ps.take(i + 1).drop_last() =~= ps.take(i as int));
            assert(name.deep_view() =~= name@);
            assert(value.deep_view() =~= value@);
            assert(ps.take(i + 1).last() == ps[i as int]);
            let d = phc_decimal(value);
            if let Some(n) = d {
                if name.len() == 2 && name[0] == 108 && name[1] == 110 {
                    ln = n;
                } else if name.len() == 1 && name[0] == 114 {
                    r = n;
                } else if name.len() == 1 && name[0] == 112 {
                    p = n;
                }
            }
            proof {
                if name@.len() == 2 && name@[0] == 108 && name@[1] == 110 {
                    assert(name@ =~= ln_name());
                } else if name@.len() == 1 && name@[0] == 114 {
                    assert(name@ =~= r_name());
                } else if name@.len() == 1 && name@[0] == 112 {
                    assert(name@ =~= p_name());
                }
            }
            i = i + 1;
        }
        assert(ps.take(i as int) =~= ps);
        (ln as u8) < self.config.log_n || r < self.config.r || p < self.config.p
    }
}

} // verus!
