//! Password hashing with Argon2id, bcrypt or scrypt behind one [`Hasher`].

pub mod auth_finder;
pub mod config;
pub mod drivers;
pub mod env;
pub mod error;
pub mod phc;

pub use auth_finder::AuthFinder;
pub use config::{Argon2Config, BcryptConfig, Driver, HashConfig, ScryptConfig};
pub use env::HashEnv;
pub use error::HashError;

use vstd::prelude::*;
use vstd::utf8::encode_utf8;

use drivers::argon2::{
    argon2_accepts, argon2_needs_rehash, argon2_password_fits, argon2_text_prefix, argon2_params_valid, argon2_phc,
    m_name, p_name, t_name,
    Argon2Driver,
};
use drivers::bcrypt::{
    bcrypt_stored_cost, bcrypt_text, bcrypt_verdict, lemma_bcrypt_text_cost, BcryptDriver,
};
use drivers::scrypt::{
    ln_name, r_name, scrypt_accepts, scrypt_needs_rehash, scrypt_text_prefix, scrypt_params_valid, scrypt_phc,
    ScryptDriver,
};
use phc::{last_decimal_param, lemma_phc_decimal, phc_fields};

verus! {

/// What [`Hasher::make`] may return for a hasher configured with `c`.
pub open spec fn make_outcome(c: HashConfig, password: Seq<char>, r: Result<String, HashError>) -> bool {
    match c.driver {
        Driver::Argon2 => {
            &&& (r matches Err(HashError::InvalidParams(_)) <==> !argon2_params_valid(
                c.argon2.memory_kib,
                c.argon2.iterations,
                c.argon2.parallelism,
            ))
            &&& (argon2_params_valid(c.argon2.memory_kib, c.argon2.iterations, c.argon2.parallelism)
                && argon2_password_fits(password) ==> r is Ok)
            &&& (r matches Ok(h) ==> phc_fields(h@) == Some(
                argon2_phc(c.argon2.memory_kib, c.argon2.iterations, c.argon2.parallelism),
            ) && argon2_accepts(password, h@) && h@.len() >= 10 && h@.subrange(0, 10)
                == argon2_text_prefix())
            &&& (r is Err ==> r matches Err(HashError::InvalidParams(_)) || r matches Err(
                HashError::HashFailed(_),
            ))
        },
        Driver::Bcrypt => {
            &&& (!(4 <= c.bcrypt.cost <= 31) ==> r matches Err(HashError::HashFailed(_)))
            &&& (r matches Ok(h) ==> bcrypt_text(h@, c.bcrypt.cost) && bcrypt_verdict(password, h@)
                == Some(true))
            &&& (r is Err ==> r matches Err(HashError::HashFailed(_)))
        },
        Driver::Scrypt => {
            &&& (r matches Err(HashError::InvalidParams(_)) <==> !scrypt_params_valid(
                c.scrypt.log_n,
                c.scrypt.r,
                c.scrypt.p,
            ))
            &&& (r matches Ok(h) ==> phc_fields(h@) == Some(
                scrypt_phc(c.scrypt.log_n, c.scrypt.r, c.scrypt.p),
            ) && scrypt_accepts(password, h@) && h@.len() >= 8 && h@.subrange(0, 8)
                == scrypt_text_prefix())
            &&& (r is Err ==> r matches Err(HashError::InvalidParams(_)))
        },
    }
}

/// What [`Hasher::verify`] returns for a hasher configured with `c`: for
/// Argon2 and scrypt, `InvalidFormat` when `hash` is not a PHC string, else
/// whether the algorithm accepts the password; for bcrypt, its verdict, or
/// `HashFailed` when it rejects the hash.
pub open spec fn verify_outcome(
    c: HashConfig,
    password: Seq<char>,
    hash: Seq<char>,
    r: Result<bool, HashError>,
) -> bool {
    match c.driver {
        Driver::Argon2 => r == (match phc_fields(hash) {
            None => Err(HashError::InvalidFormat),
            Some(_) => Ok(argon2_accepts(password, hash)),
        }),
        Driver::Bcrypt => match bcrypt_verdict(password, hash) {
            Some(b) => r == Ok::<bool, HashError>(b),
            None => r matches Err(HashError::HashFailed(_)),
        },
        Driver::Scrypt => r == (match phc_fields(hash) {
            None => Err(HashError::InvalidFormat),
            Some(_) => Ok(scrypt_accepts(password, hash)),
        }),
    }
}

/// Whether a hasher configured with `c` asks for `hash` to be replaced.
pub open spec fn needs_rehash_spec(c: HashConfig, hash: Seq<char>) -> bool {
    match c.driver {
        Driver::Argon2 => argon2_needs_rehash(c.argon2, hash),
        Driver::Bcrypt => bcrypt_stored_cost(encode_utf8(hash)) < c.bcrypt.cost,
        Driver::Scrypt => scrypt_needs_rehash(c.scrypt, hash),
    }
}

/// The parameters of `made` fall short of those of `current` (compared for
/// the driver of `current`): some cost parameter is lower.
pub open spec fn params_below(made: HashConfig, current: HashConfig) -> bool {
    match current.driver {
        Driver::Argon2 => {
            ||| made.argon2.memory_kib < current.argon2.memory_kib
            ||| made.argon2.iterations < current.argon2.iterations
            ||| made.argon2.parallelism < current.argon2.parallelism
        },
        Driver::Bcrypt => made.bcrypt.cost < current.bcrypt.cost,
        Driver::Scrypt => {
            ||| made.scrypt.log_n < current.scrypt.log_n
            ||| made.scrypt.r < current.scrypt.r
            ||| made.scrypt.p < current.scrypt.p
        },
    }
}

/// The configurations [`Hasher::make`] runs without panicking: Argon2 checks
/// `8 * parallelism` in `u32`.
pub open spec fn hash_config_usable(c: HashConfig) -> bool {
    c.driver == Driver::Argon2 ==> c.argon2.parallelism < 0x2000_0000
}

/// Password-hashing façade over the configured algorithm.
pub struct Hasher {
    config: HashConfig,
}

impl View for Hasher {
    type V = HashConfig;

    /// The configuration the hasher was built from.
    closed spec fn view(&self) -> HashConfig {
        self.config
    }
}

impl Clone for Hasher {
    fn clone(&self) -> (h: Hasher)
        ensures
            h@ == self@,
    {
        Hasher { config: self.config }
    }
}

impl Hasher {
    /// A hasher that uses `config.driver` with its parameters from `config`.
    pub fn from_config(config: HashConfig) -> (h: Hasher)
        ensures
            h@ == config,
    {
        Hasher { config }
    }

    /// The configuration the hasher was built from.
    pub fn config(&self) -> (c: HashConfig)
        ensures
            c == self@,
    {
        self.config
    }

    /// Hash `password` with a fresh random salt.
    pub fn make(&self, password: &str) -> (r: Result<String, HashError>)
        requires
            hash_config_usable(self@),
        ensures
            make_outcome(self@, password@, r),
            make_promised(self@, password@) ==> r is Ok,
    {
        match self.config.driver {
            Driver::Argon2 => Argon2Driver::new(self.config.argon2).hash(password),
            Driver::Bcrypt => BcryptDriver::new(self.config.bcrypt).hash(password),
            Driver::Scrypt => ScryptDriver::new(self.config.scrypt).hash(password),
        }
    }

    /// Check `password` against a stored `hash`.
    pub fn verify(&self, password: &str, hash: &str) -> (r: Result<bool, HashError>)
        ensures
            verify_outcome(self@, password@, hash@, r),
    {
        match self.config.driver {
            Driver::Argon2 => Argon2Driver::new(self.config.argon2).verify(password, hash),
            Driver::Bcrypt => BcryptDriver::new(self.config.bcrypt).verify(password, hash),
            Driver::Scrypt => ScryptDriver::new(self.config.scrypt).verify(password, hash),
        }
    }

    /// Whether `hash` was made with another algorithm or weaker parameters than
    /// this hasher's, so that it should be replaced on the next login.
    pub fn needs_rehash(&self, hash: &str) -> (r: bool)
        ensures
            r == needs_rehash_spec(self@, hash@),
    {
        match self.config.driver {
            Driver::Argon2 => Argon2Driver::new(self.config.argon2).needs_rehash(hash),
            Driver::Bcrypt => BcryptDriver::new(self.config.bcrypt).needs_rehash(hash),
            Driver::Scrypt => ScryptDriver::new(self.config.scrypt).needs_rehash(hash),
        }
    }

    /// [`verify`](Self::verify) against the stored hash of `user`.
    pub fn verify_for<U: AuthFinder>(&self, password: &str, user: &U) -> (r: Result<bool, HashError>)
        ensures
            verify_outcome(self@, password@, user.auth_password(), r),
    {
        let stored = user.get_auth_password();
        self.verify(password, stored)
    }

    /// [`needs_rehash`](Self::needs_rehash) on the stored hash of `user`.
    pub fn needs_rehash_for<U: AuthFinder>(&self, user: &U) -> (r: bool)
        ensures
            r == needs_rehash_spec(self@, user.auth_password()),
    {
        let stored = user.get_auth_password();
        self.needs_rehash(stored)
    }
}

/// The inputs on which [`Hasher::make`] is owed a hash: for Argon2, accepted
/// parameters and a password of at most `0xFFFF_FFFF` bytes; for scrypt,
/// accepted parameters. (bcrypt draws its salt from the operating system,
/// whose failure it reports as an error, so no input is promised a hash.)
pub open spec fn make_promised(c: HashConfig, password: Seq<char>) -> bool {
    match c.driver {
        Driver::Argon2 => argon2_params_valid(c.argon2.memory_kib, c.argon2.iterations, c.argon2.parallelism)
            && argon2_password_fits(password),
        Driver::Bcrypt => false,
        Driver::Scrypt => scrypt_params_valid(c.scrypt.log_n, c.scrypt.r, c.scrypt.p),
    }
}

/// On the inputs it is owed, hashing succeeds and the hash it gives verifies
/// the password and needs no rehashing; otherwise an Argon2 or scrypt hasher
/// fails only with `InvalidParams` or, for Argon2, with a password too long.
pub proof fn lemma_make_promised(c: HashConfig, password: Seq<char>, r: Result<String, HashError>)
    requires
        make_outcome(c, password, r),
    ensures
        make_promised(c, password) ==> r is Ok,
        make_promised(c, password) ==> verify_outcome(c, password, r->Ok_0@, Ok(true)),
        make_promised(c, password) ==> !needs_rehash_spec(c, r->Ok_0@),
        (c.driver == Driver::Argon2 && r matches Err(HashError::HashFailed(_))) ==> !argon2_password_fits(password),
        (c.driver == Driver::Scrypt && r is Err) ==> r matches Err(HashError::InvalidParams(_)),
{
    if make_promised(c, password) {
        lemma_made_hash_needs_no_rehash(c, password, r->Ok_0);
    }
}

/// A hash made by a hasher verifies the password it was made from.
pub proof fn lemma_made_hash_verifies(c: HashConfig, password: Seq<char>, hash: String)
    requires
        make_outcome(c, password, Ok(hash)),
    ensures
        verify_outcome(c, password, hash@, Ok(true)),
{
}

/// A hash made by a hasher configured with `made` needs rehashing under
/// `current` (same algorithm) exactly when some parameter of `made` is lower
/// than in `current`.
pub proof fn lemma_rehash_iff_params_below(
    made: HashConfig,
    current: HashConfig,
    password: Seq<char>,
    hash: String,
)
    requires
        made.driver == current.driver,
        make_outcome(made, password, Ok(hash)),
    ensures
        needs_rehash_spec(current, hash@) == params_below(made, current),
{
    match made.driver {
        Driver::Argon2 => {
            let a = made.argon2;
            let ps = argon2_phc(a.memory_kib, a.iterations, a.parallelism).1;
            lemma_phc_decimal(a.memory_kib);
            lemma_phc_decimal(a.iterations);
            lemma_phc_decimal(a.parallelism);
            assert(m_name()[0] != t_name()[0] && m_name()[0] != p_name()[0] && t_name()[0]
                != p_name()[0]);
            lemma_three_params(ps, m_name(), t_name(), p_name(), a.memory_kib, a.iterations, a.parallelism);
        },
        Driver::Bcrypt => {
            lemma_bcrypt_text_cost(hash@, made.bcrypt.cost);
        },
        Driver::Scrypt => {
            let s = made.scrypt;
            let ps = scrypt_phc(s.log_n, s.r, s.p).1;
            lemma_phc_decimal(s.log_n as u32);
            lemma_phc_decimal(s.r);
            lemma_phc_decimal(s.p);
            assert(ln_name().len() != r_name().len() && ln_name().len() != p_name().len()
                && r_name()[0] != p_name()[0]);
            lemma_three_params(ps, ln_name(), r_name(), p_name(), s.log_n as u32, s.r, s.p);
            let ln = s.log_n;
            assert(((ln as u32) as u8) == ln) by (bit_vector);
        },
    }
}

/// A hash made by a hasher does not need rehashing by the same hasher.
pub proof fn lemma_made_hash_needs_no_rehash(c: HashConfig, password: Seq<char>, hash: String)
    requires
        make_outcome(c, password, Ok(hash)),
    ensures
        !needs_rehash_spec(c, hash@),
{
    lemma_rehash_iff_params_below(c, c, password, hash);
}

/// In a list of three decimal parameters with distinct names, each name's
/// last decimal value is the one written for it.
proof fn lemma_three_params(
    ps: Seq<(Seq<u8>, Seq<u8>)>,
    n1: Seq<u8>,
    n2: Seq<u8>,
    n3: Seq<u8>,
    v1: u32,
    v2: u32,
    v3: u32,
)
    requires
        ps == seq![phc::decimal_param(n1, v1), phc::decimal_param(n2, v2), phc::decimal_param(n3, v3)],
        n1 != n2,
        n1 != n3,
        n2 != n3,
        phc::phc_decimal_spec(crate::text::decimal_digits(v1 as nat)) == Some(v1),
        phc::phc_decimal_spec(crate::text::decimal_digits(v2 as nat)) == Some(v2),
        phc::phc_decimal_spec(crate::text::decimal_digits(v3 as nat)) == Some(v3),
    ensures
        last_decimal_param(ps, n1) == v1,
        last_decimal_param(ps, n2) == v2,
        last_decimal_param(ps, n3) == v3,
{
    let p2 = ps.drop_last();
    let p1 = p2.drop_last();
    assert(p1.drop_last() =~= Seq::<(Seq<u8>, Seq<u8>)>::empty());
    assert(last_decimal_param(p1, n1) == v1);
    assert(last_decimal_param(p2, n1) == v1);
    assert(last_decimal_param(p2, n2) == v2);
    assert(last_decimal_param(ps, n1) == v1);
    assert(last_decimal_param(ps, n2) == v2);
}

} // verus!
