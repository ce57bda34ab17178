//! Building a hasher from `HASH_*` settings.

use vstd::prelude::*;
use vstd::utf8::encode_utf8;

use super::config::{default_hash_config, Argon2Config, BcryptConfig, Driver, HashConfig, ScryptConfig};
use super::Hasher;
use crate::text::{bytes_eq, parse_u32, parse_u8, parse_unsigned_spec};

verus! {

/// The `HASH_*` settings as read from the environment; `None` for a variable
/// that is unset (or not Unicode).
#[derive(Debug, Clone)]
pub struct HashEnv {
    /// `HASH_DRIVER`: `argon2` (the default), `bcrypt` or `scrypt`.
    pub driver: Option<String>,
    /// `HASH_MEMORY_KIB` (Argon2, default 19 456).
    pub memory_kib: Option<String>,
    /// `HASH_ITERATIONS` (Argon2, default 2).
    pub iterations: Option<String>,
    /// `HASH_PARALLELISM` (Argon2, default 1).
    pub parallelism: Option<String>,
    /// `HASH_COST` (bcrypt, default 12).
    pub cost: Option<String>,
    /// `HASH_LOG_N` (scrypt, default 17).
    pub log_n: Option<String>,
    /// `HASH_R` (scrypt, default 8).
    pub r: Option<String>,
    /// `HASH_P` (scrypt, default 1).
    pub p: Option<String>,
}

/// A `u32` setting: the variable parsed as a `u32`, or `default` when it is
/// unset or does not parse.
pub open spec fn setting_u32(v: Option<String>, default: u32) -> u32 {
    match v {
        Some(s) => match parse_unsigned_spec(encode_utf8(s@), u32::MAX as nat) {
            Some(n) => n as u32,
            None => default,
        },
        None => default,
    }
}

/// A `u8` setting: the variable parsed as a `u8`, or `default`.
pub open spec fn setting_u8(v: Option<String>, default: u8) -> u8 {
    match v {
        Some(s) => match parse_unsigned_spec(encode_utf8(s@), u8::MAX as nat) {
            Some(n) => n as u8,
            None => default,
        },
        None => default,
    }
}

/// The bytes of `argon2`.
pub open spec fn argon2_word() -> Seq<u8> {
    seq![97u8, 114, 103, 111, 110, 50]
}

/// The bytes of `bcrypt`.
pub open spec fn bcrypt_word() -> Seq<u8> {
    seq![98u8, 99, 114, 121, 112, 116]
}

/// The bytes of `scrypt`.
pub open spec fn scrypt_word() -> Seq<u8> {
    seq![115u8, 99, 114, 121, 112, 116]
}

/// The driver name in effect: the variable, or `argon2` when unset.
pub open spec fn driver_word(env: HashEnv) -> Seq<u8> {
    match env.driver {
        Some(s) => encode_utf8(s@),
        None => argon2_word(),
    }
}

/// The configuration the settings describe, or `None` for an unknown driver
/// name. The chosen driver's parameters come from the settings; the others
/// keep their defaults.
pub open spec fn env_config(env: HashEnv) -> Option<HashConfig> {
    let d = driver_word(env);
    if d == argon2_word() {
        Some(
            HashConfig {
                driver: Driver::Argon2,
                argon2: Argon2Config {
                    memory_kib: setting_u32(env.memory_kib, 19_456),
                    iterations: setting_u32(env.iterations, 2),
                    parallelism: setting_u32(env.parallelism, 1),
                },
                ..default_hash_config()
            },
        )
    } else if d == bcrypt_word() {
        Some(
            HashConfig {
                driver: Driver::Bcrypt,
                bcrypt: BcryptConfig { cost: setting_u32(env.cost, 12) },
                ..default_hash_config()
            },
        )
    } else if d == scrypt_word() {
        Some(
            HashConfig {
                driver: Driver::Scrypt,
                scrypt: ScryptConfig {
                    log_n: setting_u8(env.log_n, 17),
                    r: setting_u32(env.r, 8),
                    p: setting_u32(env.p, 1),
                },
                ..default_hash_config()
            },
        )
    } else {
        None
    }
}

/// Read a `u32` setting, falling back to `default`.
fn read_u32(v: &Option<String>, default: u32) -> (n: u32)
    ensures
        n == setting_u32(*v, default),
{
    match v {
        Some(s) => match parse_u32(s.as_str().as_bytes()) {
            Some(n) => n,
            None => default,
        },
        None => default,
    }
}

/// Read a `u8` setting, falling back to `default`.
fn read_u8(v: &Option<String>, default: u8) -> (n: u8)
    ensures
        n == setting_u8(*v, default),
{
    match v {
        Some(s) => match parse_u8(s.as_str().as_bytes()) {
            Some(n) => n,
            None => default,
        },
        None => default,
    }
}

impl Hasher {
    /// A hasher from the `HASH_*` settings: the driver named by `HASH_DRIVER`
    /// (default `argon2`) with its parameters from the other variables, each
    /// falling back to its default when unset or not a number. An unknown
    /// driver name gives the error `unknown HASH_DRIVER: <name>`.
    pub fn from_env_values(env: &HashEnv) -> (r: Result<Hasher, String>)
        ensures
            match env_config(*env) {
                Some(c) => r matches Ok(h) && h@ == c,
                None => r matches Err(e) && env.driver matches Some(d) && e@
                    == "unknown HASH_DRIVER: "@ + d@,
            },
    {
        let argon2 = vec![97u8, 114, 103, 111, 110, 50];
        let bcrypt = vec![98u8, 99, 114, 121, 112, 116];
        let scrypt = vec![115u8, 99, 114, 121, 112, 116];
        assert(argon2@ =~= argon2_word());
        assert(bcrypt@ =~= bcrypt_word());
        assert(scrypt@ =~= scrypt_word());
        let is_argon2 = match &env.driver {
            Some(d) => bytes_eq(d.as_str().as_bytes(), argon2.as_slice()),
            None => true,
        };
        let is_bcrypt = match &env.driver {
            Some(d) => bytes_eq(d.as_str().as_bytes(), bcrypt.as_slice()),
            None => false,
        };
        let is_scrypt = match &env.driver {
            Some(d) => bytes_eq(d.as_str().as_bytes(), scrypt.as_slice()),
            None => false,
        };
        let config = if is_argon2 {
            HashConfig::argon2(
                read_u32(&env.memory_kib, 19_456),
                read_u32(&env.iterations, 2),
                read_u32(&env.parallelism, 1),
            )
        } else if is_bcrypt {
            HashConfig::bcrypt(read_u32(&env.cost, 12))
        } else if is_scrypt {
            HashConfig::scrypt(read_u8(&env.log_n, 17), read_u32(&env.r, 8), read_u32(&env.p, 1))
        } else {
            let mut msg = String::from_str("unknown HASH_DRIVER: ");
            match &env.driver {
                Some(d) => msg.append(d.as_str()),
                None => {},
            }
            return Err(msg);
        };
        Ok(Hasher::from_config(config))
    }
}

} // verus!
