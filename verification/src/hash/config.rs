//! Which algorithm a [`Hasher`](super::Hasher) runs, and its cost parameters.

use vstd::prelude::*;

verus! {

/// Which hashing algorithm the hasher uses.
#[derive(Debug, Clone, Copy, PartialEq, Eq, Structural)]
pub enum Driver {
    /// Argon2id: memory-hard, the default.
    Argon2,
    /// Bcrypt: widely deployed, with a single cost parameter.
    Bcrypt,
    /// Scrypt: memory-hard alternative to Argon2.
    Scrypt,
}

impl Default for Driver {
    fn default() -> (d: Driver)
        ensures
            d == Driver::Argon2,
    {
        Driver::Argon2
    }
}

/// Argon2 cost parameters.
#[derive(Debug, Clone, Copy)]
pub struct Argon2Config {
    /// Memory use in KiB (default 19 456, that is 19 MiB).
    pub memory_kib: u32,
    /// Passes over memory (default 2).
    pub iterations: u32,
    /// Lanes (default 1).
    pub parallelism: u32,
}

impl Default for Argon2Config {
    fn default() -> (c: Argon2Config)
        ensures
            c.memory_kib == 19_456,
            c.iterations == 2,
            c.parallelism == 1,
    {
        Argon2Config { memory_kib: 19_456, iterations: 2, parallelism: 1 }
    }
}

/// Bcrypt cost parameter.
#[derive(Debug, Clone, Copy)]
pub struct BcryptConfig {
    /// Work factor: 2^cost rounds (default 12).
    pub cost: u32,
}

impl Default for BcryptConfig {
    fn default() -> (c: BcryptConfig)
        ensures
            c.cost == 12,
    {
        BcryptConfig { cost: 12 }
    }
}

/// Scrypt cost parameters.
#[derive(Debug, Clone, Copy)]
pub struct ScryptConfig {
    /// CPU/memory cost as a power of two (default 17, N = 131 072).
    pub log_n: u8,
    /// Block size (default 8).
    pub r: u32,
    /// Parallelisation (default 1).
    pub p: u32,
}

impl Default for ScryptConfig {
    fn default() -> (c: ScryptConfig)
        ensures
            c.log_n == 17,
            c.r == 8,
            c.p == 1,
    {
        ScryptConfig { log_n: 17, r: 8, p: 1 }
    }
}

/// Everything a [`Hasher`](super::Hasher) is built from: the active driver and
/// the parameters of each algorithm (only the active driver's are used).
#[derive(Debug, Clone, Copy)]
pub struct HashConfig {
    pub driver: Driver,
    pub argon2: Argon2Config,
    pub bcrypt: BcryptConfig,
    pub scrypt: ScryptConfig,
}

/// The default configuration: Argon2 with the default parameters of each algorithm.
pub open spec fn default_hash_config() -> HashConfig {
    HashConfig {
        driver: Driver::Argon2,
        argon2: Argon2Config { memory_kib: 19_456, iterations: 2, parallelism: 1 },
        bcrypt: BcryptConfig { cost: 12 },
        scrypt: ScryptConfig { log_n: 17, r: 8, p: 1 },
    }
}

impl Default for HashConfig {
    fn default() -> (c: HashConfig)
        ensures
            c == default_hash_config(),
    {
        HashConfig {
            driver: Driver::default(),
            argon2: Argon2Config::default(),
            bcrypt: BcryptConfig::default(),
            scrypt: ScryptConfig::default(),
        }
    }
}

impl HashConfig {
    /// Argon2 with the given memory (KiB), iterations and parallelism; the
    /// other algorithms keep their defaults.
    pub fn argon2(memory_kib: u32, iterations: u32, parallelism: u32) -> (c: HashConfig)
        ensures
            c == (HashConfig {
                driver: Driver::Argon2,
                argon2: Argon2Config { memory_kib, iterations, parallelism },
                ..default_hash_config()
            }),
    {
        HashConfig {
            driver: Driver::Argon2,
            argon2: Argon2Config { memory_kib, iterations, parallelism },
            ..HashConfig::default()
        }
    }

    /// Bcrypt with the given cost; the other algorithms keep their defaults.
    pub fn bcrypt(cost: u32) -> (c: HashConfig)
        ensures
            c == (HashConfig {
                driver: Driver::Bcrypt,
                bcrypt: BcryptConfig { cost },
                ..default_hash_config()
            }),
    {
        HashConfig { driver: Driver::Bcrypt, bcrypt: BcryptConfig { cost }, ..HashConfig::default() }
    }

    /// Scrypt with the given `log_n`, `r` and `p`; the other algorithms keep
    /// their defaults.
    pub fn scrypt(log_n: u8, r: u32, p: u32) -> (c: HashConfig)
        ensures
            c == (HashConfig {
                driver: Driver::Scrypt,
                scrypt: ScryptConfig { log_n, r, p },
                ..default_hash_config()
            }),
    {
        HashConfig {
            driver: Driver::Scrypt,
            scrypt: ScryptConfig { log_n, r, p },
            ..HashConfig::default()
        }
    }
}

} // verus!
