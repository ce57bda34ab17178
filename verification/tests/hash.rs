use rok_crypto::hash::{
    Argon2Config, AuthFinder, BcryptConfig, Driver, HashConfig, HashEnv, HashError, Hasher,
    ScryptConfig,
};

// ── fast test configs ─────────────────────────────────────────────────────────

fn argon2_config() -> HashConfig {
    HashConfig {
        driver: Driver::Argon2,
        argon2: Argon2Config {
            memory_kib: 1024, // 1 MiB
            iterations: 1,
            parallelism: 1,
        },
        ..HashConfig::default()
    }
}

fn bcrypt_config() -> HashConfig {
    HashConfig {
        driver: Driver::Bcrypt,
        bcrypt: BcryptConfig { cost: 4 },
        ..HashConfig::default()
    }
}

fn scrypt_config() -> HashConfig {
    HashConfig {
        driver: Driver::Scrypt,
        scrypt: ScryptConfig {
            log_n: 4,
            r: 8,
            p: 1,
        },
        ..HashConfig::default()
    }
}

// ── AuthFinder test model ─────────────────────────────────────────────────────

struct FakeUser {
    password_hash: String,
}

impl AuthFinder for FakeUser {
    fn get_auth_password(&self) -> &str {
        &self.password_hash
    }
}

// ── Argon2 ────────────────────────────────────────────────────────────────────

#[test]
fn argon2_make_and_verify() {
    let h = Hasher::from_config(argon2_config());
    let hash = h.make("s3cr3t").unwrap();
    assert!(hash.starts_with("$argon2"), "PHC prefix: {hash}");
    assert!(h.verify("s3cr3t", &hash).unwrap());
    assert!(!h.verify("wrong", &hash).unwrap());
}

#[test]
fn argon2_does_not_need_rehash_with_same_params() {
    let h = Hasher::from_config(argon2_config());
    let hash = h.make("pass").unwrap();
    assert!(!h.needs_rehash(&hash));
}

#[test]
fn argon2_needs_rehash_after_config_upgrade() {
    let low = Hasher::from_config(argon2_config());
    let hash = low.make("pass").unwrap();

    let high = Hasher::from_config(HashConfig {
        driver: Driver::Argon2,
        argon2: Argon2Config {
            memory_kib: 4096,
            iterations: 2,
            parallelism: 1,
        },
        ..HashConfig::default()
    });
    assert!(high.needs_rehash(&hash));
}

#[test]
fn argon2_needs_rehash_with_invalid_format() {
    let h = Hasher::from_config(argon2_config());
    assert!(h.needs_rehash("not-a-valid-hash"));
}

#[test]
fn argon2_unique_hashes_per_call() {
    let h = Hasher::from_config(argon2_config());
    let a = h.make("same_password").unwrap();
    let b = h.make("same_password").unwrap();
    assert_ne!(a, b, "each hash should use a fresh random salt");
}

#[test]
fn argon2_invalid_params_and_format() {
    let h = Hasher::from_config(HashConfig {
        driver: Driver::Argon2,
        argon2: Argon2Config { memory_kib: 4, iterations: 1, parallelism: 1 },
        ..HashConfig::default()
    });
    assert!(matches!(h.make("pw"), Err(HashError::InvalidParams(_))));
    let h = Hasher::from_config(argon2_config());
    assert_eq!(h.verify("pw", "no-phc"), Err(HashError::InvalidFormat));
}

#[test]
fn argon2_rehash_reads_params_from_phc_text() {
    let h = Hasher::from_config(argon2_config());
    // no hash part is needed to read the parameters
    assert!(!h.needs_rehash("$argon2id$v=19$m=1024,t=1,p=1$c29tZXNhbHQ"));
    assert!(h.needs_rehash("$argon2id$v=19$m=1023,t=1,p=1$c29tZXNhbHQ"));
    assert!(h.needs_rehash("$argon2i$v=19$m=1024,t=1,p=1$c29tZXNhbHQ"));
    assert!(!h.needs_rehash("$argon2id$v=19$m=2048,t=3,p=2$c29tZXNhbHQ"));
}

// ── Bcrypt ────────────────────────────────────────────────────────────────────

#[test]
fn bcrypt_make_and_verify() {
    let h = Hasher::from_config(bcrypt_config());
    let hash = h.make("password").unwrap();
    assert!(hash.starts_with("$2"), "bcrypt prefix: {hash}");
    assert!(h.verify("password", &hash).unwrap());
    assert!(!h.verify("wrong", &hash).unwrap());
}

#[test]
fn bcrypt_does_not_need_rehash_with_same_cost() {
    let h = Hasher::from_config(bcrypt_config());
    let hash = h.make("pass").unwrap();
    assert!(!h.needs_rehash(&hash));
}

#[test]
fn bcrypt_needs_rehash_after_cost_increase() {
    let low = Hasher::from_config(bcrypt_config());
    let hash = low.make("pass").unwrap();

    let high = Hasher::from_config(HashConfig {
        driver: Driver::Bcrypt,
        bcrypt: BcryptConfig { cost: 8 },
        ..HashConfig::default()
    });
    assert!(high.needs_rehash(&hash));
}

#[test]
fn bcrypt_unique_hashes_per_call() {
    let h = Hasher::from_config(bcrypt_config());
    let a = h.make("same").unwrap();
    let b = h.make("same").unwrap();
    assert_ne!(a, b);
}

#[test]
fn bcrypt_cost_out_of_range_and_stored_cost() {
    let h = Hasher::from_config(HashConfig {
        driver: Driver::Bcrypt,
        bcrypt: BcryptConfig { cost: 3 },
        ..HashConfig::default()
    });
    assert!(matches!(h.make("pw"), Err(HashError::HashFailed(_))));
    let h = Hasher::from_config(bcrypt_config());
    assert!(!h.needs_rehash("$2b$04$anything"));
    assert!(h.needs_rehash("$2b$03$anything"));
    assert!(h.needs_rehash("no dollars"));
    assert!(matches!(h.verify("pw", "garbage"), Err(HashError::HashFailed(_))));
}

// ── Scrypt ────────────────────────────────────────────────────────────────────

#[test]
fn scrypt_make_and_verify() {
    let h = Hasher::from_config(scrypt_config());
    let hash = h.make("hunter2").unwrap();
    assert!(hash.starts_with("$scrypt"), "PHC prefix: {hash}");
    assert!(h.verify("hunter2", &hash).unwrap());
    assert!(!h.verify("wrong", &hash).unwrap());
}

#[test]
fn scrypt_does_not_need_rehash_with_same_params() {
    let h = Hasher::from_config(scrypt_config());
    let hash = h.make("pass").unwrap();
    assert!(!h.needs_rehash(&hash));
}

#[test]
fn scrypt_needs_rehash_after_log_n_increase() {
    let low = Hasher::from_config(scrypt_config());
    let hash = low.make("pass").unwrap();

    let high = Hasher::from_config(HashConfig {
        driver: Driver::Scrypt,
        scrypt: ScryptConfig {
            log_n: 6,
            r: 8,
            p: 1,
        },
        ..HashConfig::default()
    });
    assert!(high.needs_rehash(&hash));
}

#[test]
fn scrypt_invalid_params() {
    let h = Hasher::from_config(HashConfig {
        driver: Driver::Scrypt,
        scrypt: ScryptConfig { log_n: 4, r: 0, p: 1 },
        ..HashConfig::default()
    });
    assert!(matches!(h.make("pw"), Err(HashError::InvalidParams(_))));
}

// ── Default config ────────────────────────────────────────────────────────────

#[test]
fn default_config_uses_argon2() {
    let h = Hasher::from_config(HashConfig::default());
    let hash = h.make("pass").unwrap();
    assert!(
        hash.contains("argon2id"),
        "default driver is Argon2: {hash}"
    );
    assert!(h.verify("pass", &hash).unwrap());
}

// ── AuthFinder helpers ────────────────────────────────────────────────────────

#[test]
fn verify_for_and_needs_rehash_for() {
    let h = Hasher::from_config(argon2_config());
    let hash = h.make("secret").unwrap();
    let user = FakeUser {
        password_hash: hash,
    };

    assert!(h.verify_for("secret", &user).unwrap());
    assert!(!h.verify_for("wrong", &user).unwrap());
    assert!(!h.needs_rehash_for(&user));
}

// ── Hasher::clone ─────────────────────────────────────────────────────────────

#[test]
fn hasher_is_clone() {
    let h1 = Hasher::from_config(argon2_config());
    let h2 = h1.clone();
    let hash = h1.make("pw").unwrap();
    assert!(h2.verify("pw", &hash).unwrap());
}

// ── settings from the environment ─────────────────────────────────────────────

fn env(driver: Option<&str>) -> HashEnv {
    HashEnv {
        driver: driver.map(|d| d.to_string()),
        memory_kib: None,
        iterations: None,
        parallelism: None,
        cost: None,
        log_n: None,
        r: None,
        p: None,
    }
}

#[test]
fn hasher_from_env_values() {
    let h = Hasher::from_env_values(&env(None)).unwrap();
    let hash = h.make("pw").unwrap();
    assert!(hash.starts_with("$argon2id$v=19$m=19456,t=2,p=1$"), "{hash}");

    let mut e = env(Some("bcrypt"));
    e.cost = Some("5".to_string());
    let h = Hasher::from_env_values(&e).unwrap();
    assert!(h.make("pw").unwrap().starts_with("$2b$05$"));

    let mut e = env(Some("scrypt"));
    e.log_n = Some("5".to_string());
    e.r = Some("not a number".to_string());
    let h = Hasher::from_env_values(&e).unwrap();
    assert!(h.make("pw").unwrap().starts_with("$scrypt$ln=5,r=8,p=1$"));

    let err = Hasher::from_env_values(&env(Some("md5"))).err().unwrap();
    assert_eq!(err, "unknown HASH_DRIVER: md5");
}
