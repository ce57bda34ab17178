use rok_crypto::encrypt::{EncryptConfig, Encrypter, Signer};
use rok_crypto::hash::{Argon2Config, Driver, HashConfig, Hasher};
use rok_crypto::provider::CryptoProvider;

fn fast_hasher() -> Hasher {
    Hasher::from_config(HashConfig {
        driver: Driver::Argon2,
        argon2: Argon2Config { memory_kib: 1024, iterations: 1, parallelism: 1 },
        ..HashConfig::default()
    })
}

#[test]
fn provider_delegates() {
    let p = CryptoProvider::new(
        fast_hasher(),
        Encrypter::from_config(EncryptConfig::new("k")),
        Signer::new("k"),
    );
    let hash = p.hash_make("password").unwrap();
    assert!(p.hash_verify("password", &hash).unwrap());
    assert!(!p.hash_needs_rehash(&hash));
    let token = p.encrypt_seal("sensitive");
    assert_eq!(p.encrypt_open(&token).unwrap(), "sensitive");
    let sig = p.sign_data("data");
    assert!(p.verify_signature("data", &sig));
    assert!(!p.verify_signature("other", &sig));
    assert!(p.hasher().verify("password", &hash).unwrap());
    assert_eq!(p.encrypter().open(&token).unwrap(), "sensitive");
    assert_eq!(p.signer().sign("data"), sig);
}

#[test]
fn provider_placeholder_keys() {
    let p = CryptoProvider::new_hash(fast_hasher());
    let other = Encrypter::from_config(EncryptConfig::new("change-me"));
    assert_eq!(other.open(&p.encrypt_seal("x")).unwrap(), "x");
    assert_eq!(Signer::new("change-me").sign("d"), p.sign_data("d"));

    let p = CryptoProvider::new_encrypt(
        Encrypter::from_config(EncryptConfig::new("k")),
        Signer::new("k"),
    );
    assert!(p.hash_make("pw").unwrap().starts_with("$argon2id$v=19$m=19456,t=2,p=1$"));
}

#[test]
fn provider_is_clone() {
    let p = CryptoProvider::new_hash(fast_hasher());
    let q = p.clone();
    let token = p.encrypt_seal("v");
    assert_eq!(q.encrypt_open(&token).unwrap(), "v");
}
