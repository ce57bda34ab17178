use std::collections::HashSet;

use rok_crypto::ids::cuid2::encode_base36_fixed;
use rok_crypto::ids::nanoid::generate_nanoid_custom;
use rok_crypto::ids::snowflake::SnowflakeState;
use rok_crypto::ids::ulid::UlidMonotonic;
use rok_crypto::ids::{Cuid2, Cuid2Context, IdError, NanoId, Snowflake, SnowflakeConfig, Ulid, UuidV7};

fn ctx() -> Cuid2Context {
    Cuid2Context::new(4242)
}

// ── CUID2 ─────────────────────────────────────────────────────────────────────

#[test]
fn cuid2_length() {
    let mut c = ctx();
    let id = Cuid2::generate(&mut c);
    assert_eq!(id.as_str().len(), 24, "CUID2 must be 24 chars");
}

#[test]
fn cuid2_starts_with_letter() {
    let mut c = ctx();
    for _ in 0..20 {
        let id = Cuid2::generate(&mut c);
        assert!(
            id.as_str().chars().next().unwrap().is_ascii_alphabetic(),
            "CUID2 first char must be a letter"
        );
    }
}

#[test]
fn cuid2_uniqueness() {
    let mut c = ctx();
    let ids: HashSet<String> = (0..1000).map(|_| Cuid2::generate(&mut c).to_string()).collect();
    assert_eq!(ids.len(), 1000, "CUID2 collisions detected");
}

#[test]
fn cuid2_roundtrip() {
    let mut c = ctx();
    let id = Cuid2::generate(&mut c);
    let s = id.to_string();
    let parsed: Cuid2 = Cuid2::from_str(&s).unwrap();
    assert_eq!(id, parsed);
}

#[test]
fn cuid2_from_str_errors() {
    assert_eq!(
        Cuid2::from_str("short"),
        Err(IdError::InvalidFormat("cuid2", "expected 24 chars"))
    );
    assert_eq!(
        Cuid2::from_str("1bcdefghijklmnopqrstuvwx"),
        Err(IdError::InvalidFormat("cuid2", "must start with a letter"))
    );
    assert_eq!(
        Cuid2::from_str("Abcdefghijklmnopqrstuvwx"),
        Err(IdError::InvalidFormat("cuid2", "only lowercase letters and digits"))
    );
    assert!(Cuid2::from_str("abcdefghijklmnopqrstuvw9").is_ok());
}

#[test]
fn cuid2_from_digest_known_value() {
    let mut digest = [0u8; 32];
    digest[15] = 37;
    digest[16] = 27;
    let id = Cuid2::from_digest(&digest);
    // byte 16 is 27, 27 % 26 = 1 -> 'b'; the number 37 is "11" in base 36
    assert_eq!(id.as_str(), "b00000000000000000000011");
}

#[test]
fn base36_fixed_digits() {
    assert_eq!(encode_base36_fixed(0, 3), b"000".to_vec());
    assert_eq!(encode_base36_fixed(35, 2), b"0z".to_vec());
    assert_eq!(encode_base36_fixed(36, 2), b"10".to_vec());
    assert_eq!(encode_base36_fixed(36 * 36, 2), b"00".to_vec());
    assert_eq!(encode_base36_fixed(123456789, 0), Vec::<u8>::new());
}

#[test]
fn cuid2_counter_advances() {
    let mut c = ctx();
    let a = Cuid2::generate(&mut c);
    let b = Cuid2::generate(&mut c);
    assert_ne!(a, b);
}

// ── ULID ──────────────────────────────────────────────────────────────────────

#[test]
fn ulid_length() {
    let id = Ulid::generate();
    assert_eq!(id.as_str().len(), 26, "ULID must be 26 chars");
}

#[test]
fn ulid_uniqueness() {
    let ids: HashSet<String> = (0..1000).map(|_| Ulid::generate().to_string()).collect();
    assert_eq!(ids.len(), 1000, "ULID collisions detected");
}

#[test]
fn ulid_timestamp_roundtrip() {
    let before = std::time::SystemTime::now()
        .duration_since(std::time::UNIX_EPOCH)
        .unwrap()
        .as_millis() as u64;
    let id = Ulid::generate();
    let after = std::time::SystemTime::now()
        .duration_since(std::time::UNIX_EPOCH)
        .unwrap()
        .as_millis() as u64;
    let ts = id.timestamp_ms();
    assert!(ts >= before && ts <= after, "ULID timestamp out of range");
}

#[test]
fn ulid_monotonic_within_ms() {
    let mut state = UlidMonotonic::new();
    let mut prev = Ulid::monotonic(&mut state);
    for _ in 0..50 {
        let next = Ulid::monotonic(&mut state);
        assert!(
            prev.to_string() < next.to_string(),
            "monotonic ULIDs must be strictly increasing"
        );
        prev = next;
    }
}

#[test]
fn ulid_roundtrip() {
    let id = Ulid::generate();
    let s = id.to_string();
    let parsed: Ulid = Ulid::from_str(&s).unwrap();
    assert_eq!(id, parsed);
}

#[test]
fn ulid_from_parts_known_value() {
    let id = Ulid::from_parts(0, &[0u8; 10]);
    assert_eq!(id.as_str(), "00000000000000000000000000");
    assert_eq!(id.timestamp_ms(), 0);
    let id = Ulid::from_parts(1, &[0xFFu8; 10]);
    assert_eq!(id.as_str(), "0000000001ZZZZZZZZZZZZZZZZ");
    assert_eq!(id.timestamp_ms(), 1);
}

#[test]
fn ulid_from_str_lowercase_and_errors() {
    let id = Ulid::from_str("01arz3ndektsv4rrffq69g5fav").unwrap();
    assert_eq!(id.as_str(), "01ARZ3NDEKTSV4RRFFQ69G5FAV");
    assert!(Ulid::from_str("too-short").is_err());
    assert!(Ulid::from_str("01ARZ3NDEKTSV4RRFFQ69G5FAU!").is_err());
}

// ── UUID v7 ───────────────────────────────────────────────────────────────────

#[test]
fn uuid_v7_version() {
    let id = UuidV7::generate();
    assert_eq!(id.as_uuid().get_version_num(), 7);
}

#[test]
fn uuid_v7_uniqueness() {
    let ids: HashSet<String> = (0..1000).map(|_| UuidV7::generate().to_string()).collect();
    assert_eq!(ids.len(), 1000, "UUID v7 collisions detected");
}

#[test]
fn uuid_v7_roundtrip() {
    let id = UuidV7::generate();
    let s = id.to_string();
    let parsed: UuidV7 = UuidV7::from_str(&s).unwrap();
    assert_eq!(id, parsed);
}

#[test]
fn uuid_v7_rejects_other_versions() {
    assert_eq!(
        UuidV7::from_str("not a uuid"),
        Err(IdError::InvalidFormat("uuid_v7", "invalid UUID format"))
    );
    assert_eq!(
        UuidV7::from_str("67e55044-10b1-426f-9247-bb680e5fe0c8"),
        Err(IdError::InvalidFormat("uuid_v7", "not a v7 UUID"))
    );
    let id = UuidV7::from_str("017f22e2-79b0-7cc3-98c4-dc0c0c07398f").unwrap();
    assert_eq!(id.to_string(), "017f22e2-79b0-7cc3-98c4-dc0c0c07398f");
    assert_eq!(id.as_bytes()[6] >> 4, 7);
}

// ── Snowflake ─────────────────────────────────────────────────────────────────

#[test]
fn snowflake_positive() {
    let mut state = SnowflakeState::new();
    let id = Snowflake::new(&mut state, None);
    assert!(id.value() > 0);
}

#[test]
fn snowflake_monotonic() {
    let cfg = SnowflakeConfig::from_worker_text(None);
    let mut state = SnowflakeState::new();
    let mut prev = Snowflake::generate(&mut state, &cfg);
    for _ in 0..100 {
        let next = Snowflake::generate(&mut state, &cfg);
        assert!(
            next.value() > prev.value(),
            "Snowflake IDs must be monotonically increasing"
        );
        prev = next;
    }
}

#[test]
fn snowflake_worker_id() {
    let cfg = SnowflakeConfig {
        worker_id: 42,
        epoch_ms: 1_577_836_800_000,
    };
    let mut state = SnowflakeState::new();
    let id = Snowflake::generate(&mut state, &cfg);
    assert_eq!(id.worker_id(), 42);
}

#[test]
fn snowflake_roundtrip() {
    let mut state = SnowflakeState::new();
    let id = Snowflake::new(&mut state, None);
    let s = id.to_string();
    let parsed: Snowflake = Snowflake::from_str(&s).unwrap();
    assert_eq!(id, parsed);
}

#[test]
fn snowflake_parts_and_parse_errors() {
    let id = Snowflake((5i64 << 22) | (7 << 12) | 9);
    assert_eq!(id.worker_id(), 7);
    assert_eq!(id.sequence(), 9);
    let cfg = SnowflakeConfig { worker_id: 7, epoch_ms: 1000 };
    assert_eq!(id.timestamp_ms(&cfg), 1005);
    assert_eq!(id.to_string(), "21000201");
    assert_eq!(
        Snowflake::from_str("-5"),
        Err(IdError::InvalidFormat("snowflake", "must be non-negative"))
    );
    assert_eq!(
        Snowflake::from_str("abc"),
        Err(IdError::InvalidFormat("snowflake", "expected integer"))
    );
}

#[test]
fn snowflake_worker_text() {
    assert_eq!(SnowflakeConfig::from_worker_text(Some("42")).worker_id, 42);
    assert_eq!(SnowflakeConfig::from_worker_text(Some("1025")).worker_id, 1);
    assert_eq!(SnowflakeConfig::from_worker_text(Some("70000")).worker_id, 0);
    assert_eq!(SnowflakeConfig::from_worker_text(Some("x")).worker_id, 0);
    assert_eq!(SnowflakeConfig::from_worker_text(None).epoch_ms, 1_577_836_800_000);
}

#[test]
fn snowflake_same_millisecond_sequence() {
    let cfg = SnowflakeConfig { worker_id: 3, epoch_ms: 0 };
    let mut state = SnowflakeState { last_ts: i64::MAX, sequence: 0 };
    // the clock is behind last_ts, so this is a new millisecond: sequence 0
    let id = Snowflake::generate(&mut state, &cfg);
    assert_eq!(id.sequence(), 0);
    assert_eq!(id.worker_id(), 3);
}

// ── NanoID ────────────────────────────────────────────────────────────────────

#[test]
fn nanoid_default_length() {
    let id = NanoId::generate();
    assert_eq!(id.as_str().len(), 21);
}

#[test]
fn nanoid_custom_size() {
    let id = NanoId::with_size(36);
    assert_eq!(id.as_str().len(), 36);
}

#[test]
fn nanoid_custom_alphabet() {
    let alpha = b"0123456789";
    let id = NanoId::custom(alpha, 10);
    assert!(id.as_str().chars().all(|c| c.is_ascii_digit()));
    assert_eq!(id.as_str().len(), 10);
}

#[test]
fn nanoid_uniqueness() {
    let ids: HashSet<String> = (0..1000).map(|_| NanoId::generate().to_string()).collect();
    assert_eq!(ids.len(), 1000, "NanoID collisions detected");
}

#[test]
fn nanoid_single_letter_alphabet() {
    let s = generate_nanoid_custom(b"x", 5);
    assert_eq!(s, "xxxxx");
    assert_eq!(generate_nanoid_custom(b"ab", 0), "");
}

#[test]
fn ulid_text_sorts_by_time_then_random() {
    let a = Ulid::from_parts(1, &[0xFF; 10]);
    let b = Ulid::from_parts(2, &[0x00; 10]);
    assert!(a.as_str() < b.as_str());
    let mut r = [0u8; 10];
    r[9] = 0xFF;
    let c = Ulid::from_parts(7, &r);
    r[8] = 1;
    r[9] = 0;
    let d = Ulid::from_parts(7, &r);
    assert!(c.as_str() < d.as_str());
}

#[test]
fn uuid_v7_text_sorts_by_timestamp() {
    let a = UuidV7::from_str("017f22e2-79b0-7cc3-98c4-dc0c0c07398f").unwrap();
    let b = UuidV7::from_str("017f22e2-79b1-7000-8000-000000000000").unwrap();
    assert!(a.to_string() < b.to_string());
}

#[test]
fn encrypt_token_alphabet_matches_contract() {
    let e = rok_crypto::encrypt::Encrypter::from_config(rok_crypto::encrypt::EncryptConfig::new("k"));
    let t = e.seal("value");
    assert!(t.bytes().all(|c| c.is_ascii_alphanumeric() || c == b'-' || c == b'_'));
}

#[test]
fn uuid_v7_variant_and_uuid_bytes() {
    let id = UuidV7::generate();
    assert_eq!(id.as_bytes()[8] >> 6, 2);
    assert_eq!(id.as_uuid().as_bytes(), id.as_bytes());
}

#[test]
fn snowflake_step_decisions() {
    let cfg = SnowflakeConfig { worker_id: 5, epoch_ms: 0 };
    let mut st = SnowflakeState::new();
    let a = Snowflake::step(&mut st, &cfg, 10).unwrap();
    assert_eq!((a.timestamp_ms(&cfg), a.sequence(), a.worker_id()), (10, 0, 5));
    let b = Snowflake::step(&mut st, &cfg, 10).unwrap();
    assert_eq!(b.sequence(), 1);
    let mut full = SnowflakeState { last_ts: 10, sequence: 4095 };
    assert!(Snowflake::step(&mut full, &cfg, 10).is_none());
    assert_eq!((full.last_ts, full.sequence), (10, 4095));
    let c = Snowflake::step(&mut full, &cfg, 11).unwrap();
    assert_eq!((c.timestamp_ms(&cfg), c.sequence()), (11, 0));
}
