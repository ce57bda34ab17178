use rok_crypto::totp::TOTP;

#[test]
fn generate_returns_six_digits() {
    let totp = TOTP::new(b"secret", 30);
    let code = totp.generate(0);
    assert_eq!(code.len(), 6);
    assert!(code.chars().all(|c| c.is_ascii_digit()));
}

#[test]
fn verify_own_code() {
    let totp = TOTP::new(b"supersecret", 30);
    let code = totp.generate(42);
    assert!(totp.verify(&code, 42));
    assert!(!totp.verify(&code, 43));
}

#[test]
fn verify_drift_tolerates_skew() {
    let totp = TOTP::new(b"secret", 30);
    let code = totp.generate(100);
    assert!(totp.verify_drift(&code, 101, 2)); // drift of 2
    assert!(!totp.verify_drift(&code, 200, 1));
}

#[test]
fn verify_invalid_code_returns_false() {
    let totp = TOTP::new(b"secret", 30);
    assert!(!totp.verify("abc123", 0));
    assert!(!totp.verify("12345", 0)); // 5 digits
    assert!(!totp.verify("1234567", 0)); // 7 digits
}

#[test]
fn codes_are_deterministic() {
    let totp = TOTP::new(b"test", 30);
    assert_eq!(totp.generate(0), totp.generate(0));
    assert_eq!(totp.generate(999), totp.generate(999));
}

#[test]
fn now_returns_current_counter() {
    let totp = TOTP::new(b"secret", 30);
    let code_now = totp.generate(totp.now());
    assert_eq!(code_now.len(), 6);
}

#[test]
fn hmac_sha256_reference_codes() {
    // dynamic truncation of HMAC-SHA256 over the big-endian counter
    let totp = TOTP::new(b"12345678901234567890", 30);
    assert_eq!(totp.generate(0), "875740");
    assert_eq!(totp.generate(1), "247374");
    assert_eq!(totp.generate(9), "184989");
}

#[test]
fn counter_at_divides_by_interval() {
    let totp = TOTP::new(b"k", 30);
    assert_eq!(totp.counter_at(0), 0);
    assert_eq!(totp.counter_at(59), 1);
    assert_eq!(totp.counter_at(60), 2);
}

#[test]
fn verify_drift_window_edges() {
    let totp = TOTP::new(b"secret", 30);
    let code = totp.generate(100);
    assert!(totp.verify_drift(&code, 98, 2));
    assert!(!totp.verify_drift(&code, 97, 2));
    assert!(totp.verify_drift(&code, 100, 0));
    assert!(totp.verify_drift(&code, 1, 99));
}

#[test]
fn verify_drift_at_the_top_of_the_counter_range() {
    let totp = TOTP::new(b"secret", 30);
    let code = totp.generate(u64::MAX);
    assert!(totp.verify_drift(&code, u64::MAX, 1));
    assert!(!totp.verify_drift("000000", u64::MAX, 1) || totp.generate(u64::MAX - 1) == "000000" || totp.generate(u64::MAX) == "000000");
}
