use rok_crypto::util::rand::{alphanumeric, alphanumeric_char, constant_time_eq, hex, hex_encode};
use rok_crypto::util::secret::SecretKey;

#[test]
fn hex_length() {
    assert_eq!(hex(0).len(), 0);
    assert_eq!(hex(8).len(), 16);
    assert_eq!(hex(32).len(), 64);
}

#[test]
fn hex_is_hex() {
    let h = hex(16);
    assert!(h.chars().all(|c| c.is_ascii_hexdigit()));
}

#[test]
fn alphanumeric_length_and_charset() {
    let s = alphanumeric(32);
    assert_eq!(s.len(), 32);
    assert!(s.chars().all(|c| c.is_ascii_alphanumeric()));
}

#[test]
fn constant_time_eq_matches() {
    assert!(constant_time_eq(b"", b""));
    assert!(constant_time_eq(b"abc", b"abc"));
    assert!(!constant_time_eq(b"abc", b"abd"));
    assert!(!constant_time_eq(b"abc", b"abcd"));
}

#[test]
fn secret_key_basic() {
    let key = SecretKey::<32>::new([0xABu8; 32]);
    assert_eq!(key.len(), 32);
    assert_eq!(key[0], 0xAB);
}

#[test]
fn hex_encode_known_values() {
    assert_eq!(hex_encode(&[0x00, 0x0f, 0xa5, 0xff]), "000fa5ff");
    assert_eq!(hex_encode(&[]), "");
}

#[test]
fn alphanumeric_char_table() {
    assert_eq!(alphanumeric_char(0), b'A');
    assert_eq!(alphanumeric_char(25), b'Z');
    assert_eq!(alphanumeric_char(26), b'a');
    assert_eq!(alphanumeric_char(51), b'z');
    assert_eq!(alphanumeric_char(52), b'0');
    assert_eq!(alphanumeric_char(61), b'9');
    assert_eq!(alphanumeric_char(62), b'A');
}

#[test]
fn secret_key_zeroize_and_empty() {
    let mut key = SecretKey::<4>::new([1, 2, 3, 4]);
    assert!(!key.is_empty());
    assert_eq!(key.as_bytes(), &[1, 2, 3, 4]);
    key.zeroize();
    assert_eq!(key.as_bytes(), &[0, 0, 0, 0]);
    let empty = SecretKey::<0>::new([]);
    assert!(empty.is_empty());
}
