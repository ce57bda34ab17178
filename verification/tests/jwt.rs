use rok_crypto::jwt::{JwtError, JwtSigner};

fn claims_json(sub: &str, role: &str) -> String {
    format!("{{\"sub\":\"{sub}\",\"role\":\"{role}\"}}")
}

fn field(payload: &[u8], name: &str) -> String {
    let v: serde_json::Value = serde_json::from_slice(payload).unwrap();
    v[name].as_str().unwrap().to_string()
}

#[test]
fn encode_decode_roundtrip() {
    let signer = JwtSigner::new(b"secret");
    let claims = claims_json("user-1", "admin");
    let token = signer.encode(&claims);
    let decoded = signer.decode(&token).unwrap();
    assert_eq!(decoded, claims.as_bytes().to_vec());
    assert_eq!(field(&decoded, "sub"), "user-1");
    assert_eq!(field(&decoded, "role"), "admin");
}

#[test]
fn invalid_signature_rejected() {
    let s1 = JwtSigner::new(b"key1");
    let s2 = JwtSigner::new(b"key2");
    let claims = claims_json("user", "user");
    let token = s1.encode(&claims);
    assert!(s2.decode(&token).is_err());
}

#[test]
fn decode_unverified_works() {
    let signer = JwtSigner::new(b"secret");
    let claims = claims_json("test", "viewer");
    let token = signer.encode(&claims);
    let decoded = signer.decode_unverified(&token).unwrap();
    assert_eq!(decoded, claims.as_bytes().to_vec());
}

#[test]
fn invalid_format() {
    let signer = JwtSigner::new(b"secret");
    assert!(signer.decode("bad").is_err());
    assert!(signer.decode("a.b").is_err());
    assert!(signer.decode("a.b.c.d").is_err());
}

#[test]
fn invalid_format_counts_parts() {
    let signer = JwtSigner::new(b"secret");
    assert_eq!(signer.decode("bad"), Err(JwtError::InvalidFormat(1)));
    assert_eq!(signer.decode("a.b"), Err(JwtError::InvalidFormat(2)));
    assert_eq!(signer.decode("a.b.c.d"), Err(JwtError::InvalidFormat(4)));
    assert_eq!(signer.decode("a.b.c"), Err(JwtError::InvalidSignature));
    assert_eq!(signer.decode_unverified("a.b!.c"), Err(JwtError::InvalidBase64));
}

#[test]
fn token_layout() {
    let signer = JwtSigner::new(b"secret");
    let token = signer.encode("{}");
    let parts: Vec<&str> = token.split('.').collect();
    assert_eq!(parts.len(), 3);
    assert_eq!(parts[0], "eyJhbGciOiJIUzI1NiIsInR5cCI6IkpXVCJ9");
    assert_eq!(parts[1], "e30");
}
