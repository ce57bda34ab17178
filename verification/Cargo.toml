[package]
name = "rok-crypto"
version = "0.6.0"
edition = "2021"
publish = false

[dependencies]
aes-gcm = "0.10"
argon2 = "0.5"
base64 = "0.22"
bcrypt = "*"
chrono = { version = "0.4", default-features = false, features = ["clock"] }
hmac = "0.12"
password-hash = { version = "0.5", features = ["getrandom"] }
rand = "0.8"
scrypt = "0.11"
serde = { version = "1", features = ["derive"] }
serde_json = "1"
sha2 = "0.10"
sha3 = "0.10"
thiserror = "1"
tokio = { version = "1", features = ["rt"] }
uuid = { version = "1", features = ["v7", "serde"] }
zeroize = { version = "1", features = ["derive"] }
