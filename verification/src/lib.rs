//! Cryptographic building blocks: identifiers, password hashing, authenticated
//! encryption, message signing, one-time passwords and password policies.

pub mod text;

pub mod password_policy;
pub mod provider;
pub mod totp;
pub mod util;
pub mod crypto;
pub mod encrypt;
pub mod entropy;
pub mod hash;
pub mod ids;
pub mod jwt;
