//! Small helpers: random strings, constant-time comparison, fixed-size secret
//! keys, and the trait for types built from environment variables.

pub mod from_env;
pub mod rand;
pub mod secret;
