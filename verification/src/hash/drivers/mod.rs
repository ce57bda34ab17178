//! The hashing back ends a [`Hasher`](super::Hasher) dispatches to.

pub mod argon2;
pub mod bcrypt;
pub mod scrypt;
