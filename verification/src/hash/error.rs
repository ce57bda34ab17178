//! Why hashing or verification failed.

use vstd::prelude::*;

verus! {

/// Why hashing or verification failed.
#[derive(Debug, Clone, PartialEq, Eq)]
pub enum HashError {
    /// The hashing algorithm reported an error (its message).
    HashFailed(String),
    /// The stored hash is not a PHC string.
    InvalidFormat,
    /// The configured parameters are rejected by the algorithm (its message).
    InvalidParams(String),
}

impl HashError {
    /// A `HashFailed` error carrying `msg`.
    pub(crate) fn hash_failed(msg: String) -> (e: HashError)
        ensures
            e == HashError::HashFailed(msg),
    {
        HashError::HashFailed(msg)
    }

    /// An `InvalidParams` error carrying `msg`.
    pub(crate) fn invalid_params(msg: String) -> (e: HashError)
        ensures
            e == HashError::InvalidParams(msg),
    {
        HashError::InvalidParams(msg)
    }
}

} // verus!
