//! Sources of randomness and of the current time.

use rand::RngCore;
use vstd::prelude::*;

verus! {

/// `SystemTime::now()` as milliseconds since the Unix epoch. Nothing is
/// promised of the value: it is whatever the clock says.
#[verifier::external_body]
pub(crate) fn unix_time_ms() -> u128 {
    std::time::SystemTime::now()
        .duration_since(std::time::UNIX_EPOCH)
        .expect("time went backwards")
        .as_millis()
}

/// `SystemTime::now()` as whole seconds since the Unix epoch.
#[verifier::external_body]
pub(crate) fn unix_time_secs() -> u64 {
    std::time::SystemTime::now()
        .duration_since(std::time::UNIX_EPOCH)
        .expect("time went backwards")
        .as_secs()
}

/// `n` bytes from `rand::thread_rng().fill_bytes`; only their number is known.
#[verifier::external_body]
pub(crate) fn random_bytes(n: usize) -> (v: Vec<u8>)
    ensures
        v@.len() == n,
{
    let mut v = vec![0u8; n];
    rand::thread_rng().fill_bytes(&mut v);
    v
}

/// One `u32` from `rand::thread_rng().next_u32`.
#[verifier::external_body]
pub(crate) fn random_u32() -> u32 {
    rand::thread_rng().next_u32()
}

} // verus!
