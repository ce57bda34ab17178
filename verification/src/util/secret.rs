//! Fixed-size secret key material.

use vstd::prelude::*;
use zeroize::Zeroize;

verus! {

/// A byte array of size `N` holding key material.
///
/// The bytes are not cleared when the key is dropped (a `Drop` impl cannot
/// be verified); call [`zeroize`](SecretKey::zeroize) to clear them.
pub struct SecretKey<const N: usize>([u8; N]);

impl<const N: usize> View for SecretKey<N> {
    type V = Seq<u8>;

    closed spec fn view(&self) -> Seq<u8> {
        self.0@
    }
}

/// `Zeroize::zeroize` on a byte array: every byte becomes 0.
#[verifier::external_body]
fn zeroize_array<const N: usize>(bytes: &mut [u8; N])
    ensures
        final(bytes)@ == Seq::new(N as nat, |i: int| 0u8),
{
    bytes.zeroize();
}

impl<const N: usize> SecretKey<N> {
    /// A key holding `bytes`.
    pub fn new(bytes: [u8; N]) -> (k: Self)
        ensures
            k@ == bytes@,
    {
        SecretKey(bytes)
    }

    /// The number of bytes, `N`.
    pub fn len(&self) -> (n: usize)
        ensures
            n == N,
    {
        N
    }

    /// Whether the key has no bytes (`N == 0`).
    pub fn is_empty(&self) -> (b: bool)
        ensures
            b == (N == 0),
    {
        N == 0
    }

    /// The key bytes.
    pub fn as_bytes(&self) -> (b: &[u8; N])
        ensures
            b@ == self@,
    {
        &self.0
    }

    /// Overwrite the key bytes with zeros.
    pub fn zeroize(&mut self)
        ensures
            final(self)@ == Seq::new(N as nat, |i: int| 0u8),
    {
        zeroize_array(&mut self.0);
    }
}

impl<const N: usize> core::ops::Deref for SecretKey<N> {
    type Target = [u8; N];

    fn deref(&self) -> (b: &[u8; N])
        ensures
            b@ == self@,
    {
        &self.0
    }
}

} // verus!
