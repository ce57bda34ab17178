//! Access to the stored password hash of a user record.

use vstd::prelude::*;

verus! {

/// Implemented by user or account types that carry a stored password hash, so
/// that [`Hasher::verify_for`](super::Hasher::verify_for) and
/// [`Hasher::needs_rehash_for`](super::Hasher::needs_rehash_for) can take the
/// record itself.
pub trait AuthFinder {
    /// The stored password hash of this record, as text. A verified
    /// implementation defines it as what it returns; the default, the empty
    /// text, only stands for implementations written outside Verus, which do
    /// not mention it.
    closed spec fn auth_password(&self) -> Seq<char> {
        Seq::empty()
    }

    /// The stored password hash of this record: the text `auth_password`.
    fn get_auth_password(&self) -> (s: &str)
        ensures
            s@ == self.auth_password(),
    ;
}

} // verus!
