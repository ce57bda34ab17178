//! Types that can be built from environment variables.

use vstd::prelude::*;

verus! {

/// Implemented by types that can be constructed from environment variables.
pub trait FromEnv: Sized {
    type Error;

    /// Build from environment variables.
    fn from_env() -> Result<Self, Self::Error>;
}

} // verus!
