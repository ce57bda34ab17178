//! Identifier generators: CUID2, ULID, UUID v7, NanoID and Snowflake.

use vstd::prelude::*;

pub mod cuid2;
pub mod nanoid;
pub mod snowflake;
pub mod ulid;
pub mod uuid_v7;

pub use cuid2::{Cuid2, Cuid2Context};
pub use nanoid::NanoId;
pub use snowflake::{Snowflake, SnowflakeConfig, SnowflakeState};
pub use ulid::Ulid;
pub use uuid_v7::UuidV7;

verus! {

/// Why a string is not a valid identifier of some kind: the kind, then the reason.
#[derive(Debug, Clone, PartialEq, Eq)]
pub enum IdError {
    InvalidFormat(&'static str, &'static str),
}

} // verus!
