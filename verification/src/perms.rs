//! File permissions for secret-bearing files.
use vstd::prelude::*;

verus! {

/// The permission bits of a secret-bearing file on unix: its owner may read and write it, and
/// nobody else may do anything with it.
pub const OWNER_ONLY_MODE: u32 = 0o600;

} // verus!
