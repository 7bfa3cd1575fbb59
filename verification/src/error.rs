//! Why a cache could not be built.

use vstd::prelude::*;

verus! {

/// The reason a constructor refused its arguments.
#[derive(Debug, Clone, Copy, PartialEq, Eq, Structural)]
pub enum CacheError {
    /// A cache must have room for at least one entry.
    ZeroCapacity,
}

} // verus!
