//! The domain predicate under search.
//!
//! The real predicate is external to this core: it is compiled into the
//! device kernel by a separate toolchain step and evaluated once per seed.
//! This stand-in keeps the host build self-contained and rejects every
//! seed.

use vstd::prelude::*;

verus! {

/// Placeholder predicate: no seed satisfies it.
pub fn compute(_seed: u64) -> (r: bool)
    ensures
        !r,
{
    false
}

} // verus!
