//! The identifier capability: a value that maps losslessly to a `u32` slot
//! index.
//!
//! Distinct identifier types exist per logical index space (one per kind of
//! static grid, say), so that storages cannot be cross-indexed by mistake.
//! The container never invalidates or recycles an identifier; lifetime and
//! reuse policy belong to the caller.

use vstd::prelude::*;

verus! {

/// An index type for component storages: a newtype around a `u32`, in
/// spirit.  `index` is the mathematical value, and the two executable
/// conversions are specified against it.
pub trait Id: Copy + Eq + core::hash::Hash + Ord + Sized {
    /// The slot index this identifier stands for.
    spec fn index(&self) -> u32;

    /// Creates an identifier from a `u32`.
    fn from_u32(value: u32) -> (r: Self)
        ensures
            r.index() == value,
    ;

    /// Returns the identifier's integer value.
    fn id(&self) -> (r: u32)
        ensures
            r == self.index(),
    ;
}

/// A bare `u32` is itself an identifier; dedicated index spaces wrap it in
/// a newtype and forward these two conversions.
impl Id for u32 {
    open spec fn index(&self) -> u32 {
        *self
    }

    fn from_u32(value: u32) -> (r: Self) {
        value
    }

    fn id(&self) -> (r: u32) {
        *self
    }
}

} // verus!
