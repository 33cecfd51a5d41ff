//! A generic pair of bounds.

use vstd::prelude::*;

verus! {

/// A lower and an upper bound of any point type.
pub struct Bounds<T> {
    pub min: T,
    pub max: T,
}

impl<T> Bounds<T> {
    pub fn new(min: T, max: T) -> (r: Self)
        ensures
            r.min == min,
            r.max == max,
    {
        Bounds { min, max }
    }
}

} // verus!
