//! Pseudorandom number sources.
//!
//! The renderer consumes randomness only through `PRNG::next_unit`, a
//! uniform fixed-point value in `[0, 1)`; the generator itself is a plain
//! deterministic integer state machine.

use vstd::prelude::*;

pub mod mt19937;

verus! {

/// A deterministic pseudorandom source of fixed-point values in `[0, 1)`.
pub trait PRNG: Sized {
    /// The structural invariant of the generator state.
    spec fn inv(&self) -> bool;

    /// The next pseudorandom value, at least 0 and strictly below one
    /// fixed-point unit.
    fn next_unit(&mut self) -> (r: i64)
        requires
            old(self).inv(),
        ensures
            final(self).inv(),
            0 <= r < crate::math::SCALE,
    ;
}

} // verus!
