//! Two-component fixed-point vectors.

use vstd::prelude::*;

use crate::math::sq;

verus! {

#[derive(Clone, Copy, PartialEq, Eq, Structural, Debug)]
pub struct Vector2 {
    pub x: i64,
    pub y: i64,
}

/// The dot product of two plane vectors.
pub open spec fn spec_dot2(a: Vector2, b: Vector2) -> int {
    (a.x as int) * (b.x as int) + (a.y as int) * (b.y as int)
}

impl Vector2 {
    pub fn new(x: i64, y: i64) -> (r: Self)
        ensures
            r == (Vector2 { x, y }),
    {
        Vector2 { x, y }
    }

    pub fn length_squared(&self) -> (r: i64)
        requires
            -0x4000_0000 <= self.x <= 0x4000_0000,
            -0x4000_0000 <= self.y <= 0x4000_0000,
        ensures
            r == spec_dot2(*self, *self),
            r >= 0,
    {
        proof {
            assert(0 <= (self.x as int) * (self.x as int) <= 0x1000_0000_0000_0000 && 0 <= (
            self.y as int) * (self.y as int) <= 0x1000_0000_0000_0000) by (nonlinear_arith)
                requires
                    -0x4000_0000 <= self.x <= 0x4000_0000,
                    -0x4000_0000 <= self.y <= 0x4000_0000;
        }
        self.x * self.x + self.y * self.y
    }

    pub fn length(&self) -> (r: i64)
        requires
            -0x4000_0000 <= self.x <= 0x4000_0000,
            -0x4000_0000 <= self.y <= 0x4000_0000,
        ensures
            r >= 0,
            sq(r as int) <= spec_dot2(*self, *self),
            spec_dot2(*self, *self) < sq(r as int + 1),
    {
        let l2 = self.length_squared();
        let l = crate::math::isqrt_u128(l2 as u128);
        proof {
            assert(sq(l as int) <= l2 as int && (l2 as int) < sq(l as int + 1) && l as int
                <= 0x1_0000_0000_0000) by (nonlinear_arith)
                requires
                    (l as int) * (l as int) <= l2 as int,
                    (l2 as int) < sq(l as int + 1),
                    0 <= l2 <= i64::MAX,
                    l >= 0;
        }
        l as i64
    }

    /// Fixed-point values are always finite, so there is never a NaN.
    pub fn has_nans(&self) -> (r: bool)
        ensures
            r == false,
    {
        false
    }
}

} // verus!
