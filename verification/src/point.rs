//! Fixed-point points in space.

use vstd::prelude::*;

use crate::math::coord_in_bounds;
use crate::vector::Vector3;

verus! {

#[derive(Clone, Copy, PartialEq, Eq, Structural, Debug)]
pub struct Point3 {
    pub x: i64,
    pub y: i64,
    pub z: i64,
}

impl Point3 {
    /// Every component is a legal scene coordinate.
    pub open spec fn wf(self) -> bool {
        coord_in_bounds(self.x as int) && coord_in_bounds(self.y as int) && coord_in_bounds(
            self.z as int,
        )
    }

    pub fn new(x: i64, y: i64, z: i64) -> (r: Self)
        ensures
            r == (Point3 { x, y, z }),
    {
        Point3 { x, y, z }
    }

    /// The origin.
    pub fn zero() -> (r: Self)
        ensures
            r == (Point3 { x: 0i64, y: 0i64, z: 0i64 }),
    {
        Point3 { x: 0, y: 0, z: 0 }
    }

    /// Move the point along a vector.
    pub fn add_vector(&self, rhs: &Vector3) -> (r: Point3)
        requires
            i64::MIN <= self.x + rhs.x <= i64::MAX,
            i64::MIN <= self.y + rhs.y <= i64::MAX,
            i64::MIN <= self.z + rhs.z <= i64::MAX,
        ensures
            r.x == self.x + rhs.x,
            r.y == self.y + rhs.y,
            r.z == self.z + rhs.z,
    {
        Point3 { x: self.x + rhs.x, y: self.y + rhs.y, z: self.z + rhs.z }
    }

    /// The displacement vector from `rhs` to `self`, as a spec value.
    pub open spec fn sub_point_spec(self, rhs: Point3) -> Vector3 {
        Vector3 {
            x: (self.x - rhs.x) as i64,
            y: (self.y - rhs.y) as i64,
            z: (self.z - rhs.z) as i64,
        }
    }

    /// The displacement vector from `rhs` to `self`.
    pub fn sub_point(&self, rhs: &Point3) -> (r: Vector3)
        requires
            i64::MIN <= self.x - rhs.x <= i64::MAX,
            i64::MIN <= self.y - rhs.y <= i64::MAX,
            i64::MIN <= self.z - rhs.z <= i64::MAX,
        ensures
            r.x == self.x - rhs.x,
            r.y == self.y - rhs.y,
            r.z == self.z - rhs.z,
    {
        Vector3 { x: self.x - rhs.x, y: self.y - rhs.y, z: self.z - rhs.z }
    }

    /// Move the point against a vector.
    pub fn sub_vector(&self, rhs: &Vector3) -> (r: Point3)
        requires
            i64::MIN <= self.x - rhs.x <= i64::MAX,
            i64::MIN <= self.y - rhs.y <= i64::MAX,
            i64::MIN <= self.z - rhs.z <= i64::MAX,
        ensures
            r.x == self.x - rhs.x,
            r.y == self.y - rhs.y,
            r.z == self.z - rhs.z,
    {
        Point3 { x: self.x - rhs.x, y: self.y - rhs.y, z: self.z - rhs.z }
    }

    pub fn as_Vector3(&self) -> (r: Vector3)
        ensures
            r.x == self.x,
            r.y == self.y,
            r.z == self.z,
    {
        Vector3 { x: self.x, y: self.y, z: self.z }
    }

    /// The point read as a vector, as a spec value.
    pub open spec fn as_vec(self) -> Vector3 {
        Vector3 { x: self.x, y: self.y, z: self.z }
    }

    /// The componentwise minimum, as a spec value.
    pub open spec fn spec_min(self, b: Point3) -> Point3 {
        Point3 {
            x: (if self.x <= b.x { self.x } else { b.x }),
            y: (if self.y <= b.y { self.y } else { b.y }),
            z: (if self.z <= b.z { self.z } else { b.z }),
        }
    }

    /// The componentwise maximum, as a spec value.
    pub open spec fn spec_max(self, b: Point3) -> Point3 {
        Point3 {
            x: (if self.x >= b.x { self.x } else { b.x }),
            y: (if self.y >= b.y { self.y } else { b.y }),
            z: (if self.z >= b.z { self.z } else { b.z }),
        }
    }

    /// The components rearranged by three axis indices.
    pub fn permute(&self, ix: usize, iy: usize, iz: usize) -> (r: Point3)
        requires
            ix <= 2,
            iy <= 2,
            iz <= 2,
        ensures
            r.x == self.spec_axis(ix as int),
            r.y == self.spec_axis(iy as int),
            r.z == self.spec_axis(iz as int),
    {
        Point3 { x: self.axis(ix), y: self.axis(iy), z: self.axis(iz) }
    }

    /// The component on an axis, as a spec value.
    pub open spec fn spec_axis(self, a: int) -> i64 {
        if a == 0 {
            self.x
        } else if a == 1 {
            self.y
        } else {
            self.z
        }
    }

    /// The component on an axis.
    pub fn axis(&self, a: usize) -> (r: i64)
        requires
            a <= 2,
        ensures
            r == self.spec_axis(a as int),
    {
        if a == 0 {
            self.x
        } else if a == 1 {
            self.y
        } else {
            self.z
        }
    }

    /// The componentwise magnitude.
    pub fn abs(&self) -> (r: Point3)
        requires
            self.x > i64::MIN,
            self.y > i64::MIN,
            self.z > i64::MIN,
        ensures
            r.x == crate::math::abs_i(self.x as int),
            r.y == crate::math::abs_i(self.y as int),
            r.z == crate::math::abs_i(self.z as int),
    {
        Point3 {
            x: if self.x < 0 { -self.x } else { self.x },
            y: if self.y < 0 { -self.y } else { self.y },
            z: if self.z < 0 { -self.z } else { self.z },
        }
    }

    /// Componentwise minimum.
    pub fn min(&self, b: &Point3) -> (r: Point3)
        ensures
            r.x == (if self.x <= b.x { self.x } else { b.x }),
            r.y == (if self.y <= b.y { self.y } else { b.y }),
            r.z == (if self.z <= b.z { self.z } else { b.z }),
    {
        Point3 {
            x: crate::math::min64(self.x, b.x),
            y: crate::math::min64(self.y, b.y),
            z: crate::math::min64(self.z, b.z),
        }
    }

    /// Componentwise maximum.
    pub fn max(&self, b: &Point3) -> (r: Point3)
        ensures
            r.x == (if self.x >= b.x { self.x } else { b.x }),
            r.y == (if self.y >= b.y { self.y } else { b.y }),
            r.z == (if self.z >= b.z { self.z } else { b.z }),
    {
        Point3 {
            x: crate::math::max64(self.x, b.x),
            y: crate::math::max64(self.y, b.y),
            z: crate::math::max64(self.z, b.z),
        }
    }

    /// Fixed-point values are always finite, so there is never a NaN.
    pub fn has_nans(&self) -> (r: bool)
        ensures
            r == false,
    {
        false
    }
}

} // verus!
