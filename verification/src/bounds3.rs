//! Axis-aligned boxes with the full set of box operations.

use vstd::prelude::*;

use crate::math::{floor_div, SCALE};
use crate::point::Point3;
use crate::vector::Vector3;

verus! {

#[derive(Clone, Copy, PartialEq, Eq, Structural, Debug)]
pub struct Bounds3 {
    pub p_min: Point3,
    pub p_max: Point3,
}

/// The smaller of two values.
pub open spec fn imin(a: int, b: int) -> int {
    if a <= b {
        a
    } else {
        b
    }
}

/// The larger of two values.
pub open spec fn imax(a: int, b: int) -> int {
    if a >= b {
        a
    } else {
        b
    }
}

impl Bounds3 {
    /// Corner coordinates within range and ordered.
    pub open spec fn wf(self) -> bool {
        self.p_min.wf() && self.p_max.wf() && self.p_min.x <= self.p_max.x && self.p_min.y
            <= self.p_max.y && self.p_min.z <= self.p_max.z
    }

    /// The box spanned by two points, ordered componentwise.
    pub fn new(point1: &Point3, point2: &Point3) -> (r: Self)
        requires
            point1.wf(),
            point2.wf(),
        ensures
            r.p_min.x == imin(point1.x as int, point2.x as int),
            r.p_min.y == imin(point1.y as int, point2.y as int),
            r.p_min.z == imin(point1.z as int, point2.z as int),
            r.p_max.x == imax(point1.x as int, point2.x as int),
            r.p_max.y == imax(point1.y as int, point2.y as int),
            r.p_max.z == imax(point1.z as int, point2.z as int),
            r.wf(),
    {
        Bounds3 { p_min: point1.min(point2), p_max: point1.max(point2) }
    }

    /// The extent along each axis.
    pub fn diagonal(&self) -> (r: Vector3)
        requires
            self.wf(),
        ensures
            r.x == self.p_max.x - self.p_min.x,
            r.y == self.p_max.y - self.p_min.y,
            r.z == self.p_max.z - self.p_min.z,
    {
        self.p_max.sub_point(&self.p_min)
    }

    /// Twice the sum of the pairwise face areas (a fixed-point area carries
    /// one scale factor after each product).
    pub fn surface_area(&self) -> (r: i64)
        requires
            self.wf(),
        ensures
            ({
                let dx = self.p_max.x - self.p_min.x;
                let dy = self.p_max.y - self.p_min.y;
                let dz = self.p_max.z - self.p_min.z;
                r == 2 * (floor_div(dx * dy, SCALE as int) + floor_div(dx * dz, SCALE as int)
                    + floor_div(dy * dz, SCALE as int))
            }),
    {
        let diag = self.diagonal();
        proof {
            lemma_extent_products();
        }
        let xy = crate::math::fp_mul(diag.x, diag.y);
        let xz = crate::math::fp_mul(diag.x, diag.z);
        let yz = crate::math::fp_mul(diag.y, diag.z);
        2 * (xy + xz + yz)
    }

    /// The product of the three extents (two scale factors divided away).
    pub fn volume(&self) -> (r: i64)
        requires
            self.wf(),
        ensures
            ({
                let dx = self.p_max.x - self.p_min.x;
                let dy = self.p_max.y - self.p_min.y;
                let dz = self.p_max.z - self.p_min.z;
                r == floor_div(floor_div(dx * dy, SCALE as int) * dz, SCALE as int)
            }),
    {
        let diag = self.diagonal();
        proof {
            lemma_extent_products();
        }
        let xy = crate::math::fp_mul(diag.x, diag.y);
        proof {
            crate::math::lemma_mul_magnitude(xy as int, diag.z as int, 0x40_0000_0000, 0x800_0000);
            crate::math::lemma_floor_div_quotient_bound(
                (xy as int) * (diag.z as int),
                SCALE as int,
                0x2_0000_0000_0000,
            );
        }
        crate::math::fp_mul(xy, diag.z)
    }

    /// The axis of greatest extent: x before y before z on ties.
    pub fn maximum_extent(&self) -> (r: usize)
        requires
            self.wf(),
        ensures
            ({
                let dx = self.p_max.x - self.p_min.x;
                let dy = self.p_max.y - self.p_min.y;
                let dz = self.p_max.z - self.p_min.z;
                r == (if dx > dy {
                    if dx > dz {
                        0int
                    } else {
                        2int
                    }
                } else {
                    if dy > dz {
                        1int
                    } else {
                        2int
                    }
                })
            }),
    {
        let diag = self.diagonal();
        if diag.x > diag.y {
            if diag.x > diag.z {
                0
            } else {
                2
            }
        } else {
            if diag.y > diag.z {
                1
            } else {
                2
            }
        }
    }

    /// The position of a point within the box, each axis rescaled into
    /// `[0, 1]` where the box has positive extent.
    pub fn offset(&self, point: &Point3) -> (r: Vector3)
        requires
            self.wf(),
            point.wf(),
        ensures
            r.x == spec_offset_axis(
                point.x as int,
                self.p_min.x as int,
                self.p_max.x as int,
            ),
            r.y == spec_offset_axis(
                point.y as int,
                self.p_min.y as int,
                self.p_max.y as int,
            ),
            r.z == spec_offset_axis(
                point.z as int,
                self.p_min.z as int,
                self.p_max.z as int,
            ),
    {
        let x = offset_axis(point.x, self.p_min.x, self.p_max.x);
        let y = offset_axis(point.y, self.p_min.y, self.p_max.y);
        let z = offset_axis(point.z, self.p_min.z, self.p_max.z);
        Vector3 { x, y, z }
    }

    /// The point at componentwise interpolation weights `p` between the two
    /// corners.
    pub fn lerp(&self, p: &Point3) -> (r: Point3)
        requires
            self.wf(),
            0 <= p.x <= SCALE,
            0 <= p.y <= SCALE,
            0 <= p.z <= SCALE,
        ensures
            r.x == floor_div((self.p_min.x as int) * ((SCALE as int) - p.x), SCALE as int)
                + floor_div((self.p_max.x as int) * (p.x as int), SCALE as int),
            r.y == floor_div((self.p_min.y as int) * ((SCALE as int) - p.y), SCALE as int)
                + floor_div((self.p_max.y as int) * (p.y as int), SCALE as int),
            r.z == floor_div((self.p_min.z as int) * ((SCALE as int) - p.z), SCALE as int)
                + floor_div((self.p_max.z as int) * (p.z as int), SCALE as int),
    {
        proof {
            lemma_lerp_bounds();
        }
        Point3 {
            x: crate::math::fp_mul(self.p_min.x, SCALE - p.x) + crate::math::fp_mul(
                self.p_max.x,
                p.x,
            ),
            y: crate::math::fp_mul(self.p_min.y, SCALE - p.y) + crate::math::fp_mul(
                self.p_max.y,
                p.y,
            ),
            z: crate::math::fp_mul(self.p_min.z, SCALE - p.z) + crate::math::fp_mul(
                self.p_max.z,
                p.z,
            ),
        }
    }

    /// Grow the box to include a point.
    pub fn union(&self, point: &Point3) -> (r: Self)
        requires
            self.wf(),
            point.wf(),
        ensures
            r.p_min == self.p_min.spec_min(*point),
            r.p_max == self.p_max.spec_max(*point),
            r.wf(),
    {
        Bounds3 { p_min: self.p_min.min(point), p_max: self.p_max.max(point) }
    }

    /// Grow the box to include another box.
    pub fn union_bounds(&self, other: &Bounds3) -> (r: Self)
        requires
            self.wf(),
            other.wf(),
        ensures
            r.p_min == self.p_min.spec_min(other.p_min),
            r.p_max == self.p_max.spec_max(other.p_max),
            r.wf(),
    {
        Bounds3 { p_min: self.p_min.min(&other.p_min), p_max: self.p_max.max(&other.p_max) }
    }

    /// The componentwise intersection of two boxes (possibly inverted when
    /// they do not overlap, exactly as the corner arithmetic gives it).
    pub fn intersection(&self, other: &Bounds3) -> (r: Self)
        requires
            self.wf(),
            other.wf(),
        ensures
            r.p_min == self.p_min.spec_max(other.p_min),
            r.p_max == self.p_max.spec_min(other.p_max),
    {
        Bounds3 { p_min: self.p_min.max(&other.p_min), p_max: self.p_max.min(&other.p_max) }
    }

    /// Whether two boxes overlap on every axis.
    pub fn overlaps(&self, other: &Bounds3) -> (r: bool)
        requires
            self.wf(),
            other.wf(),
        ensures
            r == (self.p_max.x >= other.p_min.x && self.p_min.x <= other.p_max.x && self.p_max.y
                >= other.p_min.y && self.p_min.y <= other.p_max.y && self.p_max.z >= other.p_min.z
                && self.p_min.z <= other.p_max.z),
    {
        let x = self.p_max.x >= other.p_min.x && self.p_min.x <= other.p_max.x;
        let y = self.p_max.y >= other.p_min.y && self.p_min.y <= other.p_max.y;
        let z = self.p_max.z >= other.p_min.z && self.p_min.z <= other.p_max.z;
        x && y && z
    }

    /// Whether a point lies inside the box, boundary included.
    pub fn point_inside(&self, point: &Point3) -> (r: bool)
        requires
            self.wf(),
            point.wf(),
        ensures
            r == (self.p_min.x <= point.x <= self.p_max.x && self.p_min.y <= point.y <= self.p_max.y
                && self.p_min.z <= point.z <= self.p_max.z),
    {
        point.x >= self.p_min.x && point.x <= self.p_max.x && point.y >= self.p_min.y && point.y
            <= self.p_max.y && point.z >= self.p_min.z && point.z <= self.p_max.z
    }

    /// The box grown by `factor` in every direction.
    pub fn expand(&self, factor: i64) -> (r: Self)
        requires
            self.wf(),
            0 <= factor <= 0x100_0000,
        ensures
            r.p_min.x == self.p_min.x - factor,
            r.p_min.y == self.p_min.y - factor,
            r.p_min.z == self.p_min.z - factor,
            r.p_max.x == self.p_max.x + factor,
            r.p_max.y == self.p_max.y + factor,
            r.p_max.z == self.p_max.z + factor,
    {
        Bounds3 {
            p_min: Point3 {
                x: self.p_min.x - factor,
                y: self.p_min.y - factor,
                z: self.p_min.z - factor,
            },
            p_max: Point3 {
                x: self.p_max.x + factor,
                y: self.p_max.y + factor,
                z: self.p_max.z + factor,
            },
        }
    }

    /// One of the eight corners, selected by the bits of `index`.
    pub fn corner(&self, index: usize) -> (r: Point3)
        requires
            index < 8,
        ensures
            r.x == (if index % 2 == 0 {
                self.p_min.x
            } else {
                self.p_max.x
            }),
            r.y == (if (index / 2) % 2 == 0 {
                self.p_min.y
            } else {
                self.p_max.y
            }),
            r.z == (if index / 4 == 0 {
                self.p_min.z
            } else {
                self.p_max.z
            }),
    {
        proof {
            assert(index & 1 == index % 2 && (index & 2 == 0) == ((index / 2) % 2 == 0) && (index
                & 4 == 0) == (index / 4 == 0)) by (bit_vector)
                requires index < 8;
        }
        Point3 {
            x: if index & 1 == 0 {
                self.p_min.x
            } else {
                self.p_max.x
            },
            y: if index & 2 == 0 {
                self.p_min.y
            } else {
                self.p_max.y
            },
            z: if index & 4 == 0 {
                self.p_min.z
            } else {
                self.p_max.z
            },
        }
    }
}

/// One axis of `offset`: the point's position rescaled by the extent when
/// the extent is positive, the raw difference otherwise.
pub open spec fn spec_offset_axis(p: int, mn: int, mx: int) -> int {
    if mx > mn {
        floor_div((p - mn) * (SCALE as int), mx - mn)
    } else {
        p - mn
    }
}

/// Executable form of `spec_offset_axis`.
fn offset_axis(p: i64, mn: i64, mx: i64) -> (r: i64)
    requires
        -0x400_0000 <= p <= 0x400_0000,
        -0x400_0000 <= mn <= 0x400_0000,
        -0x400_0000 <= mx <= 0x400_0000,
    ensures
        r == spec_offset_axis(p as int, mn as int, mx as int),
{
    if mx > mn {
        proof {
            crate::math::lemma_mul_magnitude(
                (p - mn) as int,
                SCALE as int,
                0x800_0000,
                SCALE as int,
            );
            crate::math::lemma_floor_div_quotient_bound(
                ((p - mn) as int) * (SCALE as int),
                (mx - mn) as int,
                0x800_0000_0000,
            );
        }
        crate::math::div_floor_i128(
            ((p - mn) as i128) * (SCALE as i128),
            (mx - mn) as i128,
        ) as i64
    } else {
        p - mn
    }
}

/// Products of box extents stay within the fixed-point product range.
proof fn lemma_extent_products()
    ensures
        forall|a: int, b: int|
            -0x800_0000 <= a <= 0x800_0000 && -0x800_0000 <= b <= 0x800_0000
                ==> crate::math::abs_i(#[trigger] floor_div(a * b, SCALE as int))
                <= 0x40_0000_0000,
{
    assert forall|a: int, b: int|
        -0x800_0000 <= a <= 0x800_0000 && -0x800_0000 <= b <= 0x800_0000 implies crate::math::abs_i(
        #[trigger] floor_div(a * b, SCALE as int),
    ) <= 0x40_0000_0000 by {
        crate::math::lemma_mul_magnitude(a, b, 0x800_0000, 0x800_0000);
        crate::math::lemma_floor_div_quotient_bound(a * b, SCALE as int, 0x40_0000_0000);
    }
}

/// Interpolation terms of box corners stay within the coordinate range.
proof fn lemma_lerp_bounds()
    ensures
        forall|c: int, w: int|
            -0x400_0000 <= c <= 0x400_0000 && 0 <= w <= SCALE as int ==> crate::math::abs_i(
                #[trigger] floor_div(c * w, SCALE as int),
            ) <= 0x400_0000,
{
    assert forall|c: int, w: int|
        -0x400_0000 <= c <= 0x400_0000 && 0 <= w <= SCALE as int implies crate::math::abs_i(
        #[trigger] floor_div(c * w, SCALE as int),
    ) <= 0x400_0000 by {
        crate::math::lemma_mul_magnitude(c, w, 0x400_0000, SCALE as int);
        crate::math::lemma_floor_div_quotient_bound(c * w, SCALE as int, 0x400_0000);
    }
}

} // verus!
