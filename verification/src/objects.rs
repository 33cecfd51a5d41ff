//! The concrete geometric primitives.

use vstd::prelude::*;

pub mod sphere;
pub mod triangle;

verus! {

use crate::bvh::{axis_inside, ray_param_in_box, BoundingVolume};
use crate::math::{floor_div, SCALE};
use crate::ray::Ray;

/// An exclusive ray-parameter range check: `t0 < t < t1`.
pub open spec fn in_open(t: int, t0: int, t1: int) -> bool {
    t0 < t && t < t1
}

/// Whether the exact point of the ray at fixed-point parameter `t` lies in
/// the box.
pub fn param_in_box_exec(b: &BoundingVolume, ray: &Ray, t: i64) -> (r: bool)
    requires
        b.wf(),
        ray.wf(),
        crate::math::t_in_bounds(t as int),
    ensures
        r == ray_param_in_box(*b, *ray, t as int, SCALE as int),
{
    proof {
        lemma_i64_products_fit_i128();
    }
    let sx = (ray.origin.x as i128) * (SCALE as i128) + (t as i128) * (ray.direction.x as i128);
    let sy = (ray.origin.y as i128) * (SCALE as i128) + (t as i128) * (ray.direction.y as i128);
    let sz = (ray.origin.z as i128) * (SCALE as i128) + (t as i128) * (ray.direction.z as i128);
    (b.min.x as i128) * (SCALE as i128) <= sx && sx <= (b.max.x as i128) * (SCALE as i128) && (
    b.min.y as i128) * (SCALE as i128) <= sy && sy <= (b.max.y as i128) * (SCALE as i128) && (
    b.min.z as i128) * (SCALE as i128) <= sz && sz <= (b.max.z as i128) * (SCALE as i128)
}

/// Products of machine-word-sized factors stay far inside `i128`.
pub proof fn lemma_i64_products_fit_i128()
    ensures
        forall|a: int, b: int|
            -0x8000_0000_0000_0000 <= a <= 0x8000_0000_0000_0000 && -0x8000_0000_0000_0000 <= b
                <= 0x8000_0000_0000_0000 ==> -0x4000_0000_0000_0000_0000_0000_0000_0000
                <= #[trigger] (a * b) <= 0x4000_0000_0000_0000_0000_0000_0000_0000,
{
    assert forall|a: int, b: int|
        -0x8000_0000_0000_0000 <= a <= 0x8000_0000_0000_0000 && -0x8000_0000_0000_0000 <= b
            <= 0x8000_0000_0000_0000 implies -0x4000_0000_0000_0000_0000_0000_0000_0000
        <= #[trigger] (a * b) <= 0x4000_0000_0000_0000_0000_0000_0000_0000 by {
        crate::math::lemma_mul_magnitude(a, b, 0x8000_0000_0000_0000, 0x8000_0000_0000_0000);
    }
}

/// A point of the ray at a guarded parameter stays within one unit of the
/// guarding box, componentwise, after rounding.
pub proof fn lemma_guard_point_bounds(minv: int, maxv: int, o: int, d: int, t: int)
    requires
        axis_inside(minv, maxv, o, d, t, SCALE as int),
    ensures
        minv - 1 <= o + floor_div(t * d, SCALE as int) <= maxv,
{
    let s = SCALE as int;
    vstd::arithmetic::div_mod::lemma_fundamental_div_mod(t * d, s);
    assert(minv - 1 <= o + floor_div(t * d, s) <= maxv) by (nonlinear_arith)
        requires
            minv * s <= o * s + t * d <= maxv * s,
            s == 65536,
            t * d == s * (t * d / s) + (t * d) % s,
            0 <= (t * d) % s < s,
            floor_div(t * d, s) == t * d / s;
}

} // verus!
