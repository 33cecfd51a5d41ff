//! The pinhole camera.

use vstd::prelude::*;

use crate::math::SCALE;
use crate::point::Point3;
use crate::ray::Ray;
use crate::vector::Vector3;

verus! {

pub struct Camera {
    pub position: Point3,
    pub w: Vector3,
    pub u: Vector3,
    pub v: Vector3,
    pub res_x: usize,
    pub res_y: usize,
}

impl Camera {
    /// The basis vectors are unit-sized, nonzero and usable, and the
    /// resolution is moderate.
    pub open spec fn wf(self) -> bool {
        &&& self.position.wf()
        &&& unit_sized(self.w)
        &&& unit_sized(self.u)
        &&& unit_sized(self.v)
        &&& 2 <= self.res_x <= 16384
        &&& 2 <= self.res_y <= 16384
    }

    /// A camera looking from `position` toward `look_at`, with `v_up`
    /// selecting the image plane orientation. The field-of-view and
    /// aspect-ratio arguments are accepted for the construction call's
    /// shape but do not influence the basis: ray generation scales the
    /// image-plane basis vectors by the resolution alone.
    pub fn new(
        position: Point3,
        look_at: Point3,
        v_up: Vector3,
        _vfov: i64,
        _aspect_ratio: i64,
        res_x: usize,
        res_y: usize,
    ) -> (r: Camera)
        requires
            position.wf(),
            look_at.wf(),
            v_up.wf(),
            !(look_at.x == position.x && look_at.y == position.y && look_at.z == position.z),
            2 <= res_x <= 16384,
            2 <= res_y <= 16384,
        ensures
            r.position == position,
            r.res_x == res_x,
            r.res_y == res_y,
            r.wf(),
    {
        let dir = look_at.sub_point(&position);
        let w = dir.normalize();
        let uc = v_up.cross(&w);
        let u = if uc.x == 0 && uc.y == 0 && uc.z == 0 {
            fallback_axis(&w)
        } else {
            proof {
                lemma_cross_bound(v_up, w);
            }
            uc.normalize()
        };
        proof {
            lemma_cross_bound(w, u);
        }
        let vc = w.cross(&u);
        let v = if vc.x == 0 && vc.y == 0 && vc.z == 0 {
            fallback_axis(&w)
        } else {
            vc.normalize()
        };
        Camera { position, w, u, v, res_x, res_y }
    }

    /// The ray through normalized image coordinates `(u, v)`, both in
    /// fixed-point `[0, 1]`: the coordinates are recentered to `[-1, 1]`,
    /// scaled by the resolution, combined with the basis vectors, and
    /// normalized.
    pub fn generate_ray(&self, u: i64, v: i64) -> (r: Ray)
        requires
            self.wf(),
            0 <= u <= SCALE,
            0 <= v <= SCALE,
        ensures
            r.origin == self.position,
            r.direction == spec_generate_direction(*self, u as int, v as int),
            r.wf(),
            -SCALE <= r.direction.x <= SCALE,
            -SCALE <= r.direction.y <= SCALE,
            -SCALE <= r.direction.z <= SCALE,
            !(r.direction.x == 0 && r.direction.y == 0 && r.direction.z == 0),
    {
        let x = (u - SCALE / 2) * 2;
        let y = (v - SCALE / 2) * 2;
        proof {
            crate::math::lemma_mul_magnitude(x as int, self.res_x as int, SCALE as int, 16384);
            crate::math::lemma_mul_magnitude(y as int, self.res_y as int, SCALE as int, 16384);
            lemma_basis_scale_bounds();
        }
        let sx = x * (self.res_x as i64);
        let sy = y * (self.res_y as i64);
        let du = self.u.scale(sx);
        let dv = self.v.scale(sy);
        let direction = Vector3 {
            x: du.x + dv.x + self.w.x,
            y: du.y + dv.y + self.w.y,
            z: du.z + dv.z + self.w.z,
        };
        let direction = if direction.x == 0 && direction.y == 0 && direction.z == 0 {
            self.w
        } else {
            direction
        };
        Ray::new(self.position, direction)
    }
}


/// The direction `generate_ray` produces: the recentered, resolution-scaled
/// image coordinates along the two image-plane basis vectors plus the view
/// vector, normalized. A degenerate combination falls back to the view
/// vector.
pub open spec fn spec_generate_direction(cam: Camera, u: int, v: int) -> Vector3 {
    let x = (u - (SCALE as int) / 2) * 2;
    let y = (v - (SCALE as int) / 2) * 2;
    let sx = x * (cam.res_x as int);
    let sy = y * (cam.res_y as int);
    let combo = Vector3 {
        x: (crate::math::floor_div((cam.u.x as int) * sx, SCALE as int) + crate::math::floor_div(
            (cam.v.x as int) * sy,
            SCALE as int,
        ) + cam.w.x) as i64,
        y: (crate::math::floor_div((cam.u.y as int) * sx, SCALE as int) + crate::math::floor_div(
            (cam.v.y as int) * sy,
            SCALE as int,
        ) + cam.w.y) as i64,
        z: (crate::math::floor_div((cam.u.z as int) * sx, SCALE as int) + crate::math::floor_div(
            (cam.v.z as int) * sy,
            SCALE as int,
        ) + cam.w.z) as i64,
    };
    if combo.x == 0 && combo.y == 0 && combo.z == 0 {
        cam.w.spec_normalize()
    } else {
        combo.spec_normalize()
    }
}

/// A vector whose components are within one unit and not all zero.
pub open spec fn unit_sized(v: Vector3) -> bool {
    -SCALE <= v.x <= SCALE && -SCALE <= v.y <= SCALE && -SCALE <= v.z <= SCALE && !(v.x == 0 && v.y
        == 0 && v.z == 0)
}

/// A unit-sized stand-in axis for a degenerate basis construction.
fn fallback_axis(_w: &Vector3) -> (r: Vector3)
    ensures
        unit_sized(r),
{
    Vector3 { x: 0, y: SCALE, z: 0 }
}

/// Cross products of coordinate-range vectors fit the normalization input
/// range.
proof fn lemma_cross_bound(a: Vector3, b: Vector3)
    requires
        -0x400_0000 <= a.x <= 0x400_0000,
        -0x400_0000 <= a.y <= 0x400_0000,
        -0x400_0000 <= a.z <= 0x400_0000,
        -0x400_0000 <= b.x <= 0x400_0000,
        -0x400_0000 <= b.y <= 0x400_0000,
        -0x400_0000 <= b.z <= 0x400_0000,
    ensures
        forall|p: int, q: int|
            -0x400_0000 <= p <= 0x400_0000 && -0x400_0000 <= q <= 0x400_0000 ==> crate::math::abs_i(
                #[trigger] (p * q),
            ) <= 0x10_0000_0000_0000,
{
    assert forall|p: int, q: int|
        -0x400_0000 <= p <= 0x400_0000 && -0x400_0000 <= q
            <= 0x400_0000 implies crate::math::abs_i(#[trigger] (p * q)) <= 0x10_0000_0000_0000 by {
        crate::math::lemma_mul_magnitude(p, q, 0x400_0000, 0x400_0000);
    }
}

/// Scaling a unit-sized basis vector by a screen-scaled coordinate stays in
/// the coordinate range.
proof fn lemma_basis_scale_bounds()
    ensures
        forall|c: int, s: int|
            -SCALE <= c <= SCALE as int && -0x4000_0000 <= s <= 0x4000_0000
                ==> crate::math::abs_i(#[trigger] crate::math::floor_div(c * s, SCALE as int))
                <= 0x4000_0000,
{
    assert forall|c: int, s: int|
        -SCALE <= c <= SCALE as int && -0x4000_0000 <= s <= 0x4000_0000 implies crate::math::abs_i(
        #[trigger] crate::math::floor_div(c * s, SCALE as int),
    ) <= 0x4000_0000 by {
        crate::math::lemma_mul_magnitude(c, s, SCALE as int, 0x4000_0000);
        crate::math::lemma_floor_div_quotient_bound(c * s, SCALE as int, 0x4000_0000);
    }
}

} // verus!
