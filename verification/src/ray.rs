//! Rays and intersection records.

use vstd::prelude::*;

use crate::material::Material;
use crate::math::{floor_div, t_in_bounds, SCALE};
use crate::point::Point3;
use crate::vector::{spec_dot, Vector3};

verus! {

#[derive(Clone, Copy, PartialEq, Eq, Structural, Debug)]
pub struct Ray {
    pub origin: Point3,
    pub direction: Vector3,
}

/// The point on the ray at fixed-point parameter `t`, with each component
/// rounded down.
pub open spec fn spec_ray_at(ray: Ray, t: int) -> Point3 {
    Point3 {
        x: (ray.origin.x + floor_div(t * ray.direction.x, SCALE as int)) as i64,
        y: (ray.origin.y + floor_div(t * ray.direction.y, SCALE as int)) as i64,
        z: (ray.origin.z + floor_div(t * ray.direction.z, SCALE as int)) as i64,
    }
}

impl Ray {
    /// Origin and direction are both within the coordinate range.
    pub open spec fn wf(self) -> bool {
        self.origin.wf() && self.direction.wf()
    }

    /// A ray through `origin`, with `direction` rescaled to unit length.
    pub fn new(origin: Point3, direction: Vector3) -> (r: Ray)
        requires
            origin.wf(),
            -0x80_0000_0000_0000 <= direction.x <= 0x80_0000_0000_0000,
            -0x80_0000_0000_0000 <= direction.y <= 0x80_0000_0000_0000,
            -0x80_0000_0000_0000 <= direction.z <= 0x80_0000_0000_0000,
            !(direction.x == 0 && direction.y == 0 && direction.z == 0),
        ensures
            r.origin == origin,
            r.direction == direction.spec_normalize(),
            r.wf(),
            -SCALE <= r.direction.x <= SCALE,
            -SCALE <= r.direction.y <= SCALE,
            -SCALE <= r.direction.z <= SCALE,
            !(r.direction.x == 0 && r.direction.y == 0 && r.direction.z == 0),
    {
        let dir = direction.normalize();
        Ray { origin, direction: dir }
    }

    /// The point reached after travelling `t` along the direction.
    pub fn at(&self, t: i64) -> (r: Point3)
        requires
            self.wf(),
            t_in_bounds(t as int),
        ensures
            r == spec_ray_at(*self, t as int),
    {
        proof {
            lemma_ray_at_bounds(*self, t as int);
        }
        let x = self.origin.x + crate::math::div_floor_i128(
            (t as i128) * (self.direction.x as i128),
            SCALE as i128,
        ) as i64;
        let y = self.origin.y + crate::math::div_floor_i128(
            (t as i128) * (self.direction.y as i128),
            SCALE as i128,
        ) as i64;
        let z = self.origin.z + crate::math::div_floor_i128(
            (t as i128) * (self.direction.z as i128),
            SCALE as i128,
        ) as i64;
        Point3 { x, y, z }
    }

    /// Fixed-point values are always finite, so there is never a NaN.
    pub fn has_nans(&self) -> (r: bool)
        ensures
            r == false,
    {
        false
    }
}

/// For a well-formed ray and an in-bounds parameter, the travelled offset
/// and the reached point stay far inside `i64`.
pub proof fn lemma_ray_at_bounds(ray: Ray, t: int)
    requires
        ray.wf(),
        t_in_bounds(t),
    ensures
        crate::math::abs_i(floor_div(t * ray.direction.x, SCALE as int)) <= 0x4000_0000_0000,
        crate::math::abs_i(floor_div(t * ray.direction.y, SCALE as int)) <= 0x4000_0000_0000,
        crate::math::abs_i(floor_div(t * ray.direction.z, SCALE as int)) <= 0x4000_0000_0000,
{
    crate::math::lemma_mul_magnitude(t, ray.direction.x as int, 0x10_0000_0000, 0x400_0000);
    crate::math::lemma_mul_magnitude(t, ray.direction.y as int, 0x10_0000_0000, 0x400_0000);
    crate::math::lemma_mul_magnitude(t, ray.direction.z as int, 0x10_0000_0000, 0x400_0000);
    crate::math::lemma_floor_div_quotient_bound(
        t * ray.direction.x,
        SCALE as int,
        0x4000_0000_0000,
    );
    crate::math::lemma_floor_div_quotient_bound(
        t * ray.direction.y,
        SCALE as int,
        0x4000_0000_0000,
    );
    crate::math::lemma_floor_div_quotient_bound(
        t * ray.direction.z,
        SCALE as int,
        0x4000_0000_0000,
    );
}

#[derive(Clone, Copy, PartialEq, Eq, Structural, Debug)]
pub struct HitRecord {
    pub t: i64,
    pub point: Point3,
    pub normal: Vector3,
    pub front_face: bool,
    pub material: Option<Material>,
}

impl HitRecord {
    /// A record an intersection routine may hand out: the parameter is in
    /// range, the point is near the scene, and the normal is a usable
    /// nonzero, moderately sized vector.
    pub open spec fn wf(self) -> bool {
        t_in_bounds(self.t as int) && self.point.wf() && -2 * SCALE <= self.normal.x <= 2 * SCALE
            && -2 * SCALE <= self.normal.y <= 2 * SCALE && -2 * SCALE <= self.normal.z <= 2 * SCALE
            && !(self.normal.x == 0 && self.normal.y == 0 && self.normal.z == 0)
    }

    /// An empty record, before any hit has been stored in it.
    pub fn new() -> (r: Self)
        ensures
            r.t == 0,
            r.point == (Point3 { x: 0i64, y: 0i64, z: 0i64 }),
            r.normal == (Vector3 { x: 0i64, y: 0i64, z: 0i64 }),
            r.front_face == false,
            r.material is None,
    {
        HitRecord {
            t: 0,
            point: Point3 { x: 0, y: 0, z: 0 },
            normal: Vector3 { x: 0, y: 0, z: 0 },
            front_face: false,
            material: None,
        }
    }

    /// Orient `outward_normal` against the ray: the stored normal points
    /// toward the ray origin side, and `front_face` says which side that is.
    pub fn set_face_normal(&mut self, ray: &Ray, outward_normal: &Vector3)
        requires
            ray.direction.op_bounded(),
            outward_normal.op_bounded(),
        ensures
            final(self).front_face == (spec_dot(ray.direction, *outward_normal) < 0),
            final(self).normal == (if spec_dot(ray.direction, *outward_normal) < 0 {
                *outward_normal
            } else {
                Vector3 {
                    x: (-outward_normal.x) as i64,
                    y: (-outward_normal.y) as i64,
                    z: (-outward_normal.z) as i64,
                }
            }),
            final(self).t == old(self).t,
            final(self).point == old(self).point,
            final(self).material == old(self).material,
    {
        let d = ray.direction.dot(outward_normal);
        self.front_face = d < 0;
        self.normal = if self.front_face {
            *outward_normal
        } else {
            outward_normal.neg()
        };
    }

    /// Copy every field of `record` into this one.
    pub fn copy_from(&mut self, record: &HitRecord)
        ensures
            *final(self) == *record,
    {
        self.t = record.t;
        self.point = record.point;
        self.normal = record.normal;
        self.front_face = record.front_face;
        self.material = record.material;
    }
}

} // verus!
