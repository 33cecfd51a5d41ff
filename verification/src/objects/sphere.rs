//! Spheres and their exact intersection routine.

use vstd::prelude::*;

use crate::bvh::{ray_param_in_box, BoundingVolume};
use crate::material::Material;
use crate::math::{floor_div, spec_isqrt, t_in_bounds, SCALE};
use crate::objects::{in_open, lemma_guard_point_bounds, lemma_i64_products_fit_i128,
    param_in_box_exec};
use crate::point::Point3;
use crate::ray::{spec_ray_at, HitRecord, Ray};
use crate::vector::{spec_dot, Vector3};

verus! {

/// Largest magnitude of a sphere center coordinate or radius, chosen so the
/// bounding box and rounded hit points stay within the coordinate range.
pub const SPHERE_COORD_MAX: i64 = 0x1FF_0000;

#[derive(Clone, Copy, Debug)]
pub struct Sphere {
    pub center: Point3,
    pub radius: i64,
    pub material: Material,
}

impl Sphere {
    /// Center and radius small enough that the bounding box is a legal box.
    pub open spec fn wf(self) -> bool {
        -SPHERE_COORD_MAX <= self.center.x <= SPHERE_COORD_MAX && -SPHERE_COORD_MAX <= self.center.y
            <= SPHERE_COORD_MAX && -SPHERE_COORD_MAX <= self.center.z <= SPHERE_COORD_MAX && 1
            <= self.radius <= SPHERE_COORD_MAX && self.material.wf()
    }

    pub fn new(center: Point3, radius: i64, material: &Material) -> (r: Self)
        requires
            -SPHERE_COORD_MAX <= center.x <= SPHERE_COORD_MAX,
            -SPHERE_COORD_MAX <= center.y <= SPHERE_COORD_MAX,
            -SPHERE_COORD_MAX <= center.z <= SPHERE_COORD_MAX,
            1 <= radius <= SPHERE_COORD_MAX,
            material.wf(),
        ensures
            r.center == center,
            r.radius == radius,
            r.material == *material,
            r.wf(),
    {
        Sphere { center, radius, material: *material }
    }

    /// The box spanned by center plus and minus the radius.
    pub open spec fn spec_bounding_volume(self) -> BoundingVolume {
        BoundingVolume {
            min: Point3 {
                x: (self.center.x - self.radius) as i64,
                y: (self.center.y - self.radius) as i64,
                z: (self.center.z - self.radius) as i64,
            },
            max: Point3 {
                x: (self.center.x + self.radius) as i64,
                y: (self.center.y + self.radius) as i64,
                z: (self.center.z + self.radius) as i64,
            },
        }
    }

    pub fn get_bounding_volume(&self) -> (r: BoundingVolume)
        requires
            self.wf(),
        ensures
            r == self.spec_bounding_volume(),
            r.wf(),
    {
        BoundingVolume {
            min: Point3 {
                x: self.center.x - self.radius,
                y: self.center.y - self.radius,
                z: self.center.z - self.radius,
            },
            max: Point3 {
                x: self.center.x + self.radius,
                y: self.center.y + self.radius,
                z: self.center.z + self.radius,
            },
        }
    }

    pub fn get_position(&self) -> (r: Point3)
        ensures
            r == self.center,
    {
        self.center
    }

    pub fn get_material(&self) -> (r: Material)
        ensures
            r == self.material,
    {
        self.material
    }

    /// The quadratic solution of the intersection, mirrored exactly by the
    /// executable routine: the closer root is preferred, each root is taken
    /// only strictly inside `(t0, t1)`, and a candidate is accepted only if
    /// its exact point lies within the bounding box and the rounded surface
    /// normal is nonzero.
    ///
    /// The two guards narrow the plain root-in-range acceptance rule: a root
    /// whose exact on-ray point falls outside the bounding box after the
    /// parameter was rounded down, or whose rounded normal vanishes, is
    /// reported as a miss. Such near-tangent grazes sit within one
    /// fixed-point unit of the surface; rejecting them is what makes the
    /// hierarchy's box pruning provably sound under rounding.
    pub open spec fn spec_hit(self, ray: Ray, t0: int, t1: int) -> Option<HitRecord> {
        let ocx = ray.origin.x - self.center.x;
        let ocy = ray.origin.y - self.center.y;
        let ocz = ray.origin.z - self.center.z;
        let dx = ray.direction.x as int;
        let dy = ray.direction.y as int;
        let dz = ray.direction.z as int;
        let a = dx * dx + dy * dy + dz * dz;
        let b = 2 * (ocx * dx + ocy * dy + ocz * dz);
        let c = ocx * ocx + ocy * ocy + ocz * ocz - (self.radius as int) * (self.radius as int);
        if a == 0 {
            None
        } else {
            let disc = b * b - 4 * (a * c);
            if disc < 0 {
                None
            } else {
                let q = spec_isqrt(disc);
                let t_near = floor_div((SCALE as int) * (-b - q), 2 * a);
                let t_far = floor_div((SCALE as int) * (-b + q), 2 * a);
                if in_open(t_near, t0, t1) {
                    self.spec_hit_at(ray, t_near)
                } else if in_open(t_far, t0, t1) {
                    self.spec_hit_at(ray, t_far)
                } else {
                    None
                }
            }
        }
    }

    /// The record produced for an accepted parameter, or nothing when the
    /// guard rejects it.
    pub open spec fn spec_hit_at(self, ray: Ray, t: int) -> Option<HitRecord> {
        if !ray_param_in_box(self.spec_bounding_volume(), ray, t, SCALE as int) {
            None
        } else {
            let p = spec_ray_at(ray, t);
            let n = Vector3 {
                x: floor_div((SCALE as int) * (p.x - self.center.x), self.radius as int) as i64,
                y: floor_div((SCALE as int) * (p.y - self.center.y), self.radius as int) as i64,
                z: floor_div((SCALE as int) * (p.z - self.center.z), self.radius as int) as i64,
            };
            if n.x == 0 && n.y == 0 && n.z == 0 {
                None
            } else {
                let front = spec_dot(ray.direction, n) < 0;
                Some(
                    HitRecord {
                        t: t as i64,
                        point: p,
                        normal: (if front {
                            n
                        } else {
                            Vector3 { x: (-n.x) as i64, y: (-n.y) as i64, z: (-n.z) as i64 }
                        }),
                        front_face: front,
                        material: Some(self.material),
                    },
                )
            }
        }
    }

    /// Solve the intersection quadratic and fill `record` with the closest
    /// acceptable root.
    pub fn intersect(&self, ray: &Ray, t_min: i64, t_max: i64, record: &mut HitRecord) -> (r: bool)
        requires
            self.wf(),
            ray.wf(),
            t_in_bounds(t_min as int),
            t_in_bounds(t_max as int),
        ensures
            r == (self.spec_hit(*ray, t_min as int, t_max as int) is Some),
            r ==> Some(*final(record)) == self.spec_hit(*ray, t_min as int, t_max as int)
                && final(record).wf(),
            !r ==> *final(record) == *old(record),
    {
        proof {
            lemma_i64_products_fit_i128();
        }
        let ocx = ray.origin.x as i128 - self.center.x as i128;
        let ocy = ray.origin.y as i128 - self.center.y as i128;
        let ocz = ray.origin.z as i128 - self.center.z as i128;
        let dx = ray.direction.x as i128;
        let dy = ray.direction.y as i128;
        let dz = ray.direction.z as i128;
        proof {
            crate::math::lemma_mul_magnitude(ocx as int, dx as int, 0x800_0000, 0x400_0000);
            crate::math::lemma_mul_magnitude(ocy as int, dy as int, 0x800_0000, 0x400_0000);
            crate::math::lemma_mul_magnitude(ocz as int, dz as int, 0x800_0000, 0x400_0000);
            crate::math::lemma_mul_magnitude(ocx as int, ocx as int, 0x800_0000, 0x800_0000);
            crate::math::lemma_mul_magnitude(ocy as int, ocy as int, 0x800_0000, 0x800_0000);
            crate::math::lemma_mul_magnitude(ocz as int, ocz as int, 0x800_0000, 0x800_0000);
            crate::math::lemma_mul_magnitude(dx as int, dx as int, 0x400_0000, 0x400_0000);
            crate::math::lemma_mul_magnitude(dy as int, dy as int, 0x400_0000, 0x400_0000);
            crate::math::lemma_mul_magnitude(dz as int, dz as int, 0x400_0000, 0x400_0000);
            crate::math::lemma_mul_magnitude(
                self.radius as int,
                self.radius as int,
                0x200_0000,
                0x200_0000,
            );
            assert((dx * dx >= 0 && dy * dy >= 0 && dz * dz >= 0 && ocx * ocx >= 0 && ocy * ocy
                >= 0 && ocz * ocz >= 0 && (self.radius as int) * (self.radius as int) >= 0))
                by (nonlinear_arith);
        }
        let a = dx * dx + dy * dy + dz * dz;
        if a == 0 {
            return false;
        }
        let b = 2 * (ocx * dx + ocy * dy + ocz * dz);
        let c = ocx * ocx + ocy * ocy + ocz * ocz - (self.radius as i128) * (self.radius as i128);
        proof {
            crate::math::lemma_mul_magnitude(b as int, b as int, 0x100_0000_0000_0000, 0x100_0000_0000_0000);
            crate::math::lemma_mul_magnitude(a as int, c as int, 0x100_0000_0000_0000, 0x400_0000_0000_0000);
        }
        let disc = b * b - 4 * (a * c);
        if disc < 0 {
            return false;
        }
        let q = crate::math::isqrt_u128(disc as u128) as i128;
        proof {
            crate::math::lemma_isqrt_is(q as int, disc as int);
            assert(q * q <= disc as int) by (nonlinear_arith)
                requires crate::math::sq(q as int) <= disc as int;
            assert(q <= 0x1000_0000_0000_0000) by (nonlinear_arith)
                requires
                    q * q <= disc as int,
                    disc <= 0x20_0000_0000_0000_0000_0000_0000_0000,
                    q >= 0;
            crate::math::lemma_mul_magnitude(
                SCALE as int,
                (-b - q) as int,
                SCALE as int,
                0x2000_0000_0000_0000,
            );
            crate::math::lemma_mul_magnitude(
                SCALE as int,
                (-b + q) as int,
                SCALE as int,
                0x2000_0000_0000_0000,
            );
        }
        let t_near = crate::math::div_floor_i128((SCALE as i128) * (-b - q), 2 * a);
        let t_far = crate::math::div_floor_i128((SCALE as i128) * (-b + q), 2 * a);
        let t0 = t_min as i128;
        let t1 = t_max as i128;
        if t0 < t_near && t_near < t1 {
            self.try_hit_at(ray, t_near as i64, record)
        } else if t0 < t_far && t_far < t1 {
            self.try_hit_at(ray, t_far as i64, record)
        } else {
            false
        }
    }

    /// Apply the guard at a candidate parameter and fill the record.
    fn try_hit_at(&self, ray: &Ray, t: i64, record: &mut HitRecord) -> (r: bool)
        requires
            self.wf(),
            ray.wf(),
            t_in_bounds(t as int),
        ensures
            r == (self.spec_hit_at(*ray, t as int) is Some),
            r ==> Some(*final(record)) == self.spec_hit_at(*ray, t as int) && final(record).wf(),
            !r ==> *final(record) == *old(record),
    {
        let bv = self.get_bounding_volume();
        if !param_in_box_exec(&bv, ray, t) {
            return false;
        }
        let p = ray.at(t);
        proof {
            lemma_guard_point_bounds(
                bv.min.x as int,
                bv.max.x as int,
                ray.origin.x as int,
                ray.direction.x as int,
                t as int,
            );
            lemma_guard_point_bounds(
                bv.min.y as int,
                bv.max.y as int,
                ray.origin.y as int,
                ray.direction.y as int,
                t as int,
            );
            lemma_guard_point_bounds(
                bv.min.z as int,
                bv.max.z as int,
                ray.origin.z as int,
                ray.direction.z as int,
                t as int,
            );
            lemma_i64_products_fit_i128();
            lemma_normal_bounds(self.radius as int, self.center.x as int, p.x as int);
            lemma_normal_bounds(self.radius as int, self.center.y as int, p.y as int);
            lemma_normal_bounds(self.radius as int, self.center.z as int, p.z as int);
        }
        let nx = crate::math::div_floor_i128(
            (SCALE as i128) * ((p.x - self.center.x) as i128),
            self.radius as i128,
        ) as i64;
        let ny = crate::math::div_floor_i128(
            (SCALE as i128) * ((p.y - self.center.y) as i128),
            self.radius as i128,
        ) as i64;
        let nz = crate::math::div_floor_i128(
            (SCALE as i128) * ((p.z - self.center.z) as i128),
            self.radius as i128,
        ) as i64;
        if nx == 0 && ny == 0 && nz == 0 {
            return false;
        }
        let outward = Vector3 { x: nx, y: ny, z: nz };
        record.t = t;
        record.point = p;
        record.material = Some(self.material);
        record.set_face_normal(ray, &outward);
        true
    }

    /// A pseudorandom point at (approximately) the surface of the sphere.
    pub fn random_point_on_surface<R: crate::prng::PRNG>(&self, rng: &mut R) -> (r: Point3)
        requires
            old(rng).inv(),
            self.wf(),
        ensures
            final(rng).inv(),
            -0x800_0000 <= r.x <= 0x800_0000,
            -0x800_0000 <= r.y <= 0x800_0000,
            -0x800_0000 <= r.z <= 0x800_0000,
    {
        crate::utils::random_vector_on_sphere(rng, self.center, self.radius)
    }
}

/// For a guarded hit point, the rounded inverse-radius normal components
/// stay within twice the unit length.
proof fn lemma_normal_bounds(r: int, c: int, p: int)
    requires
        1 <= r <= SPHERE_COORD_MAX as int,
        c - r - 1 <= p <= c + r,
    ensures
        -2 * (SCALE as int) <= floor_div((SCALE as int) * (p - c), r) <= 2 * (SCALE as int),
{
    let s = SCALE as int;
    vstd::arithmetic::div_mod::lemma_fundamental_div_mod(s * (p - c), r);
    assert(-2 * s <= floor_div(s * (p - c), r) <= 2 * s) by (nonlinear_arith)
        requires
            1 <= r,
            c - r - 1 <= p <= c + r,
            s == 65536,
            s * (p - c) == r * (s * (p - c) / r) + (s * (p - c)) % r,
            0 <= (s * (p - c)) % r < r,
            floor_div(s * (p - c), r) == s * (p - c) / r;
}

} // verus!
