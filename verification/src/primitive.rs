//! The closed set of primitives and the laws every intersection routine
//! obeys.
//!
//! The primitive set is a tagged variant rather than a trait object; the hot
//! intersection dispatch is a match.

use vstd::prelude::*;

use crate::bvh::{ray_param_in_box, BoundingVolume};
use crate::material::Material;
use crate::math::{t_in_bounds, SCALE};
use crate::objects::in_open;
use crate::objects::sphere::Sphere;
use crate::objects::triangle::Triangle;
use crate::point::Point3;
use crate::ray::{HitRecord, Ray};

verus! {

#[derive(Clone, Copy, Debug)]
pub enum Primitive {
    Sphere(Sphere),
    Triangle(Triangle),
}

/// What the intersection routine of a primitive returns.
pub open spec fn prim_hit(p: Primitive, ray: Ray, t0: int, t1: int) -> Option<HitRecord> {
    match p {
        Primitive::Sphere(s) => s.spec_hit(ray, t0, t1),
        Primitive::Triangle(t) => t.spec_hit(ray, t0, t1),
    }
}

impl Primitive {
    pub open spec fn wf(self) -> bool {
        match self {
            Primitive::Sphere(s) => s.wf(),
            Primitive::Triangle(t) => t.wf(),
        }
    }

    /// The bounding box of the primitive.
    pub open spec fn spec_bounding_volume(self) -> BoundingVolume {
        match self {
            Primitive::Sphere(s) => s.spec_bounding_volume(),
            Primitive::Triangle(t) => t.spec_bounding_volume(),
        }
    }

    pub fn get_bounding_volume(&self) -> (r: BoundingVolume)
        requires
            self.wf(),
        ensures
            r == self.spec_bounding_volume(),
            r.wf(),
    {
        match self {
            Primitive::Sphere(s) => s.get_bounding_volume(),
            Primitive::Triangle(t) => t.get_bounding_volume(),
        }
    }

    pub fn get_position(&self) -> (r: Point3)
        ensures
            r == (match *self {
                Primitive::Sphere(s) => s.center,
                Primitive::Triangle(t) => t.center,
            }),
    {
        match self {
            Primitive::Sphere(s) => s.get_position(),
            Primitive::Triangle(t) => t.get_position(),
        }
    }

    pub fn get_material(&self) -> (r: Option<Material>)
        ensures
            r == (match *self {
                Primitive::Sphere(s) => Some(s.material),
                Primitive::Triangle(t) => t.material,
            }),
    {
        match self {
            Primitive::Sphere(s) => Some(s.get_material()),
            Primitive::Triangle(t) => t.get_material(),
        }
    }

    /// Intersect the ray with the primitive inside the open range
    /// `(t_min, t_max)`: the record is filled exactly when `prim_hit` says
    /// there is a hit, and is left untouched otherwise.
    pub fn intersect(&self, ray: &Ray, t_min: i64, t_max: i64, record: &mut HitRecord) -> (r: bool)
        requires
            self.wf(),
            ray.wf(),
            t_in_bounds(t_min as int),
            t_in_bounds(t_max as int),
        ensures
            r == (prim_hit(*self, *ray, t_min as int, t_max as int) is Some),
            r ==> Some(*final(record)) == prim_hit(*self, *ray, t_min as int, t_max as int)
                && final(record).wf(),
            !r ==> *final(record) == *old(record),
    {
        match self {
            Primitive::Sphere(s) => s.intersect(ray, t_min, t_max, record),
            Primitive::Triangle(t) => t.intersect(ray, t_min, t_max, record),
        }
    }

    /// A pseudorandom point on the primitive's surface.
    pub fn random_point_on_surface<R: crate::prng::PRNG>(&self, rng: &mut R) -> (r: Point3)
        requires
            old(rng).inv(),
            self.wf(),
        ensures
            final(rng).inv(),
    {
        match self {
            Primitive::Sphere(s) => s.random_point_on_surface(rng),
            Primitive::Triangle(t) => t.random_point_on_surface(rng),
        }
    }
}

/// A reported hit lies strictly inside the queried range, carries a
/// well-formed record, and its exact point lies inside the primitive's
/// bounding box.
pub proof fn lemma_prim_hit_basics(p: Primitive, ray: Ray, t0: int, t1: int)
    requires
        p.wf(),
        ray.wf(),
        t_in_bounds(t0),
        t_in_bounds(t1),
    ensures
        prim_hit(p, ray, t0, t1) matches Some(h) ==> in_open(h.t as int, t0, t1)
            && ray_param_in_box(p.spec_bounding_volume(), ray, h.t as int, SCALE as int),
{
    if prim_hit(p, ray, t0, t1) is Some {
        match p {
            Primitive::Sphere(s) => {
                let oh = s.spec_hit(ray, t0, t1);
            },
            Primitive::Triangle(t) => {
                let oh = t.spec_hit(ray, t0, t1);
            },
        }
    }
}

/// Shrinking the upper end of the query range restricts the hit: the
/// restricted query returns the original hit when its parameter is below the
/// new bound, and nothing otherwise.
pub proof fn lemma_prim_hit_restrict(p: Primitive, ray: Ray, t0: int, t1: int, tau: int)
    requires
        p.wf(),
        ray.wf(),
        t_in_bounds(t0),
        t_in_bounds(t1),
        t0 < tau <= t1,
    ensures
        prim_hit(p, ray, t0, tau) == (match prim_hit(p, ray, t0, t1) {
            Some(h) => if (h.t as int) < tau {
                Some(h)
            } else {
                None::<HitRecord>
            },
            None => None::<HitRecord>,
        }),
{
    match p {
        Primitive::Sphere(s) => {
            lemma_sphere_hit_restrict(s, ray, t0, t1, tau);
        },
        Primitive::Triangle(t) => {
        },
    }
}

/// The restriction law for spheres: of the two quadratic roots, the closer
/// one is preferred in any range, so shrinking the range can only discard
/// the reported root, never switch to a different one below the new bound.
proof fn lemma_sphere_hit_restrict(s: Sphere, ray: Ray, t0: int, t1: int, tau: int)
    requires
        s.wf(),
        ray.wf(),
        t_in_bounds(t0),
        t_in_bounds(t1),
        t0 < tau <= t1,
    ensures
        s.spec_hit(ray, t0, tau) == (match s.spec_hit(ray, t0, t1) {
            Some(h) => if (h.t as int) < tau {
                Some(h)
            } else {
                None::<HitRecord>
            },
            None => None::<HitRecord>,
        }),
{
    let ocx = ray.origin.x - s.center.x;
    let ocy = ray.origin.y - s.center.y;
    let ocz = ray.origin.z - s.center.z;
    let dx = ray.direction.x as int;
    let dy = ray.direction.y as int;
    let dz = ray.direction.z as int;
    let a = dx * dx + dy * dy + dz * dz;
    let b = 2 * (ocx * dx + ocy * dy + ocz * dz);
    let c = ocx * ocx + ocy * ocy + ocz * ocz - (s.radius as int) * (s.radius as int);
    if a != 0 {
        let disc = b * b - 4 * (a * c);
        if disc >= 0 {
            crate::math::lemma_isqrt_exists(disc);
            let q = crate::math::spec_isqrt(disc);
            assert(a > 0) by (nonlinear_arith)
                requires
                    a == dx * dx + dy * dy + dz * dz,
                    a != 0;
            let num_near = (SCALE as int) * (-b - q);
            let num_far = (SCALE as int) * (-b + q);
            assert(num_near <= num_far) by (nonlinear_arith)
                requires
                    q >= 0,
                    num_near == (SCALE as int) * (-b - q),
                    num_far == (SCALE as int) * (-b + q);
            vstd::arithmetic::div_mod::lemma_div_is_ordered(num_near, num_far, 2 * a);
            let t_near = crate::math::floor_div(num_near, 2 * a);
            let t_far = crate::math::floor_div(num_far, 2 * a);
            assert(t_near <= t_far);
            // The guarded acceptance keeps the parameter unchanged, so the
            // case analysis is over which root falls in which range.
            if in_open(t_near, t0, t1) {
                lemma_hit_at_t(s, ray, t_near);
            }
            if in_open(t_far, t0, t1) {
                lemma_hit_at_t(s, ray, t_far);
            }
            if in_open(t_near, t0, tau) {
                lemma_hit_at_t(s, ray, t_near);
            }
            if in_open(t_far, t0, tau) {
                lemma_hit_at_t(s, ray, t_far);
            }
        }
    }
}

/// A record accepted at parameter `t` reports exactly that parameter.
proof fn lemma_hit_at_t(s: Sphere, ray: Ray, t: int)
    requires
        s.wf(),
        ray.wf(),
        crate::math::t_in_bounds(t),
    ensures
        s.spec_hit_at(ray, t) matches Some(h) ==> h.t as int == t,
{
}

/// The result of scanning a set of primitives for the closest hit inside
/// the open range `(t0, t1)`: nothing is reported exactly when no primitive
/// reports a hit, and a reported record is some primitive's hit with the
/// least parameter among all of them.
pub open spec fn is_best_hit(
    prims: Seq<Primitive>,
    ray: Ray,
    t0: int,
    t1: int,
    res: Option<HitRecord>,
) -> bool {
    match res {
        None => forall|i: int|
            0 <= i < prims.len() ==> prim_hit(#[trigger] prims[i], ray, t0, t1) is None,
        Some(h) => (exists|i: int|
            0 <= i < prims.len() && prim_hit(#[trigger] prims[i], ray, t0, t1) == Some(h)) && (
        forall|i: int|
            0 <= i < prims.len() ==> (prim_hit(#[trigger] prims[i], ray, t0, t1) matches Some(g)
                ==> h.t <= g.t)),
    }
}

/// Two best-hit scans over the same primitives, in any order, agree on
/// whether something is hit and at which parameter.
pub proof fn lemma_best_hit_agrees(
    prims1: Seq<Primitive>,
    prims2: Seq<Primitive>,
    ray: Ray,
    t0: int,
    t1: int,
    r1: Option<HitRecord>,
    r2: Option<HitRecord>,
)
    requires
        prims1.to_multiset() == prims2.to_multiset(),
        is_best_hit(prims1, ray, t0, t1, r1),
        is_best_hit(prims2, ray, t0, t1, r2),
    ensures
        r1 is Some <==> r2 is Some,
        (r1 is Some && r2 is Some) ==> r1.unwrap().t == r2.unwrap().t,
{
    prims1.to_multiset_ensures();
    prims2.to_multiset_ensures();
    if r1 is Some {
        let h1 = r1.unwrap();
        let i1 = choose|i: int|
            0 <= i < prims1.len() && prim_hit(#[trigger] prims1[i], ray, t0, t1) == Some(h1);
        assert(prims1.to_multiset().contains(prims1[i1]));
        assert(prims2.contains(prims1[i1]));
        let j1 = choose|j: int| 0 <= j < prims2.len() && prims2[j] == prims1[i1];
        assert(prim_hit(prims2[j1], ray, t0, t1) == Some(h1));
        assert(r2 is Some);
    }
    if r2 is Some {
        let h2 = r2.unwrap();
        let i2 = choose|i: int|
            0 <= i < prims2.len() && prim_hit(#[trigger] prims2[i], ray, t0, t1) == Some(h2);
        assert(prims2.to_multiset().contains(prims2[i2]));
        assert(prims1.contains(prims2[i2]));
        let j2 = choose|j: int| 0 <= j < prims1.len() && prims1[j] == prims2[i2];
        assert(prim_hit(prims1[j2], ray, t0, t1) == Some(h2));
        assert(r1 is Some);
    }
    if r1 is Some && r2 is Some {
        let h1 = r1.unwrap();
        let h2 = r2.unwrap();
        let i1 = choose|i: int|
            0 <= i < prims1.len() && prim_hit(#[trigger] prims1[i], ray, t0, t1) == Some(h1);
        assert(prims2.contains(prims1[i1]));
        let j1 = choose|j: int| 0 <= j < prims2.len() && prims2[j] == prims1[i1];
        assert(h2.t <= h1.t);
        let i2 = choose|i: int|
            0 <= i < prims2.len() && prim_hit(#[trigger] prims2[i], ray, t0, t1) == Some(h2);
        assert(prims1.contains(prims2[i2]));
        let j2 = choose|j: int| 0 <= j < prims1.len() && prims1[j] == prims2[i2];
        assert(h1.t <= h2.t);
    }
}

} // verus!
