//! Triangles and the Möller-Trumbore intersection routine.

use vstd::prelude::*;

use crate::bvh::{ray_param_in_box, BoundingVolume};
use crate::material::Material;
use crate::math::{floor_div, t_in_bounds, SCALE};
use crate::objects::{in_open, lemma_guard_point_bounds, lemma_i64_products_fit_i128,
    param_in_box_exec};
use crate::point::Point3;
use crate::ray::{spec_ray_at, HitRecord, Ray};
use crate::vector::{spec_dot, Vector3};

verus! {

/// Largest magnitude of a triangle vertex coordinate.
pub const TRIANGLE_COORD_MAX: i64 = 0x1FF_0000;

#[derive(Clone, Copy, Debug)]
pub struct Triangle {
    pub points: [Vector3; 3],
    pub normal: Vector3,
    pub material: Option<Material>,
    pub center: Point3,
    pub edge10: Vector3,
    pub edge20: Vector3,
}

/// A vertex coordinate within the triangle range.
pub open spec fn vertex_bounded(v: Vector3) -> bool {
    -TRIANGLE_COORD_MAX <= v.x <= TRIANGLE_COORD_MAX && -TRIANGLE_COORD_MAX <= v.y
        <= TRIANGLE_COORD_MAX && -TRIANGLE_COORD_MAX <= v.z <= TRIANGLE_COORD_MAX
}

impl Triangle {
    /// Vertices bounded, edges precomputed from them, the face normal the
    /// normalized cross product of the edges, and the centroid their mean.
    pub open spec fn wf(self) -> bool {
        &&& vertex_bounded(self.points[0])
        &&& vertex_bounded(self.points[1])
        &&& vertex_bounded(self.points[2])
        &&& self.edge10 == spec_edge(self.points[1], self.points[0])
        &&& self.edge20 == spec_edge(self.points[2], self.points[0])
        &&& -SCALE <= self.normal.x <= SCALE
        &&& -SCALE <= self.normal.y <= SCALE
        &&& -SCALE <= self.normal.z <= SCALE
        &&& !(self.normal.x == 0 && self.normal.y == 0 && self.normal.z == 0)
        &&& (self.material matches Some(m) ==> m.wf())
    }

    /// A triangle from three vertices; the cross product of its edges must
    /// not vanish (the vertices are not collinear).
    pub fn new(a: Vector3, b: Vector3, c: Vector3) -> (r: Self)
        requires
            vertex_bounded(a),
            vertex_bounded(b),
            vertex_bounded(c),
            !(spec_cross_of_edges(a, b, c) == (0int, 0int, 0int)),
        ensures
            r.points[0] == a,
            r.points[1] == b,
            r.points[2] == c,
            r.material is None,
            r.wf(),
    {
        let v0v1 = b.sub(&a);
        let v0v2 = c.sub(&a);
        let cx = v0v1.cross(&v0v2);
        proof {
            crate::math::lemma_mul_magnitude(v0v1.y as int, v0v2.z as int, 0x400_0000, 0x400_0000);
            crate::math::lemma_mul_magnitude(v0v1.z as int, v0v2.y as int, 0x400_0000, 0x400_0000);
            crate::math::lemma_mul_magnitude(v0v1.z as int, v0v2.x as int, 0x400_0000, 0x400_0000);
            crate::math::lemma_mul_magnitude(v0v1.x as int, v0v2.z as int, 0x400_0000, 0x400_0000);
            crate::math::lemma_mul_magnitude(v0v1.x as int, v0v2.y as int, 0x400_0000, 0x400_0000);
            crate::math::lemma_mul_magnitude(v0v1.y as int, v0v2.x as int, 0x400_0000, 0x400_0000);
            assert(!(cx.x == 0 && cx.y == 0 && cx.z == 0)) by {
                assert(spec_cross_of_edges(a, b, c) == (cx.x as int, cx.y as int, cx.z as int));
            }
        }
        let normal = cx.normalize();
        let center = Point3 {
            x: crate::math::div_floor(a.x + b.x + c.x, 3),
            y: crate::math::div_floor(a.y + b.y + c.y, 3),
            z: crate::math::div_floor(a.z + b.z + c.z, 3),
        };
        Triangle {
            points: [a, b, c],
            normal,
            material: None,
            center,
            edge10: v0v1,
            edge20: v0v2,
        }
    }

    pub fn set_material(&mut self, material: &Material)
        ensures
            final(self).material == Some(*material),
            final(self).points == old(self).points,
            final(self).normal == old(self).normal,
            final(self).center == old(self).center,
            final(self).edge10 == old(self).edge10,
            final(self).edge20 == old(self).edge20,
    {
        self.material = Some(*material);
    }

    /// A copy of the triangle moved by `offset`, with fresh derived data.
    pub fn translate(&self, offset: &Vector3) -> (r: Self)
        requires
            self.wf(),
            -0x10_0000 <= offset.x <= 0x10_0000,
            -0x10_0000 <= offset.y <= 0x10_0000,
            -0x10_0000 <= offset.z <= 0x10_0000,
            vertex_bounded(self.points[0].add_spec(*offset)),
            vertex_bounded(self.points[1].add_spec(*offset)),
            vertex_bounded(self.points[2].add_spec(*offset)),
            !(spec_cross_of_edges(
                self.points[0].add_spec(*offset),
                self.points[1].add_spec(*offset),
                self.points[2].add_spec(*offset),
            ) == (0int, 0int, 0int)),
        ensures
            r.points[0] == self.points[0].add_spec(*offset),
            r.points[1] == self.points[1].add_spec(*offset),
            r.points[2] == self.points[2].add_spec(*offset),
            r.material is None,
            r.wf(),
    {
        let a = self.points[0].add(offset);
        let b = self.points[1].add(offset);
        let c = self.points[2].add(offset);
        Triangle::new(a, b, c)
    }

    pub fn get_position(&self) -> (r: Point3)
        ensures
            r == self.center,
    {
        self.center
    }

    pub fn get_material(&self) -> (r: Option<Material>)
        ensures
            r == self.material,
    {
        self.material
    }

    /// The componentwise bounding box of the three vertices.
    pub open spec fn spec_bounding_volume(self) -> BoundingVolume {
        let mn = Vector3 {
            x: (min3(self.points[0].x as int, self.points[1].x as int, self.points[2].x as int))
                as i64,
            y: (min3(self.points[0].y as int, self.points[1].y as int, self.points[2].y as int))
                as i64,
            z: (min3(self.points[0].z as int, self.points[1].z as int, self.points[2].z as int))
                as i64,
        };
        let mx = Vector3 {
            x: (max3(self.points[0].x as int, self.points[1].x as int, self.points[2].x as int))
                as i64,
            y: (max3(self.points[0].y as int, self.points[1].y as int, self.points[2].y as int))
                as i64,
            z: (max3(self.points[0].z as int, self.points[1].z as int, self.points[2].z as int))
                as i64,
        };
        BoundingVolume {
            min: Point3 { x: mn.x, y: mn.y, z: mn.z },
            max: Point3 { x: mx.x, y: mx.y, z: mx.z },
        }
    }

    pub fn get_bounding_volume(&self) -> (r: BoundingVolume)
        requires
            self.wf(),
        ensures
            r == self.spec_bounding_volume(),
            r.wf(),
    {
        let mn = Vector3::min_elementwise(
            &Vector3::min_elementwise(&self.points[0], &self.points[1]),
            &self.points[2],
        );
        let mx = Vector3::max_elementwise(
            &Vector3::max_elementwise(&self.points[0], &self.points[1]),
            &self.points[2],
        );
        BoundingVolume { min: mn.as_Point3(), max: mx.as_Point3() }
    }

    /// The Möller-Trumbore solution, mirrored exactly by the executable
    /// routine. The barycentric coordinates and the parameter are computed
    /// by flooring division of exact integer triple products; a candidate is
    /// accepted only strictly inside `(t0, t1)`, with its exact point inside
    /// the bounding box.
    ///
    /// The box guard narrows the plain acceptance rule: a parameter whose
    /// exact on-ray point falls outside the vertex bounding box after
    /// rounding is reported as a miss. Such edge grazes sit within one
    /// fixed-point unit of the triangle; rejecting them is what makes the
    /// hierarchy's box pruning provably sound under rounding. A zero
    /// determinant plays the role of the parallel-ray epsilon cutoff: in
    /// exact integer arithmetic no tolerance is needed.
    pub open spec fn spec_hit(self, ray: Ray, t0: int, t1: int) -> Option<HitRecord> {
        let e1 = self.edge10;
        let e2 = self.edge20;
        let h = spec_cross(ray.direction, e2);
        let det = spec_dot3(e1.x as int, e1.y as int, e1.z as int, h);
        if det == 0 {
            None
        } else {
            let sx = ray.origin.x - self.points[0].x;
            let sy = ray.origin.y - self.points[0].y;
            let sz = ray.origin.z - self.points[0].z;
            let u = fdiv_signed((SCALE as int) * spec_dot3(sx, sy, sz, h), det);
            if u < 0 || u > SCALE as int {
                None
            } else {
                let q = spec_cross3(sx, sy, sz, e1);
                let v = fdiv_signed(
                    (SCALE as int) * spec_dot3(
                        ray.direction.x as int,
                        ray.direction.y as int,
                        ray.direction.z as int,
                        q,
                    ),
                    det,
                );
                if v < 0 || u + v > SCALE as int {
                    None
                } else {
                    let t = fdiv_signed(
                        (SCALE as int) * spec_dot3(e2.x as int, e2.y as int, e2.z as int, q),
                        det,
                    );
                    if !in_open(t, t0, t1) {
                        None
                    } else {
                        self.spec_hit_at(ray, t)
                    }
                }
            }
        }
    }

    /// The record produced for an accepted parameter, or nothing when the
    /// box guard rejects it.
    pub open spec fn spec_hit_at(self, ray: Ray, t: int) -> Option<HitRecord> {
        if !ray_param_in_box(self.spec_bounding_volume(), ray, t, SCALE as int) {
            None
        } else {
            let p = spec_ray_at(ray, t);
            let n = self.normal;
            let front = spec_dot(ray.direction, n) < 0;
            Some(
                HitRecord {
                    t: t as i64,
                    point: p,
                    normal: (if front {
                        n
                    } else {
                        Vector3 { x: (-n.x) as i64, y: (-n.y) as i64, z: (-n.z) as i64 }
                    }),
                    front_face: front,
                    material: self.material,
                },
            )
        }
    }

    /// The Möller-Trumbore intersection test.
    pub fn intersect_mt(&self, ray: &Ray, t_min: i64, t_max: i64, record: &mut HitRecord) -> (r:
        bool)
        requires
            self.wf(),
            ray.wf(),
            t_in_bounds(t_min as int),
            t_in_bounds(t_max as int),
        ensures
            r == (self.spec_hit(*ray, t_min as int, t_max as int) is Some),
            r ==> Some(*final(record)) == self.spec_hit(*ray, t_min as int, t_max as int)
                && final(record).wf(),
            !r ==> *final(record) == *old(record),
    {
        proof {
            lemma_i64_products_fit_i128();
            lemma_triangle_products(*self, *ray);
        }
        let e1 = self.edge10;
        let e2 = self.edge20;
        let hx = (ray.direction.y as i128) * (e2.z as i128) - (ray.direction.z as i128) * (
        e2.y as i128);
        let hy = (ray.direction.z as i128) * (e2.x as i128) - (ray.direction.x as i128) * (
        e2.z as i128);
        let hz = (ray.direction.x as i128) * (e2.y as i128) - (ray.direction.y as i128) * (
        e2.x as i128);
        proof {
            crate::math::lemma_mul_magnitude(e1.x as int, hx as int, 0x400_0000, 0x200_0000_0000_0000);
            crate::math::lemma_mul_magnitude(e1.y as int, hy as int, 0x400_0000, 0x200_0000_0000_0000);
            crate::math::lemma_mul_magnitude(e1.z as int, hz as int, 0x400_0000, 0x200_0000_0000_0000);
        }
        let det = (e1.x as i128) * hx + (e1.y as i128) * hy + (e1.z as i128) * hz;
        if det == 0 {
            return false;
        }
        let sx = ray.origin.x as i128 - self.points[0].x as i128;
        let sy = ray.origin.y as i128 - self.points[0].y as i128;
        let sz = ray.origin.z as i128 - self.points[0].z as i128;
        proof {
            crate::math::lemma_mul_magnitude(sx as int, hx as int, 0x800_0000, 0x200_0000_0000_0000);
            crate::math::lemma_mul_magnitude(sy as int, hy as int, 0x800_0000, 0x200_0000_0000_0000);
            crate::math::lemma_mul_magnitude(sz as int, hz as int, 0x800_0000, 0x200_0000_0000_0000);
            crate::math::lemma_mul_magnitude(
                SCALE as int,
                (sx * hx + sy * hy + sz * hz) as int,
                SCALE as int,
                0x40_0000_0000_0000_0000_0000,
            );
        }
        let u = crate::math::div_floor_i128(
            (SCALE as i128) * (sx * hx + sy * hy + sz * hz),
            det,
        );
        if u < 0 || u > SCALE as i128 {
            return false;
        }
        let qx = sy * (e1.z as i128) - sz * (e1.y as i128);
        let qy = sz * (e1.x as i128) - sx * (e1.z as i128);
        let qz = sx * (e1.y as i128) - sy * (e1.x as i128);
        proof {
            crate::math::lemma_mul_magnitude(ray.direction.x as int, qx as int, 0x400_0000, 0x200_0000_0000_0000);
            crate::math::lemma_mul_magnitude(ray.direction.y as int, qy as int, 0x400_0000, 0x200_0000_0000_0000);
            crate::math::lemma_mul_magnitude(ray.direction.z as int, qz as int, 0x400_0000, 0x200_0000_0000_0000);
            crate::math::lemma_mul_magnitude(
                SCALE as int,
                ((ray.direction.x as int) * (qx as int) + (ray.direction.y as int) * (qy as int) + (
                ray.direction.z as int) * (qz as int)),
                SCALE as int,
                0x40_0000_0000_0000_0000_0000,
            );
            crate::math::lemma_mul_magnitude(e2.x as int, qx as int, 0x400_0000, 0x200_0000_0000_0000);
            crate::math::lemma_mul_magnitude(e2.y as int, qy as int, 0x400_0000, 0x200_0000_0000_0000);
            crate::math::lemma_mul_magnitude(e2.z as int, qz as int, 0x400_0000, 0x200_0000_0000_0000);
            crate::math::lemma_mul_magnitude(
                SCALE as int,
                ((e2.x as int) * (qx as int) + (e2.y as int) * (qy as int) + (e2.z as int) * (
                qz as int)),
                SCALE as int,
                0x40_0000_0000_0000_0000_0000,
            );
        }
        let v = crate::math::div_floor_i128(
            (SCALE as i128) * ((ray.direction.x as i128) * qx + (ray.direction.y as i128) * qy + (
            ray.direction.z as i128) * qz),
            det,
        );
        if v < 0 || u + v > SCALE as i128 {
            return false;
        }
        let t = crate::math::div_floor_i128(
            (SCALE as i128) * ((e2.x as i128) * qx + (e2.y as i128) * qy + (e2.z as i128) * qz),
            det,
        );
        let t0 = t_min as i128;
        let t1 = t_max as i128;
        if !(t0 < t && t < t1) {
            return false;
        }
        let bv = self.get_bounding_volume();
        if !param_in_box_exec(&bv, ray, t as i64) {
            return false;
        }
        let p = ray.at(t as i64);
        record.t = t as i64;
        record.point = p;
        record.material = self.material;
        proof {
            lemma_guard_point_bounds(
                bv.min.x as int,
                bv.max.x as int,
                ray.origin.x as int,
                ray.direction.x as int,
                t as int,
            );
            lemma_guard_point_bounds(
                bv.min.y as int,
                bv.max.y as int,
                ray.origin.y as int,
                ray.direction.y as int,
                t as int,
            );
            lemma_guard_point_bounds(
                bv.min.z as int,
                bv.max.z as int,
                ray.origin.z as int,
                ray.direction.z as int,
                t as int,
            );
        }
        record.set_face_normal(ray, &self.normal);
        true
    }

    /// Dispatch alias for the intersection routine.
    pub fn intersect(&self, ray: &Ray, t_min: i64, t_max: i64, record: &mut HitRecord) -> (r: bool)
        requires
            self.wf(),
            ray.wf(),
            t_in_bounds(t_min as int),
            t_in_bounds(t_max as int),
        ensures
            r == (self.spec_hit(*ray, t_min as int, t_max as int) is Some),
            r ==> Some(*final(record)) == self.spec_hit(*ray, t_min as int, t_max as int)
                && final(record).wf(),
            !r ==> *final(record) == *old(record),
    {
        self.intersect_mt(ray, t_min, t_max, record)
    }

    /// A pseudorandom point on the triangle: barycentric weights are drawn
    /// uniformly and folded back into the lower-left half, so some pair
    /// `a, b` with `a >= 0`, `b >= 0` and `a + b <= 1` generates the point.
    pub fn random_point_on_surface<R: crate::prng::PRNG>(&self, rng: &mut R) -> (r: Point3)
        requires
            old(rng).inv(),
            self.wf(),
        ensures
            final(rng).inv(),
            exists|a: int, b: int|
                0 <= a && 0 <= b && a + b <= SCALE as int && #[trigger] spec_surface_point(
                    *self,
                    a,
                    b,
                ) == r,
    {
        let mut a = rng.next_unit();
        let mut b = rng.next_unit();
        if a + b >= SCALE {
            a = SCALE - a;
            b = SCALE - b;
        }
        proof {
            lemma_surface_point_terms();
        }
        let px = self.points[0].x + crate::math::fp_mul(self.edge10.x, a) + crate::math::fp_mul(
            self.edge20.x,
            b,
        );
        let py = self.points[0].y + crate::math::fp_mul(self.edge10.y, a) + crate::math::fp_mul(
            self.edge20.y,
            b,
        );
        let pz = self.points[0].z + crate::math::fp_mul(self.edge10.z, a) + crate::math::fp_mul(
            self.edge20.z,
            b,
        );
        let r = Point3 { x: px, y: py, z: pz };
        proof {
            assert(spec_surface_point(*self, a as int, b as int) == r);
        }
        r
    }
}

/// The point at barycentric weights `(a, b)` from vertex 0 along the two
/// edges, in rounded fixed point.
pub open spec fn spec_surface_point(t: Triangle, a: int, b: int) -> Point3 {
    Point3 {
        x: (t.points[0].x + floor_div((t.edge10.x as int) * a, SCALE as int) + floor_div(
            (t.edge20.x as int) * b,
            SCALE as int,
        )) as i64,
        y: (t.points[0].y + floor_div((t.edge10.y as int) * a, SCALE as int) + floor_div(
            (t.edge20.y as int) * b,
            SCALE as int,
        )) as i64,
        z: (t.points[0].z + floor_div((t.edge10.z as int) * a, SCALE as int) + floor_div(
            (t.edge20.z as int) * b,
            SCALE as int,
        )) as i64,
    }
}

/// Edge terms of a surface point stay within twice the vertex range.
proof fn lemma_surface_point_terms()
    ensures
        forall|c: int, w: int|
            -2 * (TRIANGLE_COORD_MAX as int) <= c <= 2 * (TRIANGLE_COORD_MAX as int) && 0 <= w
                <= SCALE as int ==> -2 * (TRIANGLE_COORD_MAX as int) <= #[trigger] floor_div(
                c * w,
                SCALE as int,
            ) <= 2 * (TRIANGLE_COORD_MAX as int),
{
    assert forall|c: int, w: int|
        -2 * (TRIANGLE_COORD_MAX as int) <= c <= 2 * (TRIANGLE_COORD_MAX as int) && 0 <= w
            <= SCALE as int implies -2 * (TRIANGLE_COORD_MAX as int) <= #[trigger] floor_div(
        c * w,
        SCALE as int,
    ) <= 2 * (TRIANGLE_COORD_MAX as int) by {
        crate::math::lemma_mul_magnitude(c, w, 2 * (TRIANGLE_COORD_MAX as int), SCALE as int);
        crate::math::lemma_floor_div_quotient_bound(
            c * w,
            SCALE as int,
            2 * (TRIANGLE_COORD_MAX as int),
        );
    }
}

/// The difference vector between two vertices.
pub open spec fn spec_edge(to: Vector3, from: Vector3) -> Vector3 {
    Vector3 { x: (to.x - from.x) as i64, y: (to.y - from.y) as i64, z: (to.z - from.z) as i64 }
}

/// The cross product of the two edges of a vertex triple, as exact integers.
pub open spec fn spec_cross_of_edges(a: Vector3, b: Vector3, c: Vector3) -> (int, int, int) {
    let e1 = spec_edge(b, a);
    let e2 = spec_edge(c, a);
    (
        (e1.y as int) * (e2.z as int) - (e1.z as int) * (e2.y as int),
        (e1.z as int) * (e2.x as int) - (e1.x as int) * (e2.z as int),
        (e1.x as int) * (e2.y as int) - (e1.y as int) * (e2.x as int),
    )
}

/// The cross product of a vector with integer triple result.
pub open spec fn spec_cross(a: Vector3, b: Vector3) -> (int, int, int) {
    (
        (a.y as int) * (b.z as int) - (a.z as int) * (b.y as int),
        (a.z as int) * (b.x as int) - (a.x as int) * (b.z as int),
        (a.x as int) * (b.y as int) - (a.y as int) * (b.x as int),
    )
}

/// The cross product of an integer triple with a vector.
pub open spec fn spec_cross3(ax: int, ay: int, az: int, b: Vector3) -> (int, int, int) {
    (
        ay * (b.z as int) - az * (b.y as int),
        az * (b.x as int) - ax * (b.z as int),
        ax * (b.y as int) - ay * (b.x as int),
    )
}

/// The dot product of an integer triple with an integer triple.
pub open spec fn spec_dot3(ax: int, ay: int, az: int, b: (int, int, int)) -> int {
    ax * b.0 + ay * b.1 + az * b.2
}

/// The flooring quotient for a divisor of either sign.
pub open spec fn fdiv_signed(n: int, d: int) -> int {
    floor_div(n, d)
}

/// Magnitude bookkeeping for the Möller-Trumbore products.
proof fn lemma_triangle_products(t: Triangle, ray: Ray)
    requires
        t.wf(),
        ray.wf(),
    ensures
        forall|a: int, b: int|
            -0x1000_0000 <= a <= 0x1000_0000 && -0x1000_0000 <= b <= 0x1000_0000 ==>
                -0x100_0000_0000_0000 <= #[trigger] (a * b) <= 0x100_0000_0000_0000,
{
    assert forall|a: int, b: int|
        -0x1000_0000 <= a <= 0x1000_0000 && -0x1000_0000 <= b
            <= 0x1000_0000 implies -0x100_0000_0000_0000 <= #[trigger] (a * b)
        <= 0x100_0000_0000_0000 by {
        crate::math::lemma_mul_magnitude(a, b, 0x1000_0000, 0x1000_0000);
    }
}

/// The least of three values.
pub open spec fn min3(a: int, b: int, c: int) -> int {
    if a <= b && a <= c {
        a
    } else if b <= c {
        b
    } else {
        c
    }
}

/// The greatest of three values.
pub open spec fn max3(a: int, b: int, c: int) -> int {
    if a >= b && a >= c {
        a
    } else if b >= c {
        b
    } else {
        c
    }
}

} // verus!
