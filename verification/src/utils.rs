//! Geometric helper functions: random direction sampling, reflection,
//! refraction and orthonormal bases.

use vstd::prelude::*;

use crate::math::{floor_div, fp_mul, fp_sqrt, sq, SCALE};
use crate::point::Point3;
use crate::prng::PRNG;
use crate::vector::{spec_dot, Vector3};

verus! {

/// A vector with three independent uniform components in `[-1, 1)`.
pub fn random_vector<R: PRNG>(prng: &mut R) -> (r: Vector3)
    requires
        old(prng).inv(),
    ensures
        final(prng).inv(),
        -SCALE <= r.x < SCALE,
        -SCALE <= r.y < SCALE,
        -SCALE <= r.z < SCALE,
{
    let a = (prng.next_unit() - SCALE / 2) * 2;
    let b = (prng.next_unit() - SCALE / 2) * 2;
    let c = (prng.next_unit() - SCALE / 2) * 2;
    Vector3 { x: a, y: b, z: c }
}

/// A vector with three independent uniform components in `[min, max)`.
pub fn random_vector_ranged<R: PRNG>(prng: &mut R, min: i64, max: i64) -> (r: Vector3)
    requires
        old(prng).inv(),
        -0x4000_0000 <= min <= max <= 0x4000_0000,
    ensures
        final(prng).inv(),
        min <= r.x <= max,
        min <= r.y <= max,
        min <= r.z <= max,
{
    let diff = max - min;
    proof {
        lemma_ranged_sample(diff as int);
    }
    let a = fp_mul(prng.next_unit(), diff) + min;
    let b = fp_mul(prng.next_unit(), diff) + min;
    let c = fp_mul(prng.next_unit(), diff) + min;
    Vector3 { x: a, y: b, z: c }
}

/// A fixed-point product of a unit sample and a span stays within the span.
proof fn lemma_ranged_sample(diff: int)
    requires
        0 <= diff <= 0x8000_0000,
    ensures
        forall|u: int|
            0 <= u < SCALE as int ==> 0 <= #[trigger] floor_div(u * diff, SCALE as int) <= diff,
{
    assert forall|u: int| 0 <= u < SCALE as int implies 0 <= #[trigger] floor_div(
        u * diff,
        SCALE as int,
    ) <= diff by {
        vstd::arithmetic::div_mod::lemma_fundamental_div_mod(u * diff, SCALE as int);
        assert(0 <= floor_div(u * diff, SCALE as int) <= diff) by (nonlinear_arith)
            requires
                0 <= u < SCALE as int,
                0 <= diff,
                u * diff == (SCALE as int) * (u * diff / (SCALE as int)) + (u * diff) % (
                SCALE as int),
                0 <= (u * diff) % (SCALE as int) < SCALE as int,
                floor_div(u * diff, SCALE as int) == u * diff / (SCALE as int);
    }
}

/// A pseudorandom direction of (approximately) unit length, found by
/// rejection sampling over the cube and rescaling; after a bounded number
/// of failed draws an axis direction is returned instead.
pub fn random_vector_in_unit_sphere<R: PRNG>(prng: &mut R) -> (r: Vector3)
    requires
        old(prng).inv(),
    ensures
        final(prng).inv(),
        -SCALE <= r.x <= SCALE,
        -SCALE <= r.y <= SCALE,
        -SCALE <= r.z <= SCALE,
        !(r.x == 0 && r.y == 0 && r.z == 0),
{
    let mut attempts: usize = 0;
    while attempts < 16
        invariant
            prng.inv(),
        decreases 16 - attempts,
    {
        let v = random_vector(prng);
        let l2 = v.length_squared();
        if 0 < l2 && l2 < SCALE * SCALE {
            proof {
                assert(!(v.x == 0 && v.y == 0 && v.z == 0)) by (nonlinear_arith)
                    requires spec_dot(v, v) > 0;
            }
            return v.normalize();
        }
        attempts += 1;
    }
    Vector3 { x: 0, y: 0, z: SCALE }
}

/// A pseudorandom point at distance (approximately) `radius` from
/// `position`.
pub fn random_vector_on_sphere<R: PRNG>(prng: &mut R, position: Point3, radius: i64) -> (r: Point3)
    requires
        old(prng).inv(),
        position.wf(),
        1 <= radius <= 0x400_0000,
    ensures
        final(prng).inv(),
        -0x800_0000 <= r.x <= 0x800_0000,
        -0x800_0000 <= r.y <= 0x800_0000,
        -0x800_0000 <= r.z <= 0x800_0000,
        exists|dir: Vector3|
            #![trigger spec_unit_offset(position, dir, radius as int)]
            -SCALE <= dir.x <= SCALE && -SCALE <= dir.y <= SCALE && -SCALE <= dir.z <= SCALE && !(
            dir.x == 0 && dir.y == 0 && dir.z == 0) && r == spec_unit_offset(
                position,
                dir,
                radius as int,
            ),
{
    let dir = random_vector_in_unit_sphere(prng);
    let offset = dir.scale(radius);
    proof {
        crate::math::lemma_mul_magnitude(dir.x as int, radius as int, SCALE as int, 0x400_0000);
        crate::math::lemma_mul_magnitude(dir.y as int, radius as int, SCALE as int, 0x400_0000);
        crate::math::lemma_mul_magnitude(dir.z as int, radius as int, SCALE as int, 0x400_0000);
        crate::math::lemma_floor_div_quotient_bound(
            (dir.x as int) * (radius as int),
            SCALE as int,
            0x400_0000,
        );
        crate::math::lemma_floor_div_quotient_bound(
            (dir.y as int) * (radius as int),
            SCALE as int,
            0x400_0000,
        );
        crate::math::lemma_floor_div_quotient_bound(
            (dir.z as int) * (radius as int),
            SCALE as int,
            0x400_0000,
        );
    }
    let r = position.add_vector(&offset);
    proof {
        assert(r == spec_unit_offset(position, dir, radius as int));
    }
    r
}

/// The point reached by walking a unit-box direction, scaled by a radius,
/// away from a position.
pub open spec fn spec_unit_offset(position: Point3, dir: Vector3, radius: int) -> Point3 {
    Point3 {
        x: (position.x + floor_div((dir.x as int) * radius, SCALE as int)) as i64,
        y: (position.y + floor_div((dir.y as int) * radius, SCALE as int)) as i64,
        z: (position.z + floor_div((dir.z as int) * radius, SCALE as int)) as i64,
    }
}

/// The mirror reflection of `v` about the plane with normal `n`:
/// `v - n * (2 * dot(v, n))`, with the dot product brought back to fixed
/// point.
pub fn reflect_vector(v: &Vector3, n: &Vector3) -> (r: Vector3)
    requires
        -2 * SCALE <= v.x <= 2 * SCALE,
        -2 * SCALE <= v.y <= 2 * SCALE,
        -2 * SCALE <= v.z <= 2 * SCALE,
        -2 * SCALE <= n.x <= 2 * SCALE,
        -2 * SCALE <= n.y <= 2 * SCALE,
        -2 * SCALE <= n.z <= 2 * SCALE,
    ensures
        ({
            let d = floor_div(2 * spec_dot(*v, *n), SCALE as int);
            r.x == v.x - floor_div((n.x as int) * d, SCALE as int) && r.y == v.y - floor_div(
                (n.y as int) * d,
                SCALE as int,
            ) && r.z == v.z - floor_div((n.z as int) * d, SCALE as int)
        }),
        -0x32_0000 <= r.x <= 0x32_0000,
        -0x32_0000 <= r.y <= 0x32_0000,
        -0x32_0000 <= r.z <= 0x32_0000,
{
    proof {
        crate::math::lemma_mul_magnitude(v.x as int, n.x as int, 0x20000, 0x20000);
        crate::math::lemma_mul_magnitude(v.y as int, n.y as int, 0x20000, 0x20000);
        crate::math::lemma_mul_magnitude(v.z as int, n.z as int, 0x20000, 0x20000);
        crate::math::lemma_floor_div_quotient_bound(
            2 * spec_dot(*v, *n),
            SCALE as int,
            0x18_0000,
        );
    }
    let d = crate::math::div_floor_i128(
        2 * ((v.x as i128) * (n.x as i128) + (v.y as i128) * (n.y as i128) + (v.z as i128) * (
        n.z as i128)),
        SCALE as i128,
    ) as i64;
    proof {
        let dd = floor_div(2 * spec_dot(*v, *n), SCALE as int);
        crate::math::lemma_mul_magnitude(n.x as int, dd, 0x20000, 0x18_0000);
        crate::math::lemma_mul_magnitude(n.y as int, dd, 0x20000, 0x18_0000);
        crate::math::lemma_mul_magnitude(n.z as int, dd, 0x20000, 0x18_0000);
        crate::math::lemma_floor_div_quotient_bound((n.x as int) * dd, SCALE as int, 0x30_0000);
        crate::math::lemma_floor_div_quotient_bound((n.y as int) * dd, SCALE as int, 0x30_0000);
        crate::math::lemma_floor_div_quotient_bound((n.z as int) * dd, SCALE as int, 0x30_0000);
    }
    let sx = crate::math::div_floor_i128((n.x as i128) * (d as i128), SCALE as i128) as i64;
    let sy = crate::math::div_floor_i128((n.y as i128) * (d as i128), SCALE as i128) as i64;
    let sz = crate::math::div_floor_i128((n.z as i128) * (d as i128), SCALE as i128) as i64;
    Vector3 { x: v.x - sx, y: v.y - sy, z: v.z - sz }
}


/// Snell refraction of `incident` through a surface with `normal`, for the
/// given ratio of refraction indices. The square-root argument is clamped at
/// zero; total internal reflection is rejected by the caller beforehand.
pub fn refract_vector(incident: &Vector3, normal: &Vector3, refraction_ratio: i64) -> (r: Vector3)
    requires
        -2 * SCALE <= incident.x <= 2 * SCALE,
        -2 * SCALE <= incident.y <= 2 * SCALE,
        -2 * SCALE <= incident.z <= 2 * SCALE,
        -2 * SCALE <= normal.x <= 2 * SCALE,
        -2 * SCALE <= normal.y <= 2 * SCALE,
        -2 * SCALE <= normal.z <= 2 * SCALE,
        0 <= refraction_ratio <= 16 * SCALE,
    ensures
        -0x400_0000 <= r.x <= 0x400_0000,
        -0x400_0000 <= r.y <= 0x400_0000,
        -0x400_0000 <= r.z <= 0x400_0000,
{
    let d = incident.dot(normal);
    proof {
        crate::math::lemma_mul_magnitude(incident.x as int, normal.x as int, 0x20000, 0x20000);
        crate::math::lemma_mul_magnitude(incident.y as int, normal.y as int, 0x20000, 0x20000);
        crate::math::lemma_mul_magnitude(incident.z as int, normal.z as int, 0x20000, 0x20000);
        crate::math::lemma_floor_div_quotient_bound(d as int, SCALE as int, 0xC_0000);
    }
    let cos_theta_i = crate::math::div_floor(d, SCALE);
    proof {
        crate::math::lemma_mul_magnitude(
            refraction_ratio as int,
            refraction_ratio as int,
            0x10_0000,
            0x10_0000,
        );
        crate::math::lemma_floor_div_quotient_bound(
            (refraction_ratio as int) * (refraction_ratio as int),
            SCALE as int,
            0x100_0000,
        );
        crate::math::lemma_mul_magnitude(cos_theta_i as int, cos_theta_i as int, 0xC_0000, 0xC_0000);
        crate::math::lemma_floor_div_quotient_bound(
            (cos_theta_i as int) * (cos_theta_i as int),
            SCALE as int,
            0x90_0000,
        );
    }
    let rr2 = fp_mul(refraction_ratio, refraction_ratio);
    let ci2 = fp_mul(cos_theta_i, cos_theta_i);
    proof {
        crate::math::lemma_mul_magnitude(rr2 as int, (SCALE - ci2) as int, 0x100_0000, 0x91_0000);
        crate::math::lemma_floor_div_quotient_bound(
            (rr2 as int) * ((SCALE - ci2) as int),
            SCALE as int,
            0x91_0000_0000,
        );
    }
    let sin2_theta_t = fp_mul(rr2, SCALE - ci2);
    let root_arg = crate::math::max64(0, SCALE - sin2_theta_t);
    let root = fp_sqrt(root_arg);
    proof {
        assert((root as int) <= 0x1000_0000) by (nonlinear_arith)
            requires
                crate::math::sq(root as int) <= (root_arg as int) * (SCALE as int),
                0 <= root_arg <= 0x92_0000_0000,
                root >= 0;
        crate::math::lemma_mul_magnitude(
            refraction_ratio as int,
            cos_theta_i as int,
            0x10_0000,
            0xC_0000,
        );
        crate::math::lemma_floor_div_quotient_bound(
            (refraction_ratio as int) * (cos_theta_i as int),
            SCALE as int,
            0xC0_0000,
        );
    }
    let factor = fp_mul(refraction_ratio, cos_theta_i) - root;
    let factor = crate::math::clamp64(factor, -0x1F0_0000, 0x1F0_0000);
    let t_incident = incident.scale(refraction_ratio);
    let t_normal = normal.scale(factor);
    proof {
        crate::math::lemma_mul_magnitude(incident.x as int, refraction_ratio as int, 0x20000, 0x10_0000);
        crate::math::lemma_mul_magnitude(incident.y as int, refraction_ratio as int, 0x20000, 0x10_0000);
        crate::math::lemma_mul_magnitude(incident.z as int, refraction_ratio as int, 0x20000, 0x10_0000);
        crate::math::lemma_floor_div_quotient_bound((incident.x as int) * (refraction_ratio as int), SCALE as int, 0x20_0000);
        crate::math::lemma_floor_div_quotient_bound((incident.y as int) * (refraction_ratio as int), SCALE as int, 0x20_0000);
        crate::math::lemma_floor_div_quotient_bound((incident.z as int) * (refraction_ratio as int), SCALE as int, 0x20_0000);
        crate::math::lemma_mul_magnitude(normal.x as int, factor as int, 0x20000, 0x1F0_0000);
        crate::math::lemma_mul_magnitude(normal.y as int, factor as int, 0x20000, 0x1F0_0000);
        crate::math::lemma_mul_magnitude(normal.z as int, factor as int, 0x20000, 0x1F0_0000);
        crate::math::lemma_floor_div_quotient_bound((normal.x as int) * (factor as int), SCALE as int, 0x3E0_0000);
        crate::math::lemma_floor_div_quotient_bound((normal.y as int) * (factor as int), SCALE as int, 0x3E0_0000);
        crate::math::lemma_floor_div_quotient_bound((normal.z as int) * (factor as int), SCALE as int, 0x3E0_0000);
    }
    t_incident.add(&t_normal)
}

/// The distance between two points, in fixed point.
pub fn distance(p1: &Point3, p2: &Point3) -> (r: i64)
    requires
        p1.wf(),
        p2.wf(),
    ensures
        r >= 0,
        sq(r as int) <= spec_dot(p1.sub_point_spec(*p2), p1.sub_point_spec(*p2)),
        spec_dot(p1.sub_point_spec(*p2), p1.sub_point_spec(*p2)) < sq(r as int + 1),
{
    let d = p1.sub_point(p2);
    d.length()
}

/// The squared distance between two points (carrying two scale factors).
pub fn distance_squared(p1: &Point3, p2: &Point3) -> (r: i64)
    requires
        p1.wf(),
        p2.wf(),
    ensures
        r == spec_dot(p1.sub_point_spec(*p2), p1.sub_point_spec(*p2)),
{
    let d = p1.sub_point(p2);
    d.length_squared()
}

/// Linear interpolation between two points: `a * (1 - t) + b * t`.
pub fn lerp(t: i64, a: &Point3, b: &Point3) -> (r: Point3)
    requires
        a.wf(),
        b.wf(),
        0 <= t <= SCALE,
    ensures
        r.x == floor_div((a.x as int) * ((SCALE as int) - t), SCALE as int) + floor_div(
            (b.x as int) * (t as int),
            SCALE as int,
        ),
        r.y == floor_div((a.y as int) * ((SCALE as int) - t), SCALE as int) + floor_div(
            (b.y as int) * (t as int),
            SCALE as int,
        ),
        r.z == floor_div((a.z as int) * ((SCALE as int) - t), SCALE as int) + floor_div(
            (b.z as int) * (t as int),
            SCALE as int,
        ),
{
    let av = a.as_Vector3().scale(SCALE - t);
    let bv = b.as_Vector3().scale(t);
    proof {
        lemma_lerp_bounds(*a, *b, t as int);
    }
    Vector3 { x: av.x + bv.x, y: av.y + bv.y, z: av.z + bv.z }.as_Point3()
}

/// Each interpolation term keeps coordinate magnitude.
proof fn lemma_lerp_bounds(a: Point3, b: Point3, t: int)
    requires
        a.wf(),
        b.wf(),
        0 <= t <= SCALE as int,
    ensures
        forall|c: int, w: int|
            -0x400_0000 <= c <= 0x400_0000 && 0 <= w <= SCALE as int ==> crate::math::abs_i(
                #[trigger] floor_div(c * w, SCALE as int),
            ) <= 0x400_0000,
{
    assert forall|c: int, w: int|
        -0x400_0000 <= c <= 0x400_0000 && 0 <= w <= SCALE as int implies crate::math::abs_i(
        #[trigger] floor_div(c * w, SCALE as int),
    ) <= 0x400_0000 by {
        crate::math::lemma_mul_magnitude(c, w, 0x400_0000, SCALE as int);
        crate::math::lemma_floor_div_quotient_bound(c * w, SCALE as int, 0x400_0000);
    }
}

/// An orthonormal system around `v`: the vector itself, a normalized vector
/// orthogonal to it built in the dominant coordinate plane, and their cross
/// product. The second vector is the rescaling of a vector exactly
/// orthogonal to `v`, and the third is exactly orthogonal to both of the
/// first two.
pub fn generate_orthonormal_system(v: &Vector3) -> (r: [Vector3; 3])
    requires
        v.op_bounded(),
        !(v.x == 0 && v.z == 0),
        !(v.y == 0 && v.z == 0),
    ensures
        r[0] == *v,
        exists|f: Vector3|
            #![trigger f.spec_normalize()]
            spec_dot(*v, f) == 0 && !(f.x == 0 && f.y == 0 && f.z == 0) && r[1]
                == f.spec_normalize(),
        spec_dot(*v, r[2]) == 0,
        spec_dot(r[1], r[2]) == 0,
{
    let v2: Vector3;
    let ax = if v.x < 0 { -v.x } else { v.x };
    let ay = if v.y < 0 { -v.y } else { v.y };
    if ax > ay {
        let flat = Vector3 { x: -v.z, y: 0, z: v.x };
        proof {
            lemma_flat_orthogonal(*v, flat);
        }
        v2 = flat.normalize();
        proof {
            assert(flat.spec_normalize() == v2);
        }
    } else {
        let flat = Vector3 { x: 0, y: v.z, z: -v.y };
        proof {
            lemma_flat_orthogonal(*v, flat);
        }
        v2 = flat.normalize();
        proof {
            assert(flat.spec_normalize() == v2);
        }
    }
    let v3 = v.cross(&v2);
    proof {
        lemma_cross_orthogonal(*v, v2, v3);
    }
    [*v, v2, v3]
}

/// A vector built by swapping two components of `v` and negating one is
/// exactly orthogonal to `v`.
proof fn lemma_flat_orthogonal(v: Vector3, flat: Vector3)
    by (nonlinear_arith)
    requires
        (flat.x == -v.z && flat.y == 0 && flat.z == v.x) || (flat.x == 0 && flat.y == v.z
            && flat.z == -v.y),
    ensures
        spec_dot(v, flat) == 0,
{
}

/// The triple-product identity: a cross product dotted with either factor
/// vanishes.
proof fn lemma_cross_identity(ax: int, ay: int, az: int, bx: int, by: int, bz: int)
    by (nonlinear_arith)
    ensures
        ax * (ay * bz - az * by) + ay * (az * bx - ax * bz) + az * (ax * by - ay * bx) == 0,
        bx * (ay * bz - az * by) + by * (az * bx - ax * bz) + bz * (ax * by - ay * bx) == 0,
{
}

/// A cross product is exactly orthogonal to both of its factors.
proof fn lemma_cross_orthogonal(a: Vector3, b: Vector3, c: Vector3)
    requires
        c.x == (a.y as int) * (b.z as int) - (a.z as int) * (b.y as int),
        c.y == (a.z as int) * (b.x as int) - (a.x as int) * (b.z as int),
        c.z == (a.x as int) * (b.y as int) - (a.y as int) * (b.x as int),
    ensures
        spec_dot(a, c) == 0,
        spec_dot(b, c) == 0,
{
    lemma_cross_identity(a.x as int, a.y as int, a.z as int, b.x as int, b.y as int, b.z as int);
}

} // verus!
