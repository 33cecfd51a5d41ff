//! Three-component fixed-point vectors.
//!
//! `Vector3` doubles as the color type of the renderer, exactly as in the
//! geometry layer it belongs to: a color is a triple of fixed-point channel
//! values.

use vstd::prelude::*;

use crate::math::{coord_in_bounds, floor_div, fp_mul, max64, min64, sq, SCALE};
use crate::point::Point3;

verus! {

/// Component magnitude up to which products and 3-term dot sums of
/// components stay well inside `i64`.
pub const VEC_OP_MAX: i64 = 0x4000_0000;

#[derive(Clone, Copy, PartialEq, Eq, Structural, Debug)]
pub struct Vector3 {
    pub x: i64,
    pub y: i64,
    pub z: i64,
}

/// The dot product as a mathematical integer (a fixed-point value with two
/// scale factors).
pub open spec fn spec_dot(a: Vector3, b: Vector3) -> int {
    (a.x as int) * (b.x as int) + (a.y as int) * (b.y as int) + (a.z as int) * (b.z as int)
}

impl Vector3 {
    /// Every component is a legal scene coordinate.
    pub open spec fn wf(self) -> bool {
        coord_in_bounds(self.x as int) && coord_in_bounds(self.y as int) && coord_in_bounds(
            self.z as int,
        )
    }

    /// Components are small enough for products and dot sums in `i64`.
    pub open spec fn op_bounded(self) -> bool {
        -VEC_OP_MAX <= self.x <= VEC_OP_MAX && -VEC_OP_MAX <= self.y <= VEC_OP_MAX
            && -VEC_OP_MAX <= self.z <= VEC_OP_MAX
    }

    pub fn new(x: i64, y: i64, z: i64) -> (r: Self)
        ensures
            r == (Vector3 { x, y, z }),
    {
        Vector3 { x, y, z }
    }

    /// The origin vector.
    pub fn zero() -> (r: Self)
        ensures
            r == (Vector3 { x: 0i64, y: 0i64, z: 0i64 }),
    {
        Vector3 { x: 0, y: 0, z: 0 }
    }

    /// The componentwise sum, as a spec value.
    pub open spec fn add_spec(self, rhs: Vector3) -> Vector3 {
        Vector3 {
            x: (self.x + rhs.x) as i64,
            y: (self.y + rhs.y) as i64,
            z: (self.z + rhs.z) as i64,
        }
    }

    pub fn add(&self, rhs: &Vector3) -> (r: Vector3)
        requires
            i64::MIN <= self.x + rhs.x <= i64::MAX,
            i64::MIN <= self.y + rhs.y <= i64::MAX,
            i64::MIN <= self.z + rhs.z <= i64::MAX,
        ensures
            r.x == self.x + rhs.x,
            r.y == self.y + rhs.y,
            r.z == self.z + rhs.z,
    {
        Vector3 { x: self.x + rhs.x, y: self.y + rhs.y, z: self.z + rhs.z }
    }

    pub fn sub(&self, rhs: &Vector3) -> (r: Vector3)
        requires
            i64::MIN <= self.x - rhs.x <= i64::MAX,
            i64::MIN <= self.y - rhs.y <= i64::MAX,
            i64::MIN <= self.z - rhs.z <= i64::MAX,
        ensures
            r.x == self.x - rhs.x,
            r.y == self.y - rhs.y,
            r.z == self.z - rhs.z,
    {
        Vector3 { x: self.x - rhs.x, y: self.y - rhs.y, z: self.z - rhs.z }
    }

    pub fn neg(&self) -> (r: Vector3)
        requires
            self.x > i64::MIN,
            self.y > i64::MIN,
            self.z > i64::MIN,
        ensures
            r.x == -self.x,
            r.y == -self.y,
            r.z == -self.z,
    {
        Vector3 { x: -self.x, y: -self.y, z: -self.z }
    }

    /// Fixed-point scaling of every component by `s`.
    pub fn scale(&self, s: i64) -> (r: Vector3)
        requires
            self.op_bounded(),
            -VEC_OP_MAX <= s <= VEC_OP_MAX,
        ensures
            r.x == floor_div((self.x as int) * (s as int), SCALE as int),
            r.y == floor_div((self.y as int) * (s as int), SCALE as int),
            r.z == floor_div((self.z as int) * (s as int), SCALE as int),
    {
        proof {
            lemma_fp_mul_fits(self.x as int, s as int);
            lemma_fp_mul_fits(self.y as int, s as int);
            lemma_fp_mul_fits(self.z as int, s as int);
        }
        Vector3 { x: fp_mul(self.x, s), y: fp_mul(self.y, s), z: fp_mul(self.z, s) }
    }

    /// Componentwise fixed-point product, the color modulation operation.
    pub fn mul_elementwise(&self, rhs: &Vector3) -> (r: Vector3)
        requires
            self.op_bounded(),
            rhs.op_bounded(),
        ensures
            r.x == floor_div((self.x as int) * (rhs.x as int), SCALE as int),
            r.y == floor_div((self.y as int) * (rhs.y as int), SCALE as int),
            r.z == floor_div((self.z as int) * (rhs.z as int), SCALE as int),
    {
        proof {
            lemma_fp_mul_fits(self.x as int, rhs.x as int);
            lemma_fp_mul_fits(self.y as int, rhs.y as int);
            lemma_fp_mul_fits(self.z as int, rhs.z as int);
        }
        Vector3 {
            x: fp_mul(self.x, rhs.x),
            y: fp_mul(self.y, rhs.y),
            z: fp_mul(self.z, rhs.z),
        }
    }

    pub fn length_squared(&self) -> (r: i64)
        requires
            self.op_bounded(),
        ensures
            r == spec_dot(*self, *self),
            r >= 0,
    {
        proof {
            lemma_dot_self_nonneg(*self);
            lemma_products_bounded(*self, *self);
        }
        self.x * self.x + self.y * self.y + self.z * self.z
    }

    pub fn dot(&self, vec: &Vector3) -> (r: i64)
        requires
            self.op_bounded(),
            vec.op_bounded(),
        ensures
            r == spec_dot(*self, *vec),
    {
        proof {
            lemma_products_bounded(*self, *vec);
        }
        self.x * vec.x + self.y * vec.y + self.z * vec.z
    }

    pub fn cross(&self, vec: &Vector3) -> (r: Vector3)
        requires
            self.op_bounded(),
            vec.op_bounded(),
        ensures
            r.x == (self.y as int) * (vec.z as int) - (self.z as int) * (vec.y as int),
            r.y == (self.z as int) * (vec.x as int) - (self.x as int) * (vec.z as int),
            r.z == (self.x as int) * (vec.y as int) - (self.y as int) * (vec.x as int),
    {
        proof {
            lemma_products_bounded(*self, *vec);
        }
        let x = self.y * vec.z - self.z * vec.y;
        let y = self.z * vec.x - self.x * vec.z;
        let z = self.x * vec.y - self.y * vec.x;
        Vector3 { x, y, z }
    }

    /// The axis-aligned components of the vector.
    pub fn decompose(&self) -> (r: [Vector3; 3])
        ensures
            r[0] == (Vector3 { x: self.x, y: 0i64, z: 0i64 }),
            r[1] == (Vector3 { x: 0i64, y: self.y, z: 0i64 }),
            r[2] == (Vector3 { x: 0i64, y: 0i64, z: self.z }),
    {
        [
            Vector3 { x: self.x, y: 0, z: 0 },
            Vector3 { x: 0, y: self.y, z: 0 },
            Vector3 { x: 0, y: 0, z: self.z },
        ]
    }

    pub fn as_Point3(&self) -> (r: Point3)
        ensures
            r.x == self.x,
            r.y == self.y,
            r.z == self.z,
    {
        Point3 { x: self.x, y: self.y, z: self.z }
    }

    pub fn abs(&self) -> (r: Vector3)
        requires
            self.x > i64::MIN,
            self.y > i64::MIN,
            self.z > i64::MIN,
        ensures
            r.x == crate::math::abs_i(self.x as int),
            r.y == crate::math::abs_i(self.y as int),
            r.z == crate::math::abs_i(self.z as int),
    {
        Vector3 {
            x: if self.x < 0 { -self.x } else { self.x },
            y: if self.y < 0 { -self.y } else { self.y },
            z: if self.z < 0 { -self.z } else { self.z },
        }
    }

    pub fn min_elementwise(a: &Vector3, b: &Vector3) -> (r: Vector3)
        ensures
            r.x == (if a.x <= b.x { a.x } else { b.x }),
            r.y == (if a.y <= b.y { a.y } else { b.y }),
            r.z == (if a.z <= b.z { a.z } else { b.z }),
    {
        Vector3 { x: min64(a.x, b.x), y: min64(a.y, b.y), z: min64(a.z, b.z) }
    }

    pub fn max_elementwise(a: &Vector3, b: &Vector3) -> (r: Vector3)
        ensures
            r.x == (if a.x >= b.x { a.x } else { b.x }),
            r.y == (if a.y >= b.y { a.y } else { b.y }),
            r.z == (if a.z >= b.z { a.z } else { b.z }),
    {
        Vector3 { x: max64(a.x, b.x), y: max64(a.y, b.y), z: max64(a.z, b.z) }
    }

    /// Clamp every component into `[min, max]`.
    pub fn clamp(&mut self, min: &i64, max: &i64)
        requires
            *min <= *max,
        ensures
            final(self).x == crate::math::spec_clamp(old(self).x as int, *min as int, *max as int),
            final(self).y == crate::math::spec_clamp(old(self).y as int, *min as int, *max as int),
            final(self).z == crate::math::spec_clamp(old(self).z as int, *min as int, *max as int),
    {
        self.x = crate::math::clamp64(self.x, *min, *max);
        self.y = crate::math::clamp64(self.y, *min, *max);
        self.z = crate::math::clamp64(self.z, *min, *max);
    }

    /// Fixed-point Euclidean length: the squared length carries two scale
    /// factors, so its integer square root is again a fixed-point value.
    pub fn length(&self) -> (r: i64)
        requires
            self.op_bounded(),
        ensures
            r >= 0,
            sq(r as int) <= spec_dot(*self, *self),
            spec_dot(*self, *self) < sq(r as int + 1),
    {
        let l2 = self.length_squared();
        let l = crate::math::isqrt_u128(l2 as u128);
        proof {
            assert(sq(l as int) <= l2 as int && (l2 as int) < sq(l as int + 1) && l as int
                <= 0x1_0000_0000_0000) by (nonlinear_arith)
                requires
                    (l as int) * (l as int) <= l2 as int,
                    (l2 as int) < sq(l as int + 1),
                    0 <= l2 <= i64::MAX,
                    l >= 0;
        }
        l as i64
    }

    /// The normalized vector: each component becomes
    /// `floor(c * SCALE / length)`.
    pub open spec fn spec_normalize(self) -> Vector3 {
        let l = spec_length(self);
        Vector3 {
            x: floor_div((self.x as int) * (SCALE as int), l) as i64,
            y: floor_div((self.y as int) * (SCALE as int), l) as i64,
            z: floor_div((self.z as int) * (SCALE as int), l) as i64,
        }
    }

    /// Rescale to (approximately) unit length: each component becomes
    /// `floor(c * SCALE / length)`. Accepts components well beyond the
    /// coordinate range so that unnormalized cross products can be handed in.
    pub fn normalize(&self) -> (r: Vector3)
        requires
            -0x80_0000_0000_0000 <= self.x <= 0x80_0000_0000_0000,
            -0x80_0000_0000_0000 <= self.y <= 0x80_0000_0000_0000,
            -0x80_0000_0000_0000 <= self.z <= 0x80_0000_0000_0000,
            !(self.x == 0 && self.y == 0 && self.z == 0),
        ensures
            r == self.spec_normalize(),
            -SCALE <= r.x <= SCALE,
            -SCALE <= r.y <= SCALE,
            -SCALE <= r.z <= SCALE,
            !(r.x == 0 && r.y == 0 && r.z == 0),
            r.wf(),
    {
        proof {
            lemma_wide_products(*self);
        }
        let l2: u128 = ((self.x as i128) * (self.x as i128) + (self.y as i128) * (self.y as i128)
            + (self.z as i128) * (self.z as i128)) as u128;
        let l = crate::math::isqrt_u128(l2);
        proof {
            lemma_nonzero_vector_length(*self, l as int);
            lemma_length_dominates_components(*self, l as int);
            crate::math::lemma_floor_div_quotient_bound(
                (self.x as int) * (SCALE as int),
                l as int,
                SCALE as int,
            );
            crate::math::lemma_floor_div_quotient_bound(
                (self.y as int) * (SCALE as int),
                l as int,
                SCALE as int,
            );
            crate::math::lemma_floor_div_quotient_bound(
                (self.z as int) * (SCALE as int),
                l as int,
                SCALE as int,
            );
        }
        proof {
            lemma_normalize_nonzero(*self, l as int);
        }
        let li = l as i128;
        Vector3 {
            x: crate::math::div_floor_i128((self.x as i128) * (SCALE as i128), li) as i64,
            y: crate::math::div_floor_i128((self.y as i128) * (SCALE as i128), li) as i64,
            z: crate::math::div_floor_i128((self.z as i128) * (SCALE as i128), li) as i64,
        }
    }

    /// A vector shorter than one fixed-point unit in every direction.
    pub fn near_zero(&self) -> (r: bool)
        requires
            self.op_bounded(),
        ensures
            r == (spec_dot(*self, *self) < SCALE as int),
    {
        self.length_squared() < SCALE
    }

    /// The components as a column list.
    pub fn column(&self) -> (r: Vec<i64>)
        ensures
            r@ == seq![self.x, self.y, self.z],
    {
        let mut out: Vec<i64> = Vec::new();
        out.push(self.x);
        out.push(self.y);
        out.push(self.z);
        proof {
            assert(out@ =~= seq![self.x, self.y, self.z]);
        }
        out
    }

    /// The single component of row `y`, as a one-element list.
    pub fn row(&self, y: usize) -> (r: Vec<i64>)
        requires
            y < 3,
        ensures
            r@ == seq![if y == 0 { self.x } else if y == 1 { self.y } else { self.z }],
    {
        let mut out: Vec<i64> = Vec::new();
        if y == 0 {
            out.push(self.x);
        } else if y == 1 {
            out.push(self.y);
        } else {
            out.push(self.z);
        }
        proof {
            assert(out@ =~= seq![if y == 0 { self.x } else if y == 1 { self.y } else { self.z }]);
        }
        out
    }

    /// Fixed-point values are always finite, so there is never a NaN.
    pub fn has_nans(&self) -> (r: bool)
        ensures
            r == false,
    {
        false
    }
}

/// The fixed-point length of a vector, as `length` computes it.
pub open spec fn spec_length(v: Vector3) -> int {
    choose|l: int|
        l >= 0 && #[trigger] sq(l) <= spec_dot(v, v) && spec_dot(v, v) < sq(l + 1)
}

/// `length` returns exactly `spec_length`, and a nonzero vector has a
/// nonzero length.
proof fn lemma_nonzero_vector_length(v: Vector3, l: int)
    requires
        l >= 0,
        sq(l) <= spec_dot(v, v),
        spec_dot(v, v) < sq(l + 1),
        !(v.x == 0 && v.y == 0 && v.z == 0),
    ensures
        l == spec_length(v),
        l >= 1,
{
    lemma_dot_self_nonneg(v);
    assert(spec_dot(v, v) >= 1) by (nonlinear_arith)
        requires !(v.x == 0 && v.y == 0 && v.z == 0);
    assert(l >= 1) by (nonlinear_arith)
        requires
            l >= 0,
            spec_dot(v, v) >= 1,
            spec_dot(v, v) < sq(l + 1);
    let w = spec_length(v);
    assert(w >= 0 && sq(w) <= spec_dot(v, v) && spec_dot(v, v) < sq(w + 1));
    lemma_isqrt_unique(l, w, spec_dot(v, v));
}

/// Two integers that both bracket `n` between their square and the next
/// square are equal.
proof fn lemma_isqrt_unique(a: int, b: int, n: int)
    by (nonlinear_arith)
    requires
        a >= 0,
        b >= 0,
        sq(a) <= n < sq(a + 1),
        sq(b) <= n < sq(b + 1),
    ensures
        a == b,
{
}

/// A dot product of a vector with itself is nonnegative.
proof fn lemma_dot_self_nonneg(v: Vector3)
    by (nonlinear_arith)
    ensures
        spec_dot(v, v) >= 0,
{
}

/// All component products of two op-bounded vectors fit comfortably in `i64`.
proof fn lemma_products_bounded(a: Vector3, b: Vector3)
    by (nonlinear_arith)
    requires
        a.op_bounded(),
        b.op_bounded(),
    ensures
        forall|p: int, q: int|
            -VEC_OP_MAX <= p <= VEC_OP_MAX && -VEC_OP_MAX <= q <= VEC_OP_MAX ==> -0x1000_0000_0000_0000
                <= #[trigger] (p * q) <= 0x1000_0000_0000_0000,
{
}

/// A fixed-point product of op-bounded factors fits in `i64`.
proof fn lemma_fp_mul_fits(a: int, b: int)
    requires
        crate::math::abs_i(a) <= VEC_OP_MAX as int,
        crate::math::abs_i(b) <= VEC_OP_MAX as int,
    ensures
        i64::MIN <= floor_div(a * b, SCALE as int) <= i64::MAX,
{
    crate::math::lemma_mul_magnitude(a, b, VEC_OP_MAX as int, VEC_OP_MAX as int);
    crate::math::lemma_floor_div_magnitude(a * b, SCALE as int);
}

/// Squares of wide components fit in `i128` and their sum is nonnegative.
proof fn lemma_wide_products(v: Vector3)
    by (nonlinear_arith)
    requires
        -0x80_0000_0000_0000 <= v.x <= 0x80_0000_0000_0000,
        -0x80_0000_0000_0000 <= v.y <= 0x80_0000_0000_0000,
        -0x80_0000_0000_0000 <= v.z <= 0x80_0000_0000_0000,
    ensures
        0 <= (v.x as int) * (v.x as int) <= 0x4000_0000_0000_0000_0000_0000_0000,
        0 <= (v.y as int) * (v.y as int) <= 0x4000_0000_0000_0000_0000_0000_0000,
        0 <= (v.z as int) * (v.z as int) <= 0x4000_0000_0000_0000_0000_0000_0000,
        spec_dot(v, v) == (v.x as int) * (v.x as int) + (v.y as int) * (v.y as int) + (v.z as int)
            * (v.z as int),
{
}

/// The length of a vector is at least the magnitude of each component.
proof fn lemma_length_dominates_components(v: Vector3, l: int)
    by (nonlinear_arith)
    requires
        l >= 0,
        sq(l) <= spec_dot(v, v),
        spec_dot(v, v) < sq(l + 1),
    ensures
        crate::math::abs_i(v.x as int) <= l,
        crate::math::abs_i(v.y as int) <= l,
        crate::math::abs_i(v.z as int) <= l,
        crate::math::abs_i((v.x as int) * (SCALE as int)) <= l * (SCALE as int),
        crate::math::abs_i((v.y as int) * (SCALE as int)) <= l * (SCALE as int),
        crate::math::abs_i((v.z as int) * (SCALE as int)) <= l * (SCALE as int),
{
}

/// The largest component of a nonzero vector keeps magnitude at least one
/// after rescaling by the length.
proof fn lemma_normalize_nonzero(v: Vector3, l: int)
    requires
        l >= 1,
        sq(l) <= spec_dot(v, v),
        spec_dot(v, v) < sq(l + 1),
        !(v.x == 0 && v.y == 0 && v.z == 0),
    ensures
        !(floor_div((v.x as int) * (SCALE as int), l) == 0 && floor_div(
            (v.y as int) * (SCALE as int),
            l,
        ) == 0 && floor_div((v.z as int) * (SCALE as int), l) == 0),
{
    let ax = crate::math::abs_i(v.x as int);
    let ay = crate::math::abs_i(v.y as int);
    let az = crate::math::abs_i(v.z as int);
    let m = if ax >= ay && ax >= az {
        ax
    } else if ay >= az {
        ay
    } else {
        az
    };
    assert(m >= 1);
    assert(l <= 2 * m) by (nonlinear_arith)
        requires
            sq(l) <= spec_dot(v, v),
            l >= 1,
            m >= crate::math::abs_i(v.x as int),
            m >= crate::math::abs_i(v.y as int),
            m >= crate::math::abs_i(v.z as int),
            m == crate::math::abs_i(v.x as int) || m == crate::math::abs_i(v.y as int) || m
                == crate::math::abs_i(v.z as int);
    assert(m * (SCALE as int) >= l) by (nonlinear_arith)
        requires l <= 2 * m, m >= 1, SCALE == 65536;
    if m == ax {
        lemma_scaled_component_nonzero(v.x as int, l);
    } else if m == ay {
        lemma_scaled_component_nonzero(v.y as int, l);
    } else {
        lemma_scaled_component_nonzero(v.z as int, l);
    }
}

/// A component whose magnitude times `SCALE` reaches the length has a
/// nonzero rescaled value.
proof fn lemma_scaled_component_nonzero(c: int, l: int)
    requires
        l >= 1,
        crate::math::abs_i(c) * (SCALE as int) >= l,
        c != 0,
    ensures
        floor_div(c * (SCALE as int), l) != 0,
{
    vstd::arithmetic::div_mod::lemma_fundamental_div_mod(c * (SCALE as int), l);
    assert(floor_div(c * (SCALE as int), l) != 0) by (nonlinear_arith)
        requires
            l >= 1,
            crate::math::abs_i(c) * (SCALE as int) >= l,
            c != 0,
            c * (SCALE as int) == l * (c * (SCALE as int) / l) + (c * (SCALE as int)) % l,
            0 <= (c * (SCALE as int)) % l < l,
            floor_div(c * (SCALE as int), l) == c * (SCALE as int) / l;
}

} // verus!
