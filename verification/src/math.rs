//! Fixed-point arithmetic helpers.
//!
//! Coordinates, colors and ray parameters are signed 16.16 fixed-point
//! numbers: an `i64` holding `SCALE` times the intended real value. All
//! helpers here have exact integer contracts, stated with the flooring
//! division `floor_div`.

use vstd::prelude::*;
use vstd::arithmetic::div_mod::lemma_fundamental_div_mod_converse_div;

verus! {

/// One world unit: fixed-point values count in multiples of `1 / SCALE`.
pub const SCALE: i64 = 65536;

/// Largest magnitude allowed for a scene coordinate (about 1024 world units).
pub const COORD_MAX: i64 = 0x400_0000;

/// Largest magnitude allowed for a ray parameter bound.
pub const T_MAX_BOUND: i64 = 0x10_0000_0000;

/// Mathematical floor of `n / d` for any nonzero divisor.
///
/// For a positive divisor this is the Euclidean quotient; for a negative
/// divisor both operands are negated first, which leaves the real quotient,
/// and hence its floor, unchanged.
pub open spec fn floor_div(n: int, d: int) -> int {
    if d > 0 {
        n / d
    } else {
        (-n) / (-d)
    }
}

/// Magnitude of an integer.
pub open spec fn abs_i(n: int) -> int {
    if n < 0 {
        -n
    } else {
        n
    }
}

/// Flooring division on `i128`, implemented over unsigned magnitudes.
pub fn div_floor_i128(n: i128, d: i128) -> (r: i128)
    requires
        d != 0,
        n > i128::MIN,
        d > i128::MIN,
    ensures
        r == floor_div(n as int, d as int),
        abs_i(r as int) <= abs_i(n as int),
{
    let negative = (n < 0) != (d < 0);
    let na: u128 = if n < 0 {
        (-n) as u128
    } else {
        n as u128
    };
    let da: u128 = if d < 0 {
        (-d) as u128
    } else {
        d as u128
    };
    let q = na / da;
    let rem = na % da;
    proof {
        vstd::arithmetic::div_mod::lemma_fundamental_div_mod(na as int, da as int);
        assert(q as int == na as int / da as int);
        assert(rem as int == na as int % da as int);
        assert(na as int == (q as int) * (da as int) + rem as int) by (nonlinear_arith)
            requires
                na as int == (da as int) * (na as int / da as int) + na as int % da as int,
                q as int == na as int / da as int,
                rem as int == na as int % da as int;
        assert((q as int) * (da as int) >= 0) by (nonlinear_arith)
            requires q >= 0, da >= 0;
        assert(rem > 0 ==> q as int + 1 <= na as int) by (nonlinear_arith)
            requires
                na as int == (q as int) * (da as int) + rem as int,
                da >= 1,
                q >= 0,
                rem < da;
    }
    if negative {
        if rem == 0 {
            let r = -(q as i128);
            proof {
                lemma_div_of_negated(n as int, d as int, q as int);
            }
            r
        } else {
            let r = -((q + 1) as i128);
            proof {
                lemma_div_of_negated_rem(n as int, d as int, q as int, rem as int);
            }
            r
        }
    } else {
        let r = q as i128;
        proof {
            lemma_div_same_sign(n as int, d as int, q as int, rem as int);
        }
        r
    }
}

/// When `n` and `d` have the same sign and `|n| == q * |d| + rem`,
/// the floor of `n / d` is `q`.
proof fn lemma_div_same_sign(n: int, d: int, q: int, rem: int)
    requires
        d != 0,
        (n < 0) == (d < 0),
        abs_i(n) == q * abs_i(d) + rem,
        0 <= rem < abs_i(d),
        q >= 0,
    ensures
        floor_div(n, d) == q,
{
    if d > 0 {
        lemma_fundamental_div_mod_converse_div(n, d, q, rem);
    } else {
        lemma_fundamental_div_mod_converse_div(-n, -d, q, rem);
    }
}

/// When the signs differ and the division is exact, the floor is `-q`.
proof fn lemma_div_of_negated(n: int, d: int, q: int)
    requires
        d != 0,
        (n < 0) != (d < 0),
        abs_i(n) == q * abs_i(d),
        q >= 0,
    ensures
        floor_div(n, d) == -q,
{
    if n == 0 {
        assert(q * abs_i(d) == 0);
        assert(q == 0) by (nonlinear_arith)
            requires q * abs_i(d) == 0, abs_i(d) > 0, q >= 0;
        if d > 0 {
            lemma_fundamental_div_mod_converse_div(0, d, 0, 0);
        } else {
            lemma_fundamental_div_mod_converse_div(0, -d, 0, 0);
        }
    } else if d > 0 {
        assert(n == (-q) * d) by (nonlinear_arith)
            requires abs_i(n) == q * abs_i(d), n < 0, d > 0;
        lemma_fundamental_div_mod_converse_div(n, d, -q, 0);
    } else {
        assert(-n == (-q) * (-d)) by (nonlinear_arith)
            requires abs_i(n) == q * abs_i(d), n > 0, d < 0;
        lemma_fundamental_div_mod_converse_div(-n, -d, -q, 0);
    }
}

/// When the signs differ and the division is inexact, the floor is `-q - 1`.
proof fn lemma_div_of_negated_rem(n: int, d: int, q: int, rem: int)
    requires
        d != 0,
        (n < 0) != (d < 0),
        abs_i(n) == q * abs_i(d) + rem,
        0 < rem < abs_i(d),
        q >= 0,
    ensures
        floor_div(n, d) == -q - 1,
{
    assert(q * abs_i(d) >= 0) by (nonlinear_arith)
        requires q >= 0, abs_i(d) > 0;
    if d > 0 {
        assert(n == (-q - 1) * d + (d - rem)) by (nonlinear_arith)
            requires abs_i(n) == q * abs_i(d) + rem, n < 0, d > 0;
        lemma_fundamental_div_mod_converse_div(n, d, -q - 1, d - rem);
    } else {
        assert(-n == (-q - 1) * (-d) + ((-d) - rem)) by (nonlinear_arith)
            requires abs_i(n) == q * abs_i(d) + rem, n > 0, d < 0;
        lemma_fundamental_div_mod_converse_div(-n, -d, -q - 1, (-d) - rem);
    }
}

/// Flooring division on `i64` values.
pub fn div_floor(n: i64, d: i64) -> (r: i64)
    requires
        d != 0,
        n > i64::MIN,
    ensures
        r == floor_div(n as int, d as int),
{
    let r = div_floor_i128(n as i128, d as i128);
    proof {
        assert(abs_i(r as int) <= abs_i(n as int));
    }
    r as i64
}

/// The square of an integer.
pub open spec fn sq(x: int) -> int {
    x * x
}

/// Integer square root: the floor of the real square root of `n`.
pub fn isqrt_u128(n: u128) -> (r: u128)
    ensures
        r * r <= n,
        n < sq(r as int + 1),
        r < 0x1_0000_0000_0000_0000,
{
    let mut lo: u128 = 0;
    let mut hi: u128 = 0x1_0000_0000_0000_0000;
    proof {
        assert((hi as int) * (hi as int) > n as int) by (nonlinear_arith)
            requires hi == 0x1_0000_0000_0000_0000, n <= u128::MAX;
    }
    while lo + 1 < hi
        invariant
            lo < hi,
            hi <= 0x1_0000_0000_0000_0000,
            (lo as int) * (lo as int) <= n as int,
            (hi as int) * (hi as int) > n as int,
        decreases hi - lo,
    {
        let mid = lo + (hi - lo) / 2;
        proof {
            assert(lo < mid < hi);
            assert((mid as int) * (mid as int) < 0x1_0000_0000_0000_0000_0000_0000_0000_0000)
                by (nonlinear_arith)
                requires mid < 0x1_0000_0000_0000_0000;
        }
        if mid * mid <= n {
            lo = mid;
        } else {
            hi = mid;
        }
    }
    lo
}

/// Fixed-point product: the floor of `a * b / SCALE`.
pub fn fp_mul(a: i64, b: i64) -> (r: i64)
    requires
        i64::MIN <= floor_div(a as int * b as int, SCALE as int) <= i64::MAX,
    ensures
        r == floor_div(a as int * b as int, SCALE as int),
{
    let p = (a as i128) * (b as i128);
    let r = div_floor_i128(p, SCALE as i128);
    r as i64
}

/// Fixed-point quotient: the floor of `a * SCALE / b`.
pub fn fp_div(a: i64, b: i64) -> (r: i64)
    requires
        b != 0,
        i64::MIN <= floor_div(a as int * SCALE as int, b as int) <= i64::MAX,
    ensures
        r == floor_div(a as int * SCALE as int, b as int),
{
    let p = (a as i128) * (SCALE as i128);
    let r = div_floor_i128(p, b as i128);
    r as i64
}

/// Fixed-point square root of a nonnegative fixed-point value:
/// the floor of the square root of `a * SCALE`, still in fixed point.
pub fn fp_sqrt(a: i64) -> (r: i64)
    requires
        a >= 0,
    ensures
        r >= 0,
        sq(r as int) <= (a as int) * (SCALE as int),
        (a as int) * (SCALE as int) < sq(r as int + 1),
        r == spec_isqrt((a as int) * (SCALE as int)),
{
    let n = (a as u128) * (SCALE as u128);
    let r = isqrt_u128(n);
    proof {
        lemma_isqrt_is(r as int, n as int);
    }
    proof {
        lemma_sqrt_fits(r as int, n as int, a as int);
    }
    r as i64
}

/// A square root of a value at most `i64::MAX * SCALE` fits comfortably in `i64`.
proof fn lemma_sqrt_fits(r: int, n: int, a: int)
    by (nonlinear_arith)
    requires
        r * r <= n,
        n <= a * SCALE as int,
        a <= i64::MAX,
        r >= 0,
    ensures
        r <= 0x1_0000_0000_0000,
{
}

/// Smaller of two values.
pub fn min64(a: i64, b: i64) -> (r: i64)
    ensures
        r == (if (a as int) <= b as int { a as int } else { b as int }),
{
    if a <= b {
        a
    } else {
        b
    }
}

/// Larger of two values.
pub fn max64(a: i64, b: i64) -> (r: i64)
    ensures
        r == (if a as int >= b as int { a as int } else { b as int }),
{
    if a >= b {
        a
    } else {
        b
    }
}

/// Clamp `v` into `[lo, hi]`.
pub fn clamp64(v: i64, lo: i64, hi: i64) -> (r: i64)
    requires
        lo <= hi,
    ensures
        r == spec_clamp(v as int, lo as int, hi as int),
{
    if v < lo {
        lo
    } else if v > hi {
        hi
    } else {
        v
    }
}

/// The value of `clamp64`.
pub open spec fn spec_clamp(v: int, lo: int, hi: int) -> int {
    if v < lo {
        lo
    } else if v > hi {
        hi
    } else {
        v
    }
}

/// A ray-parameter value the library accepts.
pub open spec fn t_in_bounds(t: int) -> bool {
    -(T_MAX_BOUND as int) <= t <= T_MAX_BOUND as int
}

/// A scene coordinate the library accepts.
pub open spec fn coord_in_bounds(c: int) -> bool {
    -(COORD_MAX as int) <= c <= COORD_MAX as int
}

/// The floor of a quotient is no larger in magnitude than the numerator.
pub proof fn lemma_floor_div_magnitude(n: int, d: int)
    requires
        d != 0,
    ensures
        abs_i(floor_div(n, d)) <= abs_i(n),
{
    if d > 0 {
        vstd::arithmetic::div_mod::lemma_fundamental_div_mod(n, d);
        assert(abs_i(n / d) <= abs_i(n)) by (nonlinear_arith)
            requires
                n == d * (n / d) + n % d,
                0 <= n % d < d,
                d >= 1;
    } else {
        vstd::arithmetic::div_mod::lemma_fundamental_div_mod(-n, -d);
        assert(abs_i((-n) / (-d)) <= abs_i(n)) by (nonlinear_arith)
            requires
                -n == (-d) * ((-n) / (-d)) + (-n) % (-d),
                0 <= (-n) % (-d) < -d,
                -d >= 1;
    }
}

/// Bound on the magnitude of a product from bounds on the factors.
pub proof fn lemma_mul_magnitude(a: int, b: int, ma: int, mb: int)
    by (nonlinear_arith)
    requires
        abs_i(a) <= ma,
        abs_i(b) <= mb,
    ensures
        abs_i(a * b) <= ma * mb,
{
}

/// If `|n| <= d * m` then the flooring quotient of `n` by `d` has magnitude
/// at most `m`.
pub proof fn lemma_floor_div_quotient_bound(n: int, d: int, m: int)
    requires
        d >= 1,
        m >= 0,
        abs_i(n) <= d * m,
    ensures
        abs_i(floor_div(n, d)) <= m,
{
    vstd::arithmetic::div_mod::lemma_fundamental_div_mod(n, d);
    assert(abs_i(n / d) <= m) by (nonlinear_arith)
        requires
            n == d * (n / d) + n % d,
            0 <= n % d < d,
            d >= 1,
            m >= 0,
            abs_i(n) <= d * m;
}

/// The integer square root as a spec value: the unique nonnegative `r` with
/// `r * r <= n < (r + 1) * (r + 1)`.
pub open spec fn spec_isqrt(n: int) -> int {
    choose|r: int| r >= 0 && #[trigger] sq(r) <= n && n < sq(r + 1)
}

/// Two integers that both bracket `n` between their square and the next
/// square are equal.
pub proof fn lemma_isqrt_unique(a: int, b: int, n: int)
    by (nonlinear_arith)
    requires
        a >= 0,
        b >= 0,
        sq(a) <= n < sq(a + 1),
        sq(b) <= n < sq(b + 1),
    ensures
        a == b,
{
}

/// A witness makes `spec_isqrt` concrete.
pub proof fn lemma_isqrt_is(r: int, n: int)
    requires
        r >= 0,
        sq(r) <= n < sq(r + 1),
    ensures
        r == spec_isqrt(n),
{
    let w = spec_isqrt(n);
    assert(w >= 0 && sq(w) <= n < sq(w + 1));
    lemma_isqrt_unique(r, w, n);
}

/// The flooring quotient of a nonnegative value by a positive divisor is
/// nonnegative.
pub proof fn lemma_floor_div_nonneg(n: int, d: int)
    requires
        n >= 0,
        d >= 1,
    ensures
        floor_div(n, d) >= 0,
{
    vstd::arithmetic::div_mod::lemma_fundamental_div_mod(n, d);
    assert(n / d >= 0) by (nonlinear_arith)
        requires
            n == d * (n / d) + n % d,
            0 <= n % d < d,
            d >= 1,
            n >= 0;
}

/// The flooring quotient is at least one when the numerator reaches the
/// divisor.
pub proof fn lemma_floor_div_at_least_one(n: int, d: int)
    requires
        1 <= d <= n,
    ensures
        floor_div(n, d) >= 1,
{
    vstd::arithmetic::div_mod::lemma_fundamental_div_mod(n, d);
    assert(n / d >= 1) by (nonlinear_arith)
        requires
            n == d * (n / d) + n % d,
            0 <= n % d < d,
            1 <= d <= n;
}

/// Every nonnegative integer has an integer square root, so `spec_isqrt` is
/// well defined on them.
pub proof fn lemma_isqrt_exists(n: int)
    requires
        n >= 0,
    ensures
        spec_isqrt(n) >= 0,
        sq(spec_isqrt(n)) <= n,
        n < sq(spec_isqrt(n) + 1),
    decreases n,
{
    if n == 0 {
        assert(sq(0) <= 0 < sq(1)) by (nonlinear_arith);
        lemma_isqrt_is(0, 0);
    } else {
        lemma_isqrt_exists(n - 1);
        let r = spec_isqrt(n - 1);
        if sq(r + 1) <= n {
            assert(sq(r + 1) <= n < sq(r + 2)) by (nonlinear_arith)
                requires n - 1 < sq(r + 1), sq(r + 1) <= n, r >= 0;
            lemma_isqrt_is(r + 1, n);
        } else {
            assert(sq(r) <= n < sq(r + 1));
            lemma_isqrt_is(r, n);
        }
    }
}

} // verus!
