//! Turning linear radiance into displayable pixel values.
//!
//! Image encoding itself is outside the transport core; this module only
//! quantises colors and applies the filmic curve, all in fixed point.

use vstd::prelude::*;

use crate::math::{floor_div, fp_mul, spec_clamp, SCALE};
use crate::vector::Vector3;

verus! {

/// An 8-bit-per-channel pixel.
#[derive(Clone, Copy, PartialEq, Eq, Structural, Debug)]
pub struct QuantisedColor {
    pub r: u8,
    pub g: u8,
    pub b: u8,
}

impl QuantisedColor {
    /// Clamp each fixed-point channel into `[0, 1]` and scale to `0..=255`.
    pub fn new(r: i64, g: i64, b: i64) -> (q: Self)
        ensures
            q.r == floor_div(spec_clamp(r as int, 0, SCALE as int) * 255, SCALE as int),
            q.g == floor_div(spec_clamp(g as int, 0, SCALE as int) * 255, SCALE as int),
            q.b == floor_div(spec_clamp(b as int, 0, SCALE as int) * 255, SCALE as int),
    {
        QuantisedColor { r: quantise(r), g: quantise(g), b: quantise(b) }
    }
}

/// One channel of `QuantisedColor::new`.
fn quantise(c: i64) -> (r: u8)
    ensures
        r == floor_div(spec_clamp(c as int, 0, SCALE as int) * 255, SCALE as int),
{
    let cc = crate::math::clamp64(c, 0, SCALE);
    proof {
        crate::math::lemma_mul_magnitude(cc as int, 255, SCALE as int, 255);
        crate::math::lemma_floor_div_quotient_bound(
            (cc as int) * 255,
            SCALE as int,
            255,
        );
        crate::math::lemma_floor_div_nonneg((cc as int) * 255, SCALE as int);
        assert((cc as int) * 255 >= 0) by (nonlinear_arith)
            requires cc >= 0;
    }
    crate::math::div_floor_i128((cc as i128) * 255, SCALE as i128) as u8
}

/// The perceptual luminance of a linear color, by the standard channel
/// weights.
pub fn rgb_to_luminance(color: &Vector3) -> (r: i64)
    requires
        color.op_bounded(),
    ensures
        r == floor_div(
            13937 * color.x + 46872 * color.y + 4730 * color.z,
            SCALE as int,
        ),
{
    proof {
        crate::math::lemma_mul_magnitude(13937, color.x as int, 13937, 0x4000_0000);
        crate::math::lemma_mul_magnitude(46872, color.y as int, 46872, 0x4000_0000);
        crate::math::lemma_mul_magnitude(4730, color.z as int, 4730, 0x4000_0000);
        crate::math::lemma_floor_div_magnitude(
            13937 * (color.x as int) + 46872 * (color.y as int) + 4730 * (color.z as int),
            SCALE as int,
        );
    }
    crate::math::div_floor_i128(
        13937 * (color.x as i128) + 46872 * (color.y as i128) + 4730 * (color.z as i128),
        SCALE as i128,
    ) as i64
}

/// One channel of the filmic curve: `x (a x + c b) + d e` over
/// `x (a x + b) + d f`, shifted down by `e / f`, with the usual constants in
/// fixed point. The input is clamped into `[0, 16]` first.
fn tonemap_channel(x: i64) -> (r: i64)
    ensures
        0 <= r + 4370 <= 0x10_8000,
{
    let x = crate::math::clamp64(x, 0, 0x10_0000);
    proof {
        lemma_curve_products();
    }
    let ax = fp_mul(9830, x);
    let num = fp_mul(x, ax + 3277) + 262;
    let den = fp_mul(x, ax + 32768) + 3932;
    proof {
        crate::math::lemma_floor_div_nonneg((x as int) * ((ax + 3277) as int), SCALE as int);
        crate::math::lemma_floor_div_nonneg((x as int) * ((ax + 32768) as int), SCALE as int);
        assert((x as int) * ((ax + 3277) as int) >= 0 && (x as int) * ((ax + 32768) as int) >= 0)
            by (nonlinear_arith)
            requires x >= 0, ax >= 0;
        crate::math::lemma_mul_magnitude(num as int, SCALE as int, 0x1_2000_0000, SCALE as int);
        crate::math::lemma_floor_div_quotient_bound(
            (num as int) * (SCALE as int),
            den as int,
            0x1_2000_0000_0000,
        );
        crate::math::lemma_floor_div_nonneg((num as int) * (SCALE as int), den as int);
        assert((num as int) * (SCALE as int) >= 0) by (nonlinear_arith)
            requires num >= 0;
    }
    let q = crate::math::fp_div(num, den);
    let r = crate::math::clamp64(q, 0, 0x10_4000);
    r - 4370
}

/// Curve terms stay in narrow ranges for inputs within sixteen units.
proof fn lemma_curve_products()
    ensures
        forall|a: int, b: int|
            0 <= a <= 0x10_0000 && 0 <= b <= 0x11_0000 ==> 0 <= #[trigger] floor_div(
                a * b,
                SCALE as int,
            ) <= 0x1_1000_0000,
{
    assert forall|a: int, b: int|
        0 <= a <= 0x10_0000 && 0 <= b <= 0x11_0000 implies 0 <= #[trigger] floor_div(
        a * b,
        SCALE as int,
    ) <= 0x1_1000_0000 by {
        crate::math::lemma_mul_magnitude(a, b, 0x10_0000, 0x11_0000);
        crate::math::lemma_floor_div_quotient_bound(a * b, SCALE as int, 0x1_1000_0000);
        crate::math::lemma_floor_div_nonneg(a * b, SCALE as int);
        assert(a * b >= 0) by (nonlinear_arith)
            requires a >= 0, b >= 0;
    }
}

/// The filmic curve for one color, rescaled by the curve's value at the
/// reference white point.
fn uncharted2_filmic(v: &Vector3) -> (r: Vector3)
    ensures
        -0x20_0000 <= r.x <= 0x20_0000,
        -0x20_0000 <= r.y <= 0x20_0000,
        -0x20_0000 <= r.z <= 0x20_0000,
{
    proof {
        lemma_curve_products();
    }
    let cx = tonemap_channel(2 * clamp_chan(v.x));
    let cy = tonemap_channel(2 * clamp_chan(v.y));
    let cz = tonemap_channel(2 * clamp_chan(v.z));
    // The curve value at the reference white (11.2 units), precomputed in
    // fixed point, divides the result back into range.
    let white = tonemap_channel(734003);
    let white = crate::math::max64(white, 1);
    proof {
        crate::math::lemma_mul_magnitude(cx as int, SCALE as int, 0x11_0000, SCALE as int);
        crate::math::lemma_mul_magnitude(cy as int, SCALE as int, 0x11_0000, SCALE as int);
        crate::math::lemma_mul_magnitude(cz as int, SCALE as int, 0x11_0000, SCALE as int);
        crate::math::lemma_floor_div_quotient_bound((cx as int) * (SCALE as int), white as int, 0x11_0000_0000);
        crate::math::lemma_floor_div_quotient_bound((cy as int) * (SCALE as int), white as int, 0x11_0000_0000);
        crate::math::lemma_floor_div_quotient_bound((cz as int) * (SCALE as int), white as int, 0x11_0000_0000);
    }
    let rx = crate::math::fp_div(cx, white);
    let ry = crate::math::fp_div(cy, white);
    let rz = crate::math::fp_div(cz, white);
    Vector3 {
        x: crate::math::clamp64(rx, -0x20_0000, 0x20_0000),
        y: crate::math::clamp64(ry, -0x20_0000, 0x20_0000),
        z: crate::math::clamp64(rz, -0x20_0000, 0x20_0000),
    }
}

/// Clamp a radiance channel into the curve's input range.
fn clamp_chan(c: i64) -> (r: i64)
    ensures
        0 <= r <= 0x8_0000,
{
    crate::math::clamp64(c, 0, 0x8_0000)
}

/// Tone map a whole framebuffer with the filmic curve and quantise it.
pub fn tonemap_filmic(framebuffer: &Vec<Vector3>) -> (r: Vec<QuantisedColor>)
    ensures
        r@.len() == framebuffer@.len(),
{
    let mut out: Vec<QuantisedColor> = Vec::new();
    let mut k: usize = 0;
    while k < framebuffer.len()
        invariant
            k <= framebuffer@.len(),
            out@.len() == k,
        decreases framebuffer@.len() - k,
    {
        let t = uncharted2_filmic(&framebuffer[k]);
        out.push(QuantisedColor::new(t.x, t.y, t.z));
        k += 1;
    }
    out
}

} // verus!
