//! The pseudorandom generator and the quantiser.

use raytracer::output::QuantisedColor;
use raytracer::prng::mt19937::Mt19937Prng;
use raytracer::prng::PRNG;

const ONE: i64 = 65536;

#[test]
fn generator_is_deterministic() {
    let mut a = Mt19937Prng::new(5489);
    let mut b = Mt19937Prng::new(5489);
    for _ in 0..2048 {
        assert_eq!(a.next_u32(), b.next_u32());
    }
}

#[test]
fn different_seeds_diverge() {
    let mut a = Mt19937Prng::new(1);
    let mut b = Mt19937Prng::new(2);
    let mut same = true;
    for _ in 0..16 {
        if a.next_u32() != b.next_u32() {
            same = false;
        }
    }
    assert!(!same);
}

#[test]
fn unit_samples_stay_in_range() {
    let mut rng = Mt19937Prng::new(5489);
    for _ in 0..4096 {
        let u = rng.next_unit();
        assert!((0..ONE).contains(&u));
    }
}

#[test]
fn quantised_color_scales_channels() {
    let q = QuantisedColor::new(ONE, 0, ONE / 2);
    assert_eq!((q.r, q.g, q.b), (255, 0, 127));
    let clamped = QuantisedColor::new(10 * ONE, -ONE, ONE / 4);
    assert_eq!((clamped.r, clamped.g, clamped.b), (255, 0, 63));
}
