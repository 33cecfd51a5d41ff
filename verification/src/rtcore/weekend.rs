//! The bounded-depth path-tracing integrator.
//!
//! Of the two termination disciplines the transport core could use, this
//! library implements exactly one: a hard depth cutoff. At depth zero the
//! integrator returns the baseline color without touching the scene or the
//! generator; otherwise one scatter is taken and the recursion continues
//! with the depth reduced by one. (The alternative, Russian-roulette
//! termination with an explicit self-emission term, is deliberately not
//! implemented, so the estimator in use is unambiguous.)

use vstd::prelude::*;

use crate::material::{color_bounded_emission, half_offset, spec_emitted, spec_world_gradient,
    Material};
use crate::math::{floor_div, SCALE};
use crate::point::Point3;
use crate::prng::PRNG;
use crate::primitive::{is_best_hit, prim_hit};
use crate::ray::{HitRecord, Ray};
use crate::scene::Scene;
use crate::vector::Vector3;

verus! {

/// The lower intersection cutoff: about a thousandth of a unit.
pub const T_MIN_EPS: i64 = 65;

/// The upper intersection cutoff: one hundred thousand units.
pub const T_MAX_FAR: i64 = 0x1_86A0_0000;

/// Largest magnitude a radiance channel can reach: results are saturated
/// here so every accumulation stays exact.
pub const RADIANCE_MAX: i64 = 0x100_0000_0000;

/// A radiance value within the saturation bound.
pub open spec fn radiance_bounded(v: Vector3) -> bool {
    -RADIANCE_MAX <= v.x <= RADIANCE_MAX && -RADIANCE_MAX <= v.y <= RADIANCE_MAX && -RADIANCE_MAX
        <= v.z <= RADIANCE_MAX
}

/// The scene reports no hit for the ray inside the integrator's range.
pub open spec fn scene_misses(scene: Scene, ray: Ray) -> bool {
    forall|i: int|
        0 <= i < scene.spec_all_elements().len() ==> prim_hit(
            #[trigger] scene.spec_all_elements()[i],
            ray,
            T_MIN_EPS as int,
            T_MAX_FAR as int,
        ) is None
}


/// The baseline color returned when the recursion bottoms out.
pub open spec fn spec_white() -> Vector3 {
    Vector3 { x: SCALE as i64, y: SCALE as i64, z: SCALE as i64 }
}

/// The color of an absorbed or missed ray.
pub open spec fn spec_black() -> Vector3 {
    Vector3 { x: 0i64, y: 0i64, z: 0i64 }
}

/// Channelwise saturating fixed-point modulation, as a spec value: each
/// channel is the floored product of the attenuation and light channels,
/// clamped into the radiance range.
pub open spec fn spec_attenuate(att: Vector3, light: Vector3) -> Vector3 {
    Vector3 {
        x: crate::math::spec_clamp(
            floor_div((att.x as int) * (light.x as int), SCALE as int),
            -(RADIANCE_MAX as int),
            RADIANCE_MAX as int,
        ) as i64,
        y: crate::math::spec_clamp(
            floor_div((att.y as int) * (light.y as int), SCALE as int),
            -(RADIANCE_MAX as int),
            RADIANCE_MAX as int,
        ) as i64,
        z: crate::math::spec_clamp(
            floor_div((att.z as int) * (light.z as int), SCALE as int),
            -(RADIANCE_MAX as int),
            RADIANCE_MAX as int,
        ) as i64,
    }
}

/// The transport rule for one returned hit: what the estimate is, given the
/// hit's material. Surfaces that never scatter pin the result exactly; a
/// scattering surface pins it to its attenuation modulating some bounded
/// recursive estimate, which at depth one is the baseline itself. A metal
/// hit may instead be absorbed (black) when the reflected ray leaves below
/// the surface.
pub open spec fn spec_hit_radiance(h: HitRecord, ray: Ray, r: Vector3, depth: int) -> bool {
    match h.material {
        None => r == spec_black(),
        Some(m) => match m {
            Material::Emissive(em) => r == spec_emitted(em),
            Material::Normal(_) => r == half_offset(h.normal),
            Material::World(w) => r == spec_world_gradient(w, ray),
            Material::Diffuse(d) => exists|rest: Vector3|
                radiance_bounded(rest) && (depth == 1 ==> rest == spec_white()) && r
                    == #[trigger] spec_attenuate(d.albedo, rest),
            Material::Metal(mm) => (exists|rest: Vector3|
                radiance_bounded(rest) && (depth == 1 ==> rest == spec_white()) && r
                    == #[trigger] spec_attenuate(mm.albedo, rest)) || r == spec_black(),
            Material::Dielectric(_) => exists|rest: Vector3|
                radiance_bounded(rest) && (depth == 1 ==> rest == spec_white()) && r
                    == #[trigger] spec_attenuate(spec_white(), rest),
        },
    }
}

/// Channelwise saturating fixed-point modulation of a radiance value by an
/// attenuation color.
fn attenuate(att: &Vector3, light: &Vector3) -> (r: Vector3)
    requires
        color_bounded_emission(*att),
        radiance_bounded(*light),
    ensures
        r == spec_attenuate(*att, *light),
        radiance_bounded(r),
{
    proof {
        lemma_attenuation_fits();
    }
    let x = clamp_radiance(crate::math::div_floor_i128(
        (att.x as i128) * (light.x as i128),
        SCALE as i128,
    ));
    let y = clamp_radiance(crate::math::div_floor_i128(
        (att.y as i128) * (light.y as i128),
        SCALE as i128,
    ));
    let z = clamp_radiance(crate::math::div_floor_i128(
        (att.z as i128) * (light.z as i128),
        SCALE as i128,
    ));
    Vector3 { x, y, z }
}

/// Saturate a wide channel value into the radiance range.
fn clamp_radiance(v: i128) -> (r: i64)
    ensures
        r == crate::math::spec_clamp(v as int, -(RADIANCE_MAX as int), RADIANCE_MAX as int),
{
    if v < -(RADIANCE_MAX as i128) {
        -RADIANCE_MAX
    } else if v > RADIANCE_MAX as i128 {
        RADIANCE_MAX
    } else {
        v as i64
    }
}

/// Attenuation products stay far inside the machine word.
proof fn lemma_attenuation_fits()
    ensures
        forall|a: int, b: int|
            -0x100_0000 <= a <= 0x100_0000 && -(RADIANCE_MAX as int) <= b <= RADIANCE_MAX as int
                ==> crate::math::abs_i(#[trigger] (a * b)) <= 0x1_0000_0000_0000_0000_0000
                && crate::math::abs_i(floor_div(a * b, SCALE as int)) <= 0x1_0000_0000_0000_0000,
{
    assert forall|a: int, b: int|
        -0x100_0000 <= a <= 0x100_0000 && -(RADIANCE_MAX as int) <= b
            <= RADIANCE_MAX as int implies crate::math::abs_i(#[trigger] (a * b))
        <= 0x1_0000_0000_0000_0000_0000 && crate::math::abs_i(floor_div(a * b, SCALE as int))
        <= 0x1_0000_0000_0000_0000 by {
        crate::math::lemma_mul_magnitude(a, b, 0x100_0000, RADIANCE_MAX as int);
        crate::math::lemma_floor_div_quotient_bound(
            a * b,
            SCALE as int,
            0x1_0000_0000_0000_0000,
        );
    }
}

/// The recursive radiance estimate for a ray.
///
/// At depth zero the baseline color (white) is returned and nothing else
/// happens: the scene is not queried and the generator state is untouched.
/// Otherwise the closest hit is scattered once; a scattering surface
/// contributes its attenuation times the recursive estimate, an emissive
/// surface contributes its own color, anything else is black, and a missed
/// ray is black as well.
#[verifier::spinoff_prover]
#[verifier::rlimit(100)]
pub fn ray_color_weekend<R: PRNG>(ray: &Ray, depth: usize, scene: &Scene, rng: &mut R) -> (r:
    Vector3)
    requires
        old(rng).inv(),
        scene.wf(),
        ray.wf(),
        -2 * SCALE <= ray.direction.x <= 2 * SCALE,
        -2 * SCALE <= ray.direction.y <= 2 * SCALE,
        -2 * SCALE <= ray.direction.z <= 2 * SCALE,
    ensures
        final(rng).inv(),
        radiance_bounded(r),
        depth == 0 ==> r == spec_white() && *final(rng) == *old(rng),
        depth > 0 && scene_misses(*scene, *ray) ==> r == spec_black(),
        depth > 0 ==> (scene_misses(*scene, *ray) && r == spec_black()) || (exists|h: HitRecord|
            #[trigger] is_best_hit(
                scene.spec_all_elements(),
                *ray,
                T_MIN_EPS as int,
                T_MAX_FAR as int,
                Some(h),
            ) && spec_hit_radiance(h, *ray, r, depth as int)),
    decreases depth,
{
    if depth == 0 {
        return Vector3 { x: SCALE, y: SCALE, z: SCALE };
    }
    let mut record = HitRecord::new();
    let hit = scene.intersect(ray, T_MIN_EPS, T_MAX_FAR, &mut record);
    if hit {
        proof {
            if scene_misses(*scene, *ray) {
                let h = record;
                assert(exists|i: int|
                    0 <= i < scene.spec_all_elements().len() && prim_hit(
                        #[trigger] scene.spec_all_elements()[i],
                        *ray,
                        T_MIN_EPS as int,
                        T_MAX_FAR as int,
                    ) == Some(h));
                assert(false);
            }
        }
        let ghost best = record;
        let mut next_ray = Ray {
            origin: Point3 { x: 0, y: 0, z: 0 },
            direction: Vector3 { x: 0, y: 0, z: SCALE },
        };
        let mut attenuation = Vector3 { x: 0, y: 0, z: 0 };
        match record.material {
            Some(material) => {
                proof {
                    lemma_hit_material_wf(*scene, *ray, record);
                }
                let scattered = material.scatter(ray, &mut next_ray, &mut attenuation, &record, rng);
                if scattered {
                    let incoming = ray_color_weekend(&next_ray, depth - 1, scene, rng);
                    let out = attenuate(&attenuation, &incoming);
                    proof {
                        match material {
                            Material::Diffuse(d) => {
                                assert(out == spec_attenuate(d.albedo, incoming));
                            },
                            Material::Metal(mm) => {
                                assert(out == spec_attenuate(mm.albedo, incoming));
                            },
                            Material::Dielectric(_) => {
                                assert(out == spec_attenuate(spec_white(), incoming));
                            },
                            Material::Normal(_) => {
                                assert(false);
                            },
                            Material::Emissive(_) => {
                                assert(false);
                            },
                            Material::World(_) => {
                                assert(false);
                            },
                        }
                        assert(spec_hit_radiance(best, *ray, out, depth as int));
                    }
                    return out;
                }
                if material.is_emissive() {
                    proof {
                        assert(spec_hit_radiance(best, *ray, attenuation, depth as int));
                    }
                    return attenuation;
                }
                proof {
                    assert(spec_hit_radiance(best, *ray, spec_black(), depth as int));
                }
                Vector3 { x: 0, y: 0, z: 0 }
            },
            None => {
                proof {
                    assert(spec_hit_radiance(best, *ray, spec_black(), depth as int));
                }
                Vector3 { x: 0, y: 0, z: 0 }
            },
        }
    } else {
        proof {
            assert(scene_misses(*scene, *ray));
        }
        Vector3 { x: 0, y: 0, z: 0 }
    }
}

/// The material carried by a hit of a well-formed scene is well formed.
proof fn lemma_hit_material_wf(scene: Scene, ray: Ray, record: HitRecord)
    requires
        scene.wf(),
        record.material is Some,
        exists|i: int|
            0 <= i < scene.spec_all_elements().len() && prim_hit(
                #[trigger] scene.spec_all_elements()[i],
                ray,
                T_MIN_EPS as int,
                T_MAX_FAR as int,
            ) == Some(record),
    ensures
        record.material.unwrap().wf(),
{
    let i = choose|i: int|
        0 <= i < scene.spec_all_elements().len() && prim_hit(
            #[trigger] scene.spec_all_elements()[i],
            ray,
            T_MIN_EPS as int,
            T_MAX_FAR as int,
        ) == Some(record);
    let p = scene.spec_all_elements()[i];
    assert(p.wf()) by {
        if i < scene.lights@.len() {
            assert(p == scene.lights@[i]);
        } else {
            assert(p == scene.objects@[i - scene.lights@.len()]);
        }
    }
    match p {
        crate::primitive::Primitive::Sphere(s) => {
            assert(record.material == Some(s.material));
        },
        crate::primitive::Primitive::Triangle(t) => {
            assert(record.material == t.material);
        },
    }
}

} // verus!
