//! Surface materials.
//!
//! The transport core consumes materials only through the capability set
//! `{is_emissive, counts_as_light, scatter, emission_at}`; the concrete
//! shading rules are deliberately thin. The material set is closed, so the
//! dispatch is a match over `Material` rather than a trait object.

use vstd::prelude::*;

use crate::math::{floor_div, fp_mul, max64, SCALE};
use crate::prng::PRNG;
use crate::ray::{HitRecord, Ray};
use crate::utils::{random_vector, random_vector_in_unit_sphere, reflect_vector};
use crate::vector::{spec_dot, Vector3};

verus! {

/// A diffuse surface: scattered rays leave around the surface normal, and
/// the stored albedo is kept normalized.
#[derive(Clone, Copy, PartialEq, Eq, Structural, Debug)]
pub struct DiffuseMaterial {
    pub albedo: Vector3,
}

/// A reflective surface with a roughness knob in `[0, 1]` fixed point.
#[derive(Clone, Copy, PartialEq, Eq, Structural, Debug)]
pub struct MetalMaterial {
    pub roughness: i64,
    pub albedo: Vector3,
}

/// A transparent surface with an index of refraction in fixed point.
#[derive(Clone, Copy, PartialEq, Eq, Structural, Debug)]
pub struct DielectricMaterial {
    pub ior: i64,
}

/// A debugging surface that emits its own shading normal as a color.
#[derive(Clone, Copy, PartialEq, Eq, Structural, Debug)]
pub struct NormalMaterial {}

/// A light source: emits `albedo * intensity` and never scatters.
#[derive(Clone, Copy, PartialEq, Eq, Structural, Debug)]
pub struct EmissiveMaterial {
    pub albedo: Vector3,
    pub intensity: i64,
}

/// The sky: a vertical gradient between two albedos, emissive, not a light.
#[derive(Clone, Copy, PartialEq, Eq, Structural, Debug)]
pub struct WorldMaterial {
    pub albedo_top: Vector3,
    pub albedo_bottom: Vector3,
}

/// The closed set of materials the renderer knows.
#[derive(Clone, Copy, PartialEq, Eq, Structural, Debug)]
pub enum Material {
    Diffuse(DiffuseMaterial),
    Metal(MetalMaterial),
    Dielectric(DielectricMaterial),
    Normal(NormalMaterial),
    Emissive(EmissiveMaterial),
    World(WorldMaterial),
}

/// A color channel value a material may carry.
pub open spec fn channel_bounded(c: int) -> bool {
    -0x10_0000 <= c <= 0x10_0000
}

/// A color a material may carry: every channel within sixteen units.
pub open spec fn color_bounded(v: Vector3) -> bool {
    channel_bounded(v.x as int) && channel_bounded(v.y as int) && channel_bounded(v.z as int)
}

impl DiffuseMaterial {
    /// The albedo handed in is normalized before it is stored.
    pub fn new(albedo: Vector3) -> (r: Self)
        requires
            albedo.wf(),
            !(albedo.x == 0 && albedo.y == 0 && albedo.z == 0),
        ensures
            r.albedo == albedo.spec_normalize(),
            color_bounded(r.albedo),
    {
        DiffuseMaterial { albedo: albedo.normalize() }
    }
}

impl MetalMaterial {
    pub fn new(albedo: Vector3, roughness: i64) -> (r: Self)
        requires
            color_bounded(albedo),
            0 <= roughness <= SCALE,
        ensures
            r.albedo == albedo,
            r.roughness == roughness,
    {
        MetalMaterial { roughness, albedo }
    }
}

impl DielectricMaterial {
    pub fn new(ior: i64) -> (r: Self)
        requires
            SCALE <= ior <= 16 * SCALE,
        ensures
            r.ior == ior,
    {
        DielectricMaterial { ior }
    }

    /// Schlick's reflectance approximation, in fixed point.
    fn reflectance(cosine_angle: i64, refractive_index: i64) -> (r: i64)
        requires
            0 <= cosine_angle <= SCALE,
            1 <= refractive_index <= 0x1000_0000,
        ensures
            0 <= r <= 0x1_0000_0000,
    {
        let num = SCALE - refractive_index;
        let den = SCALE + refractive_index;
        proof {
            crate::math::lemma_mul_magnitude(num as int, SCALE as int, 0x1000_0000, SCALE as int);
            crate::math::lemma_floor_div_quotient_bound(
                (num as int) * (SCALE as int),
                den as int,
                0x1000_0000_0000,
            );
        }
        let r0 = crate::math::fp_div(num, den);
        let r0c = crate::math::clamp64(r0, -SCALE, SCALE);
        proof {
            lemma_unit_fp_products();
            assert((r0c as int) * (r0c as int) >= 0) by (nonlinear_arith);
            crate::math::lemma_floor_div_nonneg((r0c as int) * (r0c as int), SCALE as int);
        }
        let r0s = fp_mul(r0c, r0c);
        let b = SCALE - cosine_angle;
        proof {
            assert((b as int) * (b as int) >= 0) by (nonlinear_arith);
            crate::math::lemma_floor_div_nonneg((b as int) * (b as int), SCALE as int);
        }
        let b2 = fp_mul(b, b);
        proof {
            assert((b2 as int) * (b2 as int) >= 0) by (nonlinear_arith);
            crate::math::lemma_floor_div_nonneg((b2 as int) * (b2 as int), SCALE as int);
        }
        let b4 = fp_mul(b2, b2);
        proof {
            assert((b4 as int) * (b as int) >= 0) by (nonlinear_arith)
                requires b4 >= 0, b >= 0;
            crate::math::lemma_floor_div_nonneg((b4 as int) * (b as int), SCALE as int);
        }
        let b5 = fp_mul(b4, b);
        proof {
            assert(((SCALE - r0s) as int) * (b5 as int) >= 0) by (nonlinear_arith)
                requires 0 <= r0s <= SCALE as int, b5 >= 0;
            crate::math::lemma_floor_div_nonneg(((SCALE - r0s) as int) * (b5 as int), SCALE as int);
        }
        let tail = fp_mul(SCALE - r0s, b5);
        r0s + tail
    }
}

/// Fixed-point products of values within one unit stay within one unit.
proof fn lemma_unit_fp_products()
    ensures
        forall|a: int, b: int|
            -(SCALE as int) <= a <= SCALE as int && -(SCALE as int) <= b <= SCALE as int
                ==> -(SCALE as int) <= #[trigger] floor_div(a * b, SCALE as int) <= SCALE as int,
{
    assert forall|a: int, b: int|
        -(SCALE as int) <= a <= SCALE as int && -(SCALE as int) <= b
            <= SCALE as int implies -(SCALE as int) <= #[trigger] floor_div(a * b, SCALE as int)
        <= SCALE as int by {
        crate::math::lemma_mul_magnitude(a, b, SCALE as int, SCALE as int);
        crate::math::lemma_floor_div_quotient_bound(a * b, SCALE as int, SCALE as int);
    }
}

impl NormalMaterial {
    pub fn new() -> (r: Self)
        ensures
            r == (NormalMaterial {  }),
    {
        NormalMaterial {  }
    }
}

/// The radiance an emissive material emits: `albedo * intensity`,
/// channelwise in fixed point.
pub open spec fn spec_emitted(m: EmissiveMaterial) -> Vector3 {
    Vector3 {
        x: floor_div((m.albedo.x as int) * (m.intensity as int), SCALE as int) as i64,
        y: floor_div((m.albedo.y as int) * (m.intensity as int), SCALE as int) as i64,
        z: floor_div((m.albedo.z as int) * (m.intensity as int), SCALE as int) as i64,
    }
}

impl EmissiveMaterial {
    pub fn new(albedo: Vector3, intensity: i64) -> (r: Self)
        requires
            color_bounded(albedo),
            0 <= intensity <= 16 * SCALE,
        ensures
            r.albedo == albedo,
            r.intensity == intensity,
    {
        EmissiveMaterial { albedo, intensity }
    }

    /// The emitted radiance: `albedo * intensity`, channelwise.
    fn emitted(&self) -> (r: Vector3)
        requires
            color_bounded(self.albedo),
            0 <= self.intensity <= 16 * SCALE,
        ensures
            r == spec_emitted(*self),
            color_bounded_emission(r),
    {
        proof {
            lemma_emission_bounds(self.albedo, self.intensity as int);
        }
        self.albedo.scale(self.intensity)
    }
}

/// An emitted radiance channel: at most 256 units in magnitude.
pub open spec fn color_bounded_emission(v: Vector3) -> bool {
    -0x100_0000 <= v.x <= 0x100_0000 && -0x100_0000 <= v.y <= 0x100_0000 && -0x100_0000 <= v.z
        <= 0x100_0000
}

/// Scaling a bounded color by a bounded intensity keeps 256-unit bounds.
proof fn lemma_emission_bounds(albedo: Vector3, intensity: int)
    requires
        color_bounded(albedo),
        0 <= intensity <= 16 * (SCALE as int),
    ensures
        forall|c: int|
            channel_bounded(c) ==> -0x100_0000 <= #[trigger] floor_div(
                c * intensity,
                SCALE as int,
            ) <= 0x100_0000,
{
    assert forall|c: int| channel_bounded(c) implies -0x100_0000 <= #[trigger] floor_div(
        c * intensity,
        SCALE as int,
    ) <= 0x100_0000 by {
        crate::math::lemma_mul_magnitude(c, intensity, 0x10_0000, 16 * (SCALE as int));
        crate::math::lemma_floor_div_quotient_bound(c * intensity, SCALE as int, 0x100_0000);
    }
}

impl WorldMaterial {
    pub fn new(albedo_top: Vector3, albedo_bottom: Vector3) -> (r: Self)
        requires
            color_bounded(albedo_top),
            color_bounded(albedo_bottom),
        ensures
            r.albedo_top == albedo_top,
            r.albedo_bottom == albedo_bottom,
    {
        WorldMaterial { albedo_top, albedo_bottom }
    }

    /// The vertical gradient: blend the two albedos by
    /// `t = (direction.y + 1) / 2`, clamped into `[0, 1]`.
    fn gradient(&self, ray: &Ray) -> (r: Vector3)
        requires
            color_bounded(self.albedo_top),
            color_bounded(self.albedo_bottom),
            ray.wf(),
        ensures
            r == spec_world_gradient(*self, *ray),
            color_bounded_emission(r),
    {
        let t = crate::math::clamp64(crate::math::div_floor(ray.direction.y + SCALE, 2), 0, SCALE);
        proof {
            lemma_gradient_bounds();
        }
        let top = self.albedo_top.scale(t);
        let bottom = self.albedo_bottom.scale(SCALE - t);
        bottom.add(&top)
    }
}

/// The sky gradient color for a ray.
pub open spec fn spec_world_gradient(m: WorldMaterial, ray: Ray) -> Vector3 {
    let t = crate::math::spec_clamp(
        floor_div(ray.direction.y + SCALE as int, 2),
        0,
        SCALE as int,
    );
    Vector3 {
        x: (floor_div((m.albedo_bottom.x as int) * ((SCALE as int) - t), SCALE as int) + floor_div(
            (m.albedo_top.x as int) * t,
            SCALE as int,
        )) as i64,
        y: (floor_div((m.albedo_bottom.y as int) * ((SCALE as int) - t), SCALE as int) + floor_div(
            (m.albedo_top.y as int) * t,
            SCALE as int,
        )) as i64,
        z: (floor_div((m.albedo_bottom.z as int) * ((SCALE as int) - t), SCALE as int) + floor_div(
            (m.albedo_top.z as int) * t,
            SCALE as int,
        )) as i64,
    }
}

/// Gradient terms stay within the color channel bounds.
proof fn lemma_gradient_bounds()
    ensures
        forall|c: int, w: int|
            channel_bounded(c) && 0 <= w <= SCALE as int ==> -0x10_0000 <= #[trigger] floor_div(
                c * w,
                SCALE as int,
            ) <= 0x10_0000,
{
    assert forall|c: int, w: int|
        channel_bounded(c) && 0 <= w <= SCALE as int implies -0x10_0000 <= #[trigger] floor_div(
        c * w,
        SCALE as int,
    ) <= 0x10_0000 by {
        crate::math::lemma_mul_magnitude(c, w, 0x10_0000, SCALE as int);
        crate::math::lemma_floor_div_quotient_bound(c * w, SCALE as int, 0x10_0000);
    }
}

impl Material {
    /// The colors and knobs carried by the material are within their ranges.
    pub open spec fn wf(self) -> bool {
        match self {
            Material::Diffuse(m) => color_bounded(m.albedo),
            Material::Metal(m) => color_bounded(m.albedo) && 0 <= m.roughness <= SCALE,
            Material::Dielectric(m) => SCALE <= m.ior <= 16 * SCALE,
            Material::Normal(_) => true,
            Material::Emissive(m) => color_bounded(m.albedo) && 0 <= m.intensity <= 16 * SCALE,
            Material::World(m) => color_bounded(m.albedo_top) && color_bounded(m.albedo_bottom),
        }
    }

    /// Whether the surface emits light of its own.
    pub fn is_emissive(&self) -> (r: bool)
        ensures
            r == self.spec_is_emissive(),
    {
        match self {
            Material::Diffuse(_) => false,
            Material::Metal(_) => false,
            Material::Dielectric(_) => false,
            Material::Normal(_) => true,
            Material::Emissive(_) => true,
            Material::World(_) => true,
        }
    }

    /// The emissive variants: normals, lights and the sky.
    pub open spec fn spec_is_emissive(self) -> bool {
        match self {
            Material::Normal(_) => true,
            Material::Emissive(_) => true,
            Material::World(_) => true,
            _ => false,
        }
    }

    /// Whether the scene should treat a surface with this material as a
    /// light source.
    pub fn counts_as_light(&self) -> (r: bool)
        ensures
            r == self.spec_counts_as_light(),
    {
        match self {
            Material::Normal(_) => true,
            Material::Emissive(_) => true,
            _ => false,
        }
    }

    /// The variants classified into the scene's light list.
    pub open spec fn spec_counts_as_light(self) -> bool {
        match self {
            Material::Normal(_) => true,
            Material::Emissive(_) => true,
            _ => false,
        }
    }

    /// The material's response to a hit. On `true`, `next_ray` starts at the
    /// hit point and `attenuation` carries the throughput factor; on
    /// `false`, `attenuation` carries the emitted or debug color instead.
    pub fn scatter<R: PRNG>(
        &self,
        ray: &Ray,
        next_ray: &mut Ray,
        attenuation: &mut Vector3,
        record: &HitRecord,
        rng: &mut R,
    ) -> (r: bool)
        requires
            old(rng).inv(),
            self.wf(),
            record.wf(),
            ray.wf(),
            -2 * SCALE <= ray.direction.x <= 2 * SCALE,
            -2 * SCALE <= ray.direction.y <= 2 * SCALE,
            -2 * SCALE <= ray.direction.z <= 2 * SCALE,
        ensures
            final(rng).inv(),
            r ==> ({
                let nr = *final(next_ray);
                nr.origin == record.point && nr.wf() && -2 * SCALE <= nr.direction.x <= 2 * SCALE
                    && -2 * SCALE <= nr.direction.y <= 2 * SCALE && -2 * SCALE <= nr.direction.z
                    <= 2 * SCALE
            }),
            color_bounded_emission(*final(attenuation)),
            self matches Material::Diffuse(m) ==> r && *final(attenuation) == m.albedo,
            self matches Material::Metal(m) ==> *final(attenuation) == m.albedo,
            self matches Material::Dielectric(_) ==> r && *final(attenuation) == (Vector3 {
                x: SCALE as i64,
                y: SCALE as i64,
                z: SCALE as i64,
            }),
            self matches Material::Normal(_) ==> !r && *final(attenuation) == half_offset(
                record.normal,
            ),
            self matches Material::Emissive(m) ==> !r && *final(attenuation) == spec_emitted(*m),
            self matches Material::World(m) ==> !r && *final(attenuation) == spec_world_gradient(
                *m,
                *ray,
            ),
    {
        match self {
            Material::Diffuse(m) => {
                let rv = random_vector(rng);
                let candidate = record.normal.add(&rv);
                let scatter_direction = if candidate.near_zero() {
                    record.normal
                } else {
                    proof {
                        assert(!(candidate.x == 0 && candidate.y == 0 && candidate.z == 0))
                            by (nonlinear_arith)
                            requires spec_dot(candidate, candidate) >= SCALE as int;
                    }
                    candidate
                };
                *next_ray = Ray::new(record.point, scatter_direction);
                *attenuation = m.albedo;
                true
            },
            Material::Metal(m) => {
                let reflected = reflect_vector(&ray.direction, &record.normal);
                let fuzz = random_vector_in_unit_sphere(rng).scale(m.roughness);
                proof {
                    lemma_unit_fp_products();
                }
                let direction = reflected.add(&fuzz);
                let direction = if direction.x == 0 && direction.y == 0 && direction.z == 0 {
                    record.normal
                } else {
                    direction
                };
                *next_ray = Ray::new(record.point, direction);
                *attenuation = m.albedo;
                next_ray.direction.dot(&record.normal) > 0
            },
            Material::Dielectric(m) => {
                let front = record.front_face;
                proof {
                    crate::math::lemma_mul_magnitude(
                        SCALE as int,
                        SCALE as int,
                        SCALE as int,
                        SCALE as int,
                    );
                    crate::math::lemma_floor_div_quotient_bound(
                        (SCALE as int) * (SCALE as int),
                        m.ior as int,
                        SCALE as int,
                    );
                    crate::math::lemma_floor_div_at_least_one(
                        (SCALE as int) * (SCALE as int),
                        m.ior as int,
                    );
                }
                let refraction_ratio = if front {
                    crate::math::fp_div(SCALE, m.ior)
                } else {
                    m.ior
                };
                let neg_dir = ray.direction.neg();
                let dn = neg_dir.dot(&record.normal);
                proof {
                    crate::math::lemma_mul_magnitude(
                        neg_dir.x as int,
                        record.normal.x as int,
                        0x20000,
                        0x20000,
                    );
                    crate::math::lemma_mul_magnitude(
                        neg_dir.y as int,
                        record.normal.y as int,
                        0x20000,
                        0x20000,
                    );
                    crate::math::lemma_mul_magnitude(
                        neg_dir.z as int,
                        record.normal.z as int,
                        0x20000,
                        0x20000,
                    );
                }
                let cos_raw = crate::math::div_floor(dn, SCALE);
                let cos_theta = crate::math::clamp64(cos_raw, 0, SCALE);
                proof {
                    lemma_unit_fp_products();
                    assert((cos_theta as int) * (cos_theta as int) >= 0) by (nonlinear_arith);
                    crate::math::lemma_floor_div_nonneg(
                        (cos_theta as int) * (cos_theta as int),
                        SCALE as int,
                    );
                }
                let cos2 = fp_mul(cos_theta, cos_theta);
                let sin2 = max64(0, SCALE - cos2);
                let sin_theta = crate::math::fp_sqrt(sin2);
                proof {
                    assert((sin_theta as int) <= 2 * (SCALE as int)) by (nonlinear_arith)
                        requires
                            crate::math::sq(sin_theta as int) <= (sin2 as int) * (SCALE as int),
                            0 <= sin2 <= SCALE as int,
                            sin_theta >= 0;
                }
                proof {
                    crate::math::lemma_mul_magnitude(
                        refraction_ratio as int,
                        sin_theta as int,
                        0x10_0000,
                        0x20000,
                    );
                    crate::math::lemma_floor_div_quotient_bound(
                        (refraction_ratio as int) * (sin_theta as int),
                        SCALE as int,
                        0x20_0000,
                    );
                }
                let cannot_refract = fp_mul(refraction_ratio, sin_theta) > SCALE;
                let threshold = DielectricMaterial::reflectance(cos_theta, refraction_ratio);
                let sample = rng.next_unit();
                let direction = if cannot_refract || threshold > sample {
                    reflect_vector(&ray.direction, &record.normal)
                } else {
                    crate::utils::refract_vector(&ray.direction, &record.normal, refraction_ratio)
                };
                let direction = if direction.x == 0 && direction.y == 0 && direction.z == 0 {
                    record.normal
                } else {
                    direction
                };
                *next_ray = Ray::new(record.point, direction);
                *attenuation = Vector3 { x: SCALE, y: SCALE, z: SCALE };
                true
            },
            Material::Normal(_) => {
                *attenuation = half_offset_exec(&record.normal);
                false
            },
            Material::Emissive(m) => {
                *attenuation = m.emitted();
                false
            },
            Material::World(m) => {
                *attenuation = m.gradient(ray);
                false
            },
        }
    }

    /// The radiance a surface emits by itself, before any scattering.
    pub fn emission_at(&self, ray: &Ray, record: &HitRecord) -> (r: Vector3)
        requires
            self.wf(),
            record.wf(),
            ray.wf(),
        ensures
            self matches Material::Normal(_) ==> r == half_offset(record.normal),
            self matches Material::Emissive(m) ==> r == spec_emitted(*m),
            self matches Material::World(m) ==> r == spec_world_gradient(*m, *ray),
            self.spec_is_emissive() || r == (Vector3 { x: 0i64, y: 0i64, z: 0i64 }),
    {
        match self {
            Material::Normal(_) => half_offset_exec(&record.normal),
            Material::Emissive(m) => m.emitted(),
            Material::World(m) => m.gradient(ray),
            _ => Vector3 { x: 0, y: 0, z: 0 },
        }
    }
}

/// `(normal + 1) / 2` channelwise: the normal-visualisation color.
pub open spec fn half_offset(n: Vector3) -> Vector3 {
    Vector3 {
        x: floor_div(n.x + SCALE as int, 2) as i64,
        y: floor_div(n.y + SCALE as int, 2) as i64,
        z: floor_div(n.z + SCALE as int, 2) as i64,
    }
}

/// Executable form of `half_offset`.
fn half_offset_exec(n: &Vector3) -> (r: Vector3)
    requires
        -2 * SCALE <= n.x <= 2 * SCALE,
        -2 * SCALE <= n.y <= 2 * SCALE,
        -2 * SCALE <= n.z <= 2 * SCALE,
    ensures
        r == half_offset(*n),
        color_bounded_emission(r),
{
    Vector3 {
        x: crate::math::div_floor(n.x + SCALE, 2),
        y: crate::math::div_floor(n.y + SCALE, 2),
        z: crate::math::div_floor(n.z + SCALE, 2),
    }
}

} // verus!
