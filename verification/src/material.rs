//! The three scattering policies: diffuse, specular and refractive.
//!
//! Each policy has a deterministic core (`scatter_with`) that takes its
//! random draw as an argument, so its contract pins the outcome exactly,
//! and the polymorphic `Material::scatter` draws from the sampler and
//! dispatches.

use vstd::prelude::*;
use crate::fixed::{
    FP_ONE, FP_MINUS_ONE, s_add, s_sub, s_neg, s_mul, s_div, s_clamp, s_abs, s_sqrt, fp_add,
    fp_sub, fp_neg, fp_mul, fp_div, fp_clamp, fp_sqrt, lemma_s_mul_unit_bound,
};
use crate::hittable::HitRecord;
use crate::ray::Ray;
use crate::sampler::{Sampler, next_state, rand_fp01};
use crate::util::{s_unit_vector_draw, random_unit_vector};
use crate::vector3::{
    Vec3, Color, sv_add, sv_neg, sv_scale, sv_dot, sv_lensq, sv_near_zero, sv_unit, sv_color_unit,
    sv_reflect, sv_refract, dot, unit_vector, reflect, refract, lemma_lensq_pos_not_zero,
};

verus! {

/// A diffuse surface of fixed albedo; it always scatters.
#[derive(Clone, Copy, PartialEq, Eq, Structural, Debug)]
pub struct Lambertian {
    pub albedo: Color,
}

/// Mirror of `Lambertian::scatter_with`: the scatter direction is
/// normal + draw, falling back to the normal alone exactly when that sum
/// is degenerate.
pub open spec fn s_lambertian_scatter(albedo: Color, rec: HitRecord, rand_unit: Vec3) -> (
    Color,
    Ray,
) {
    let sum = sv_add(rec.normal, rand_unit);
    let direction = if sv_near_zero(sum) {
        rec.normal
    } else {
        sum
    };
    (albedo, Ray { origin: rec.p, direction })
}

impl Lambertian {
    pub fn new(albedo: Color) -> (r: Lambertian)
        ensures
            r.albedo == albedo,
    {
        Lambertian { albedo }
    }

    /// Diffuse scatter for a given unit draw. A hit record whose normal is
    /// not degenerate never yields a degenerate scatter direction: the
    /// fallback triggers exactly when normal + draw vanishes, and then the
    /// normal itself is returned.
    pub fn scatter_with(&self, rec: &HitRecord, rand_unit: Vec3) -> (r: (Color, Ray))
        ensures
            r == s_lambertian_scatter(self.albedo, *rec, rand_unit),
            !sv_near_zero(rec.normal) ==> !sv_near_zero(r.1.direction),
    {
        let mut scatter_direction = rec.normal.add(rand_unit);
        if scatter_direction.near_zero() {
            scatter_direction = rec.normal;
        }
        (self.albedo, Ray::new(&rec.p, &scatter_direction))
    }
}

/// A specular surface of fixed albedo and fuzz radius.
#[derive(Clone, Copy, PartialEq, Eq, Structural, Debug)]
pub struct Metal {
    pub albedo: Color,
    pub fuzz: i64,
}

/// Mirror of `Metal::scatter_with`: reflect the unit incoming direction,
/// perturb by fuzz times the draw, and absorb the ray (None) exactly when
/// the result does not point away from the surface.
pub open spec fn s_metal_scatter(
    albedo: Color,
    fuzz: i64,
    ray_in: Ray,
    rec: HitRecord,
    rand_unit: Vec3,
) -> Option<(Color, Ray)> {
    let reflected = sv_reflect(sv_unit(ray_in.direction), rec.normal);
    let direction = sv_add(reflected, sv_scale(rand_unit, fuzz));
    if sv_dot(direction, rec.normal) > 0 {
        Option::Some((albedo, Ray { origin: rec.p, direction }))
    } else {
        Option::None
    }
}

impl Metal {
    /// The fuzz radius is capped at 1.0.
    pub fn new(albedo: Color, fuzz: i64) -> (r: Metal)
        ensures
            r.albedo == albedo,
            r.fuzz == if fuzz < FP_ONE {
                fuzz
            } else {
                FP_ONE
            },
    {
        let fuzz = if fuzz < FP_ONE {
            fuzz
        } else {
            FP_ONE
        };
        Metal { albedo, fuzz }
    }

    /// Specular scatter for a given unit draw. The ray is absorbed (None)
    /// if and only if the fuzzed reflection does not leave the surface:
    /// dot(direction, normal) <= 0.
    pub fn scatter_with(&self, ray_in: &Ray, rec: &HitRecord, rand_unit: Vec3) -> (r: Option<
        (Color, Ray),
    >)
        requires
            sv_lensq(ray_in.direction) > 0,
        ensures
            r == s_metal_scatter(self.albedo, self.fuzz, *ray_in, *rec, rand_unit),
            r is None <==> sv_dot(
                sv_add(
                    sv_reflect(sv_unit(ray_in.direction), rec.normal),
                    sv_scale(rand_unit, self.fuzz),
                ),
                rec.normal,
            ) <= 0,
    {
        proof {
            lemma_lensq_pos_not_zero(ray_in.direction);
        }
        let reflected = reflect(&unit_vector(ray_in.direction()), &rec.normal);
        let direction = reflected.add(rand_unit.scale(self.fuzz));
        if dot(&direction, &rec.normal) > 0 {
            Some((self.albedo, Ray::new(&rec.p, &direction)))
        } else {
            None
        }
    }
}

/// A clear refractive surface described by its refraction index.
#[derive(Clone, Copy, PartialEq, Eq, Structural, Debug)]
pub struct Dielectric {
    pub ir: i64,
}

/// x^5 by repeated fixed-point multiplication.
pub open spec fn s_pow5(x: i64) -> i64 {
    s_mul(s_mul(s_mul(s_mul(x, x), x), x), x)
}

/// Schlick's approximation: r0^2 + (1 - r0^2) * (1 - cos)^5 with
/// r0 = (1 - ratio) / (1 + ratio).
pub open spec fn s_reflectance(cos_theta: i64, refraction_ratio: i64) -> i64 {
    let r0 = s_div(s_sub(FP_ONE, refraction_ratio), s_add(FP_ONE, refraction_ratio));
    let r0sq = s_mul(r0, r0);
    s_add(r0sq, s_mul(s_sub(FP_ONE, r0sq), s_pow5(s_sub(FP_ONE, cos_theta))))
}

/// Mirror of `Dielectric::scatter_with`: always scatters with attenuation
/// (1,1,1); reflects on total internal reflection or when the draw falls
/// below the Schlick reflectance, refracts otherwise.
pub open spec fn s_dielectric_scatter(ir: i64, ray_in: Ray, rec: HitRecord, rand01: i64) -> (
    Color,
    Ray,
) {
    let ratio = if rec.front_face {
        s_div(FP_ONE, ir)
    } else {
        ir
    };
    let unit_direction = sv_unit(ray_in.direction);
    let cos_theta = s_clamp(sv_dot(sv_neg(unit_direction), rec.normal), FP_MINUS_ONE, FP_ONE);
    let sin_theta = s_sqrt(s_sub(FP_ONE, s_mul(cos_theta, cos_theta)));
    let cannot_refract = s_mul(ratio, sin_theta) > FP_ONE;
    let direction = if cannot_refract || s_reflectance(cos_theta, ratio) > rand01 {
        sv_reflect(unit_direction, rec.normal)
    } else {
        sv_refract(unit_direction, rec.normal, ratio)
    };
    (Color { x: FP_ONE, y: FP_ONE, z: FP_ONE }, Ray { origin: rec.p, direction })
}

impl Dielectric {
    pub fn new(ir: i64) -> (r: Dielectric)
        ensures
            r.ir == ir,
    {
        Dielectric { ir }
    }

    /// Schlick's reflectance approximation.
    pub fn reflectance(&self, cos_theta: i64, refraction_ratio: i64) -> (r: i64)
        requires
            s_add(FP_ONE, refraction_ratio) != 0,
        ensures
            r == s_reflectance(cos_theta, refraction_ratio),
    {
        let r0 = fp_div(fp_sub(FP_ONE, refraction_ratio), fp_add(FP_ONE, refraction_ratio));
        let r0sq = fp_mul(r0, r0);
        let one_minus_cos = fp_sub(FP_ONE, cos_theta);
        let p5 = fp_mul(
            fp_mul(fp_mul(fp_mul(one_minus_cos, one_minus_cos), one_minus_cos), one_minus_cos),
            one_minus_cos,
        );
        fp_add(r0sq, fp_mul(fp_sub(FP_ONE, r0sq), p5))
    }

    /// Refractive scatter for a given uniform draw in [0, 1). Glass absorbs
    /// nothing: the attenuation is always (1,1,1). The incoming cosine is
    /// clamped into [-1, 1] before the sine is taken, the guard against a
    /// malformed (non-unit) normal.
    pub fn scatter_with(&self, ray_in: &Ray, rec: &HitRecord, rand01: i64) -> (r: (Color, Ray))
        requires
            self.ir > 0,
            sv_lensq(ray_in.direction) > 0,
        ensures
            r == s_dielectric_scatter(self.ir, *ray_in, *rec, rand01),
    {
        let eta_ratio = if rec.front_face {
            fp_div(FP_ONE, self.ir)
        } else {
            self.ir
        };

        proof {
            lemma_lensq_pos_not_zero(ray_in.direction);
        }
        let unit_direction = unit_vector(ray_in.direction());
        let cos_theta = fp_clamp(dot(&unit_direction.neg(), &rec.normal), FP_MINUS_ONE, FP_ONE);
        proof {
            lemma_s_mul_unit_bound(cos_theta, cos_theta);
        }
        let sin_theta = fp_sqrt(fp_sub(FP_ONE, fp_mul(cos_theta, cos_theta)));

        let cannot_refract = fp_mul(eta_ratio, sin_theta) > FP_ONE;

        proof {
            assert(s_add(FP_ONE, eta_ratio) != 0) by {
                assert(eta_ratio >= 0);
            }
        }
        let direction = if cannot_refract || self.reflectance(cos_theta, eta_ratio) > rand01 {
            reflect(&unit_direction, &rec.normal)
        } else {
            refract(&unit_direction, &rec.normal, eta_ratio)
        };
        (Vec3::new(FP_ONE, FP_ONE, FP_ONE), Ray::new(&rec.p, &direction))
    }
}

/// The closed set of scattering policies.
#[derive(Clone, Copy, PartialEq, Eq, Structural, Debug)]
pub enum Material {
    Lambertian(Lambertian),
    Metal(Metal),
    Dielectric(Dielectric),
}

/// A material the scattering contracts can speak about: a refraction
/// index must be positive.
pub open spec fn material_wf(m: Material) -> bool {
    match m {
        Material::Dielectric(d) => d.ir > 0,
        _ => true,
    }
}

/// Mirror of `Material::scatter`: what is returned and the sampler state
/// that is left, for each policy.
pub open spec fn s_scatter(m: Material, ray_in: Ray, rec: HitRecord, s: u64) -> (
    Option<(Color, Ray)>,
    u64,
) {
    match m {
        Material::Lambertian(l) => {
            let (u, s1) = s_unit_vector_draw(s);
            (Option::Some(s_lambertian_scatter(l.albedo, rec, u)), s1)
        },
        Material::Metal(mt) => {
            let (u, s1) = s_unit_vector_draw(s);
            (s_metal_scatter(mt.albedo, mt.fuzz, ray_in, rec, u), s1)
        },
        Material::Dielectric(d) => {
            (
                Option::Some(s_dielectric_scatter(d.ir, ray_in, rec, rand_fp01(s))),
                next_state(s),
            )
        },
    }
}

impl Material {
    /// Whether and how the incoming ray scatters at the hit point: the
    /// attenuation and the scattered ray, or None for full absorption.
    pub fn scatter(&self, ray_in: &Ray, rec: &HitRecord, smp: &mut Sampler) -> (r: Option<
        (Color, Ray),
    >)
        requires
            material_wf(*self),
            sv_lensq(ray_in.direction) > 0,
        ensures
            (r, final(smp).state) == s_scatter(*self, *ray_in, *rec, old(smp).state),
    {
        match self {
            Material::Lambertian(l) => {
                let u = random_unit_vector(smp);
                Some(l.scatter_with(rec, u))
            },
            Material::Metal(mt) => {
                let u = random_unit_vector(smp);
                mt.scatter_with(ray_in, rec, u)
            },
            Material::Dielectric(d) => {
                let rand01 = smp.next_fp01();
                Some(d.scatter_with(ray_in, rec, rand01))
            },
        }
    }
}

/// Diffuse scatter never degenerates: for every possible draw, if the hit
/// normal is not within the degeneracy threshold of zero, neither is the
/// scattered direction — the fallback to the normal triggers exactly when
/// the draw cancels it, and then the normal itself is returned.
pub proof fn lemma_lambertian_scatter_nonzero(albedo: Color, rec: HitRecord, rand_unit: Vec3)
    requires
        !sv_near_zero(rec.normal),
    ensures
        !sv_near_zero(s_lambertian_scatter(albedo, rec, rand_unit).1.direction),
{
}

/// At normal incidence (the incoming unit direction exactly opposes the
/// normal), a dielectric attenuates nothing and refracts for exactly the
/// draws at or above the Schlick reflectance, reflecting for the rest; at
/// a small reflectance, refraction therefore dominates a uniform draw.
pub proof fn lemma_dielectric_normal_incidence(ir: i64, ray_in: Ray, rec: HitRecord, rand01: i64)
    requires
        sv_dot(sv_neg(sv_unit(ray_in.direction)), rec.normal) >= FP_ONE,
    ensures
        ({
            let ratio = if rec.front_face {
                s_div(FP_ONE, ir)
            } else {
                ir
            };
            let (attenuation, scattered) = s_dielectric_scatter(ir, ray_in, rec, rand01);
            &&& attenuation == (Color { x: FP_ONE, y: FP_ONE, z: FP_ONE })
            &&& scattered.direction == if s_reflectance(FP_ONE, ratio) > rand01 {
                sv_reflect(sv_unit(ray_in.direction), rec.normal)
            } else {
                sv_refract(sv_unit(ray_in.direction), rec.normal, ratio)
            }
        }),
{
    let ratio = if rec.front_face {
        s_div(FP_ONE, ir)
    } else {
        ir
    };
    let unit_direction = sv_unit(ray_in.direction);
    let cos_theta = s_clamp(sv_dot(sv_neg(unit_direction), rec.normal), FP_MINUS_ONE, FP_ONE);
    assert(cos_theta == FP_ONE);
    assert(65536int * 65536 == 4294967296) by (nonlinear_arith);
    assert(4294967296int / 65536 == 65536) by (nonlinear_arith);
    assert(s_mul(cos_theta, cos_theta) == FP_ONE);
    assert(crate::fixed::sqrt_floor(0) == 0);
    assert(s_sqrt(s_sub(FP_ONE, s_mul(cos_theta, cos_theta))) == 0);
    crate::fixed::lemma_s_mul_zero(ratio);
}

/// A material that attenuates within the unit color cube: diffuse and
/// specular albedos lie in [0,1]^3, and glass attenuates nothing at all.
pub open spec fn material_albedo_unit(m: Material) -> bool {
    match m {
        Material::Lambertian(l) => sv_color_unit(l.albedo),
        Material::Metal(mt) => sv_color_unit(mt.albedo),
        Material::Dielectric(_) => true,
    }
}

/// Whatever a material whose albedo lies in the unit cube scatters, the
/// attenuation it returns lies in the unit cube too.
pub proof fn lemma_scatter_attenuation_unit(m: Material, ray_in: Ray, rec: HitRecord, s: u64)
    requires
        material_albedo_unit(m),
    ensures
        s_scatter(m, ray_in, rec, s).0 matches Option::Some(sc) ==> sv_color_unit(sc.0),
{
}

} // verus!
