//! Ray-sphere intersection by the quadratic formula.

use vstd::prelude::*;
use crate::fixed::{
    s_add, s_sub, s_neg, s_mul, s_div, s_sqrt, fp_add, fp_sub, fp_neg, fp_mul, fp_div, fp_sqrt,
    sqrt_floor, lemma_s_mul_exact, lemma_s_mul_zero, lemma_s_div_zero, lemma_tdiv_scale_cancel,
    lemma_tdiv_zero, lemma_sqrt_floor_unique, lemma_s_sqrt_bounds, lemma_s_div_monotone,
    FP_ONE, FP_MINUS_ONE,
};
use crate::hittable::HitRecord;
use crate::material::Material;
use crate::ray::{Ray, s_ray_at};
use crate::util::Interval;
use crate::vector3::{Vec3, Point3, sv_sub, sv_neg, sv_div, sv_dot, sv_lensq, dot};

verus! {

/// A sphere. A negative radius is a valid encoding of an inverted shell:
/// the geometry is the same, the outward normal points inward.
#[derive(Clone, Copy, PartialEq, Eq, Structural, Debug)]
pub struct Sphere {
    pub centre: Point3,
    pub radius: i64,
    pub material: Material,
}

impl Sphere {
    pub fn new(centre: Point3, r: i64, material: Material) -> (s: Sphere)
        ensures
            s == (Sphere { centre, radius: r, material }),
    {
        Sphere { centre, radius: r, material }
    }
}

/// The record a hit at parameter `root` fills: the point, the outward
/// normal (point - centre)/radius oriented against the ray, and the
/// sphere's material.
pub open spec fn s_sphere_record(s: Sphere, ray: Ray, root: i64) -> HitRecord {
    let p = s_ray_at(ray, root);
    let outward = sv_div(sv_sub(p, s.centre), s.radius);
    let front = sv_dot(ray.direction, outward) < 0;
    HitRecord {
        p,
        normal: if front {
            outward
        } else {
            sv_neg(outward)
        },
        material: s.material,
        t: root,
        front_face: front,
    }
}

/// Mirror of `Sphere::hit`: solve a*t^2 + 2*half_b*t + c = 0 and accept
/// the smaller root if it lies strictly inside `ray_t`, else the larger,
/// else nothing.
pub open spec fn s_sphere_hit(s: Sphere, ray: Ray, ray_t: Interval) -> Option<HitRecord> {
    let oc = sv_sub(ray.origin, s.centre);
    let a = sv_lensq(ray.direction);
    let half_b = sv_dot(oc, ray.direction);
    let c = s_sub(sv_lensq(oc), s_mul(s.radius, s.radius));
    let discriminant = s_sub(s_mul(half_b, half_b), s_mul(a, c));
    if discriminant < 0 {
        Option::None
    } else {
        let sqrt_d = s_sqrt(discriminant);
        let root1 = s_div(s_sub(s_neg(half_b), sqrt_d), a);
        let root2 = s_div(s_add(s_neg(half_b), sqrt_d), a);
        let root = if ray_t.min < root1 < ray_t.max {
            root1
        } else {
            root2
        };
        if !(ray_t.min < root < ray_t.max) {
            Option::None
        } else {
            Option::Some(s_sphere_record(s, ray, root))
        }
    }
}

impl Sphere {
    /// The nearest intersection with the ray strictly inside `ray_t`.
    pub fn hit(&self, ray: &Ray, ray_t: Interval) -> (r: Option<HitRecord>)
        requires
            self.radius != 0,
            sv_lensq(ray.direction) > 0,
        ensures
            r == s_sphere_hit(*self, *ray, ray_t),
    {
        let oc = ray.origin().sub(self.centre);
        let a = ray.direction().length_squared();
        let half_b = dot(&oc, ray.direction());
        let c = fp_sub(oc.length_squared(), fp_mul(self.radius, self.radius));

        let discriminant = fp_sub(fp_mul(half_b, half_b), fp_mul(a, c));
        if discriminant < 0 {
            return None;
        }
        let sqrt_d = fp_sqrt(discriminant);

        let mut root = fp_div(fp_sub(fp_neg(half_b), sqrt_d), a);
        if !ray_t.surrounds(root) {
            root = fp_div(fp_add(fp_neg(half_b), sqrt_d), a);
            if !ray_t.surrounds(root) {
                return None;
            }
        }

        let p = ray.at(root);
        let outward_normal = p.sub(self.centre).div(self.radius);
        let mut rec = HitRecord {
            p,
            normal: outward_normal,
            material: self.material,
            t: root,
            front_face: false,
        };
        rec.set_face_normal(ray, outward_normal);
        Some(rec)
    }
}

/// The arithmetic shared by the axis-aligned intersection lemmas:
/// products of whole grid multiples and the exact square root.
proof fn lemma_axis_arith(k: i64)
    requires
        0 < k <= 30000,
    ensures
        s_mul((k * 65536) as i64, (k * 65536) as i64) == (k * k * 65536) as i64,
        s_mul((-(k * 65536)) as i64, (-(k * 65536)) as i64) == (k * k * 65536) as i64,
        s_mul((-(k * 65536)) as i64, 65536) == (-(k * 65536)) as i64,
        s_mul(65536, (k * 65536) as i64) == (k * 65536) as i64,
        0 < k * k <= 900000000,
        s_sqrt((k * k * 65536) as i64) == (k * 65536) as i64,
    {
    assert(0 < k * k <= 900000000) by (nonlinear_arith)
        requires
            0 < k <= 30000;
    assert((-(k as int)) * (-(k as int)) == k * k) by (nonlinear_arith);
    assert((-(k as int)) * (k as int) * 65536 == -(k * k * 65536)) by (nonlinear_arith);
    lemma_s_mul_exact(k as int, k as int);
    lemma_s_mul_exact(-(k as int), -(k as int));
    lemma_s_mul_exact(-(k as int), 1);
    lemma_s_mul_exact(1, k as int);
    let r = k * 65536;
    let arg = (k * k * 65536) * 65536;
    assert(r * r == arg) by (nonlinear_arith)
        requires
            r == k * 65536,
            arg == (k * k * 65536) * 65536;
    assert((r + 1) * (r + 1) > r * r) by (nonlinear_arith)
        requires
            r >= 0;
    lemma_sqrt_floor_unique(arg as nat, r as nat);
}

/// A ray aimed along an axis at a sphere's center from a distance d
/// greater than the radius r hits it at parameter exactly d - r, on the
/// front face, with the normal opposite the ray direction. Stated for
/// whole-number d and r, where the fixed-point quadratic is exact.
pub proof fn lemma_sphere_head_on(dk: i64, rk: i64, m: Material, itv: Interval)
    requires
        0 < rk < dk <= 30000,
        itv.min < (dk - rk) * 65536 < itv.max,
    ensures
        s_sphere_hit(
            Sphere {
                centre: Vec3 { x: 0, y: 0, z: (dk * 65536) as i64 },
                radius: (rk * 65536) as i64,
                material: m,
            },
            Ray { origin: Vec3 { x: 0, y: 0, z: 0 }, direction: Vec3 { x: 0, y: 0, z: FP_ONE } },
            itv,
        ) == Option::Some(
            HitRecord {
                p: Vec3 { x: 0, y: 0, z: ((dk - rk) * 65536) as i64 },
                normal: Vec3 { x: 0, y: 0, z: FP_MINUS_ONE },
                material: m,
                t: ((dk - rk) * 65536) as i64,
                front_face: true,
            },
        ),
{
    let d: i64 = (dk * 65536) as i64;
    let r: i64 = (rk * 65536) as i64;
    let sp = Sphere { centre: Vec3 { x: 0, y: 0, z: d }, radius: r, material: m };
    let ray = Ray { origin: Vec3 { x: 0, y: 0, z: 0 }, direction: Vec3 { x: 0, y: 0, z: FP_ONE } };

    lemma_axis_arith(dk);
    lemma_axis_arith(rk);
    lemma_s_mul_zero(0);
    lemma_s_mul_zero(65536);
    lemma_s_mul_zero((-(d as int)) as i64);
    lemma_s_mul_exact(1, 1);

    let oc = sv_sub(ray.origin, sp.centre);
    assert(oc == Vec3 { x: 0, y: 0, z: (-(d as int)) as i64 });
    let a = sv_lensq(ray.direction);
    assert(a == 65536);
    let half_b = sv_dot(oc, ray.direction);
    assert(half_b == (-(d as int)) as i64);
    let lensq_oc = sv_lensq(oc);
    assert(lensq_oc == (dk * dk * 65536) as i64);
    let c = s_sub(lensq_oc, s_mul(sp.radius, sp.radius));
    assert(c == ((dk * dk - rk * rk) * 65536) as i64);

    lemma_s_mul_exact(1, dk * dk - rk * rk);
    let disc = s_sub(s_mul(half_b, half_b), s_mul(a, c));
    assert(disc == (rk * rk * 65536) as i64);
    assert(disc >= 0);

    let sqrt_d = s_sqrt(disc);
    assert(sqrt_d == r);

    lemma_tdiv_scale_cancel(d - r, 65536);
    let root1 = s_div(s_sub(s_neg(half_b), sqrt_d), a);
    assert(root1 == ((dk - rk) * 65536) as i64);
    assert(itv.min < root1 < itv.max);

    // the record the accepted near root fills
    lemma_s_mul_exact(1, dk - rk);
    let p = s_ray_at(ray, root1);
    assert(p == Vec3 { x: 0, y: 0, z: root1 });
    lemma_s_div_zero(r);
    assert((-(r as int)) * 65536 == (-65536) * r) by (nonlinear_arith);
    lemma_tdiv_scale_cancel(-65536, r as int);
    let outward = sv_div(sv_sub(p, sp.centre), sp.radius);
    assert(outward == Vec3 { x: 0, y: 0, z: FP_MINUS_ONE });
    lemma_s_mul_exact(1, -1);
    assert(sv_dot(ray.direction, outward) == FP_MINUS_ONE);
}

/// A ray whose perpendicular offset h from a sphere's center exceeds the
/// radius r misses it: the discriminant is negative and no hit exists.
/// Stated for whole-number offsets and radii.
pub proof fn lemma_sphere_miss(dk: i64, hk: i64, rk: i64, m: Material, itv: Interval)
    requires
        0 < rk < hk <= 30000,
        0 < dk <= 30000,
    ensures
        s_sphere_hit(
            Sphere {
                centre: Vec3 { x: (hk * 65536) as i64, y: 0, z: (dk * 65536) as i64 },
                radius: (rk * 65536) as i64,
                material: m,
            },
            Ray { origin: Vec3 { x: 0, y: 0, z: 0 }, direction: Vec3 { x: 0, y: 0, z: FP_ONE } },
            itv,
        ) is None,
{
    let d: i64 = (dk * 65536) as i64;
    let h: i64 = (hk * 65536) as i64;
    let r: i64 = (rk * 65536) as i64;
    let sp = Sphere { centre: Vec3 { x: h, y: 0, z: d }, radius: r, material: m };
    let ray = Ray { origin: Vec3 { x: 0, y: 0, z: 0 }, direction: Vec3 { x: 0, y: 0, z: FP_ONE } };

    lemma_axis_arith(dk);
    lemma_axis_arith(hk);
    lemma_axis_arith(rk);
    lemma_s_mul_zero(0);
    lemma_s_mul_zero(65536);
    lemma_s_mul_zero((-(d as int)) as i64);
    lemma_s_mul_zero((-(h as int)) as i64);

    let oc = sv_sub(ray.origin, sp.centre);
    assert(oc == Vec3 { x: (-(h as int)) as i64, y: 0, z: (-(d as int)) as i64 });
    let a = sv_lensq(ray.direction);
    assert(a == 65536);
    let half_b = sv_dot(oc, ray.direction);
    assert(half_b == (-(d as int)) as i64);
    let lensq_oc = sv_lensq(oc);
    assert(lensq_oc == ((hk * hk + dk * dk) * 65536) as i64);
    let c = s_sub(lensq_oc, s_mul(sp.radius, sp.radius));
    assert(c == ((hk * hk + dk * dk - rk * rk) * 65536) as i64);

    lemma_s_mul_exact(1, hk * hk + dk * dk - rk * rk);
    let disc = s_sub(s_mul(half_b, half_b), s_mul(a, c));
    assert(disc == ((rk * rk - hk * hk) * 65536) as i64);
    assert(rk * rk < hk * hk) by (nonlinear_arith)
        requires
            0 < rk < hk;
    assert(disc < 0);
}

/// A ray fired from a sphere's own center hits the shell from inside at
/// parameter exactly r, with front_face false and the normal flipped to
/// oppose the ray. Stated for whole-number radii.
pub proof fn lemma_sphere_inside(rk: i64, m: Material, itv: Interval)
    requires
        0 < rk <= 30000,
        0 <= itv.min < rk * 65536 < itv.max,
    ensures
        s_sphere_hit(
            Sphere {
                centre: Vec3 { x: 0, y: 0, z: 0 },
                radius: (rk * 65536) as i64,
                material: m,
            },
            Ray { origin: Vec3 { x: 0, y: 0, z: 0 }, direction: Vec3 { x: 0, y: 0, z: FP_ONE } },
            itv,
        ) == Option::Some(
            HitRecord {
                p: Vec3 { x: 0, y: 0, z: (rk * 65536) as i64 },
                normal: Vec3 { x: 0, y: 0, z: FP_MINUS_ONE },
                material: m,
                t: (rk * 65536) as i64,
                front_face: false,
            },
        ),
{
    let r: i64 = (rk * 65536) as i64;
    let sp = Sphere { centre: Vec3 { x: 0, y: 0, z: 0 }, radius: r, material: m };
    let ray = Ray { origin: Vec3 { x: 0, y: 0, z: 0 }, direction: Vec3 { x: 0, y: 0, z: FP_ONE } };

    lemma_axis_arith(rk);
    lemma_s_mul_zero(0);
    lemma_s_mul_zero(65536);
    lemma_s_mul_exact(1, 1);
    assert((-(rk as int)) * rk == -((rk as int) * rk)) by (nonlinear_arith);
    assert((-(rk as int)) * rk * 65536 == -(rk * rk * 65536)) by (nonlinear_arith);
    lemma_s_mul_exact(1, -(rk as int) * rk);

    let oc = sv_sub(ray.origin, sp.centre);
    assert(oc == Vec3 { x: 0, y: 0, z: 0 });
    let a = sv_lensq(ray.direction);
    assert(a == 65536);
    let half_b = sv_dot(oc, ray.direction);
    assert(half_b == 0);
    assert(sv_lensq(oc) == 0);
    let c = s_sub(sv_lensq(oc), s_mul(sp.radius, sp.radius));
    assert(c == (-(rk as int) * rk * 65536) as i64);
    let disc = s_sub(s_mul(half_b, half_b), s_mul(a, c));
    assert(disc == (rk * rk * 65536) as i64);
    assert(disc >= 0);
    let sqrt_d = s_sqrt(disc);
    assert(sqrt_d == r);

    lemma_tdiv_scale_cancel(-(r as int), 65536);
    lemma_tdiv_scale_cancel(r as int, 65536);
    let root1 = s_div(s_sub(s_neg(half_b), sqrt_d), a);
    assert(root1 == (-(r as int)) as i64);
    assert(!(itv.min < root1 < itv.max));
    let root2 = s_div(s_add(s_neg(half_b), sqrt_d), a);
    assert(root2 == r);
    assert(itv.min < root2 < itv.max);

    lemma_s_mul_exact(1, rk as int);
    let p = s_ray_at(ray, root2);
    assert(p == Vec3 { x: 0, y: 0, z: r });
    lemma_s_div_zero(r);
    lemma_tdiv_scale_cancel(65536, r as int);
    let outward = sv_div(sv_sub(p, sp.centre), sp.radius);
    assert(outward == Vec3 { x: 0, y: 0, z: FP_ONE });
    assert(sv_dot(ray.direction, outward) == FP_ONE);
}

/// Shrinking the upper bound of the search interval keeps a hit exactly
/// when its parameter still lies below the new bound, and yields the very
/// same record then: the roots of the quadratic do not depend on the
/// interval, only their acceptance does.
pub proof fn lemma_sphere_hit_shrink(sp: Sphere, ray: Ray, t_min: i64, m_full: i64, m_new: i64)
    requires
        m_new <= m_full,
        sv_lensq(ray.direction) > 0,
        s_sphere_hit(sp, ray, Interval { min: t_min, max: m_full }) is Some,
    ensures
        s_sphere_hit(sp, ray, Interval { min: t_min, max: m_new }) == (
        if s_sphere_hit(sp, ray, Interval { min: t_min, max: m_full })->Some_0.t < m_new {
            s_sphere_hit(sp, ray, Interval { min: t_min, max: m_full })
        } else {
            Option::<HitRecord>::None
        }),
{
    let oc = sv_sub(ray.origin, sp.centre);
    let a = sv_lensq(ray.direction);
    let half_b = sv_dot(oc, ray.direction);
    let c = s_sub(sv_lensq(oc), s_mul(sp.radius, sp.radius));
    let discriminant = s_sub(s_mul(half_b, half_b), s_mul(a, c));
    assert(discriminant >= 0);
    let sqrt_d = s_sqrt(discriminant);
    lemma_s_sqrt_bounds(discriminant);
    let root1 = s_div(s_sub(s_neg(half_b), sqrt_d), a);
    let root2 = s_div(s_add(s_neg(half_b), sqrt_d), a);
    assert(s_sub(s_neg(half_b), sqrt_d) <= s_add(s_neg(half_b), sqrt_d));
    lemma_s_div_monotone(s_sub(s_neg(half_b), sqrt_d), s_add(s_neg(half_b), sqrt_d), a);
    assert(root1 <= root2);
}

} // verus!
