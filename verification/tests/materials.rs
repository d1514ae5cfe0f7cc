//! Scattering behavior of the three materials on constructed hit records.

use ray_tracer::hittable::HitRecord;
use ray_tracer::material::{Dielectric, Lambertian, Material, Metal};
use ray_tracer::ray::Ray;
use ray_tracer::sampler::Sampler;
use ray_tracer::vector3::Vec3;

fn record(normal: Vec3, front_face: bool) -> HitRecord {
    HitRecord {
        p: Vec3::new(0, 0, 0),
        normal,
        material: Material::Lambertian(Lambertian::new(Vec3::new(32768, 32768, 32768))),
        t: 65536,
        front_face,
    }
}

#[test]
fn lambertian_falls_back_to_the_normal_exactly_on_cancellation() {
    let lam = Lambertian::new(Vec3::new(52428, 52428, 0));
    let rec = record(Vec3::new(0, 65536, 0), true);
    // the draw exactly cancels the normal: the fallback keeps the normal
    let (attenuation, scattered) = lam.scatter_with(&rec, Vec3::new(0, -65536, 0));
    assert_eq!(attenuation, Vec3::new(52428, 52428, 0));
    assert_eq!(scattered.direction, Vec3::new(0, 65536, 0));
    assert!(!scattered.direction.near_zero());
    // an ordinary draw is simply added to the normal
    let (_, scattered2) = lam.scatter_with(&rec, Vec3::new(65536, 0, 0));
    assert_eq!(scattered2.direction, Vec3::new(65536, 65536, 0));
    assert!(!scattered2.direction.near_zero());
}

#[test]
fn metal_absorbs_a_grazing_ray() {
    // fuzz 0, incoming ray parallel to the surface: the reflected
    // direction stays in the surface plane, dot(scattered, normal) = 0,
    // and the ray is absorbed
    let metal = Metal::new(Vec3::new(52428, 52428, 52428), 0);
    let rec = record(Vec3::new(0, 65536, 0), true);
    let ray_in = Ray::new(&Vec3::new(-65536, 0, 0), &Vec3::new(65536, 0, 0));
    let scatter = metal.scatter_with(&ray_in, &rec, Vec3::new(0, 0, 65536));
    assert!(scatter.is_none());
}

#[test]
fn metal_reflects_a_ray_that_leaves_the_surface() {
    let metal = Metal::new(Vec3::new(52428, 39321, 13107), 0);
    let rec = record(Vec3::new(0, 0, 65536), true);
    let ray_in = Ray::new(&Vec3::new(0, 0, 65536), &Vec3::new(0, 0, -65536));
    let (attenuation, scattered) = metal.scatter_with(&ray_in, &rec, Vec3::new(0, 65536, 0)).unwrap();
    assert_eq!(attenuation, Vec3::new(52428, 39321, 13107));
    assert_eq!(scattered.direction, Vec3::new(0, 0, 65536));
}

#[test]
fn metal_fuzz_is_capped_at_one() {
    let metal = Metal::new(Vec3::new(65536, 65536, 65536), 2 * 65536);
    assert_eq!(metal.fuzz, 65536);
    let metal2 = Metal::new(Vec3::new(65536, 65536, 65536), 32768);
    assert_eq!(metal2.fuzz, 32768);
}

#[test]
fn schlick_reflectance_at_normal_incidence_is_r0_squared() {
    // ir = 1.5 entering from outside: ratio = 1/1.5, r0 = -0.2,
    // r0^2 = 0.04, which is 2621 on the fixed-point grid
    let d = Dielectric::new(98304);
    assert_eq!(d.reflectance(65536, 43690), 2621);
}

#[test]
fn dielectric_refracts_straight_through_at_normal_incidence() {
    // perpendicular entry, draw above the 4% reflectance: refraction,
    // and the perpendicular direction passes through unchanged
    let d = Dielectric::new(98304);
    let rec = record(Vec3::new(0, 0, -65536), true);
    let ray_in = Ray::new(&Vec3::new(0, 0, -131072), &Vec3::new(0, 0, 65536));
    let (attenuation, scattered) = d.scatter_with(&ray_in, &rec, 30000);
    assert_eq!(attenuation, Vec3::new(65536, 65536, 65536));
    assert_eq!(scattered.direction, Vec3::new(0, 0, 65536));
}

#[test]
fn dielectric_reflects_when_the_draw_falls_below_the_reflectance() {
    let d = Dielectric::new(98304);
    let rec = record(Vec3::new(0, 0, -65536), true);
    let ray_in = Ray::new(&Vec3::new(0, 0, -131072), &Vec3::new(0, 0, 65536));
    let (attenuation, scattered) = d.scatter_with(&ray_in, &rec, 2000);
    assert_eq!(attenuation, Vec3::new(65536, 65536, 65536));
    assert_eq!(scattered.direction, Vec3::new(0, 0, -65536));
}

#[test]
fn dielectric_draws_below_reflectance_are_rare_at_normal_incidence() {
    // the reflect-vs-refract decision compares the draw with the 4%
    // reflectance, so refraction dominates over uniform draws: count the
    // sampler values that would reflect
    let d = Dielectric::new(98304);
    let rec = record(Vec3::new(0, 0, -65536), true);
    let ray_in = Ray::new(&Vec3::new(0, 0, -131072), &Vec3::new(0, 0, 65536));
    let mut smp = Sampler::new(12345);
    let mut reflected = 0;
    let mut total = 0;
    while total < 200 {
        let draw = smp.next_fp01();
        let (_, scattered) = d.scatter_with(&ray_in, &rec, draw);
        if scattered.direction == Vec3::new(0, 0, -65536) {
            reflected += 1;
        }
        total += 1;
    }
    // about 4% of 200; far fewer than half
    assert!(reflected < 30);
}

#[test]
fn material_scatter_dispatches_and_advances_the_sampler() {
    let rec = record(Vec3::new(0, 0, -65536), true);
    let ray_in = Ray::new(&Vec3::new(0, 0, -131072), &Vec3::new(0, 0, 65536));
    let m = Material::Dielectric(Dielectric::new(98304));
    let mut smp = Sampler::new(7);
    let before = smp.state;
    let scatter = m.scatter(&ray_in, &rec, &mut smp);
    assert!(scatter.is_some());
    assert_ne!(smp.state, before);
}
