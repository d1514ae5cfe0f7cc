//! The random draws and the sky gradient of the integrator.

use ray_tracer::camera::Camera;
use ray_tracer::fixed::FP_ONE;
use ray_tracer::hittable::{Hittable, HittableList};
use ray_tracer::material::{Lambertian, Material};
use ray_tracer::sphere::Sphere;
use ray_tracer::ray::Ray;
use ray_tracer::sampler::Sampler;
use ray_tracer::util::{random_fp, random_in_unit_sphere, random_unit_vector};
use ray_tracer::vector3::Vec3;

#[test]
fn unit_ball_draws_are_interior_and_deterministic() {
    let mut smp = Sampler::new(99);
    for _ in 0..50 {
        let p = random_in_unit_sphere(&mut smp);
        let lsq = p.length_squared();
        assert!(16384 <= lsq && lsq < FP_ONE);
    }
    let mut a = Sampler::new(5);
    let mut b = Sampler::new(5);
    assert_eq!(random_unit_vector(&mut a), random_unit_vector(&mut b));
}

#[test]
fn unit_vector_draws_have_near_unit_length() {
    let mut smp = Sampler::new(31);
    for _ in 0..50 {
        let u = random_unit_vector(&mut smp);
        let len = u.length();
        assert!((65532..=65537).contains(&len));
    }
}

#[test]
fn ray_color_stays_in_the_unit_cube() {
    let cam = Camera::default();
    let mut world = HittableList::new();
    world.add(Hittable::Sphere(Sphere::new(
        Vec3::new(0, 0, -2 * 65536),
        65536,
        Material::Lambertian(Lambertian::new(Vec3::new(52428, 32768, 13107))),
    )));
    let mut smp = Sampler::new(17);
    let mut k: i64 = -40;
    while k <= 40 {
        let dir = Vec3::new(k * 1638, 32768, -65536);
        let ray = Ray::new(&Vec3::new(0, 0, 0), &dir);
        let c = cam.ray_color(&ray, &world, 8, &mut smp);
        assert!(0 <= c.x() && c.x() <= 65536);
        assert!(0 <= c.y() && c.y() <= 65536);
        assert!(0 <= c.z() && c.z() <= 65536);
        k += 1;
    }
}

#[test]
fn random_fp_stays_in_its_range() {
    let mut smp = Sampler::new(11);
    for _ in 0..100 {
        let x = random_fp(-65536, 65536, &mut smp);
        assert!((-65536..65536).contains(&x));
    }
}

#[test]
fn missed_rays_shade_with_the_sky_gradient() {
    let cam = Camera::default();
    let world = HittableList::new();
    let mut smp = Sampler::new(1);
    // straight up: the gradient parameter is 1, pure sky blue
    let up = Ray::new(&Vec3::new(0, 0, 0), &Vec3::new(0, FP_ONE, 0));
    assert_eq!(cam.ray_color(&up, &world, 5, &mut smp), Vec3::new(32768, 45875, 65536));
    // straight down: the gradient parameter is 0, pure white
    let down = Ray::new(&Vec3::new(0, 0, 0), &Vec3::new(0, -FP_ONE, 0));
    assert_eq!(cam.ray_color(&down, &world, 5, &mut smp), Vec3::new(65536, 65536, 65536));
}

#[test]
fn depth_exhaustion_returns_black() {
    let cam = Camera::default();
    let world = HittableList::new();
    let mut smp = Sampler::new(1);
    let up = Ray::new(&Vec3::new(0, 0, 0), &Vec3::new(0, FP_ONE, 0));
    assert_eq!(cam.ray_color(&up, &world, 0, &mut smp), Vec3::new(0, 0, 0));
}
