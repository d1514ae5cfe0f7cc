//! The camera derivation, color conversion, the sampler, and the seeded
//! end-to-end render.

use ray_tracer::camera::{Camera, IMAGE_HEIGHT, IMAGE_WIDTH};
use ray_tracer::hittable::{Hittable, HittableList};
use ray_tracer::material::{Lambertian, Material};
use ray_tracer::sampler::Sampler;
use ray_tracer::sphere::Sphere;
use ray_tracer::vector3::{write_color, Vec3};

#[test]
fn sampler_is_deterministic_and_in_range() {
    let mut a = Sampler::new(1);
    let mut b = Sampler::new(1);
    for _ in 0..100 {
        let x = a.next_fp01();
        assert_eq!(x, b.next_fp01());
        assert!((0..65536).contains(&x));
    }
    assert_eq!(Sampler::new(1).next_fp01(), 27735);
    let mut c = Sampler::new(1);
    c.next_fp01();
    assert_eq!(c.next_fp01(), 33384);
}

#[test]
fn write_color_full_white_and_black() {
    assert_eq!(write_color(Vec3::new(65536, 65536, 65536), 1), (255, 255, 255));
    assert_eq!(write_color(Vec3::new(0, 0, 0), 1), (0, 0, 0));
}

#[test]
fn write_color_gamma_and_averaging() {
    // 0.25 becomes 0.5 after square-root gamma: channel 128
    assert_eq!(write_color(Vec3::new(16384, 16384, 16384), 1), (128, 128, 128));
    // two samples summing to 2.0 average to 1.0
    assert_eq!(write_color(Vec3::new(131072, 131072, 131072), 2), (255, 255, 255));
    // negative accumulations clamp to zero
    assert_eq!(write_color(Vec3::new(-65536, 0, 0), 1), (0, 0, 0));
}

#[test]
fn default_camera_geometry() {
    let cam = Camera::default();
    assert_eq!(cam.origin, Vec3::new(0, 0, -65536));
    assert_eq!(cam.pixel_delta_u, Vec3::new(-582, 0, 0));
    assert_eq!(cam.pixel_delta_v, Vec3::new(0, -582, 0));
    assert_eq!(cam.pixel00_loc, Vec3::new(116217, 65245, -131072));
    assert_eq!(cam.vfov, 90 * 65536);
}

#[test]
fn get_ray_starts_at_the_eye() {
    let cam = Camera::default();
    let mut smp = Sampler::new(3);
    let ray = cam.get_ray(200, 112, &mut smp);
    assert_eq!(ray.origin, cam.origin);
    assert!(!ray.direction.near_zero());
}

fn two_sphere_scene() -> HittableList {
    let ground = Material::Lambertian(Lambertian::new(Vec3::new(32768, 32768, 32768)));
    let centre = Material::Lambertian(Lambertian::new(Vec3::new(6554, 13107, 32768)));
    let mut world = HittableList::new();
    world.add(Hittable::Sphere(Sphere::new(
        Vec3::new(0, -6586368, 0),
        100 * 65536,
        ground,
    )));
    world.add(Hittable::Sphere(Sphere::new(Vec3::new(0, 0, 0), 32768, centre)));
    world
}

#[test]
fn seeded_render_reproduces_known_pixels() {
    let cam = Camera::default();
    let world = two_sphere_scene();
    let mut smp = Sampler::new(1);
    let image = cam.render(&world, 1, 1, &mut smp);
    assert_eq!(image.len(), (IMAGE_WIDTH * IMAGE_HEIGHT) as usize);
    // golden pixel values of this seed, fixed once and kept as a
    // regression reference: the top-left pixel and the image center
    assert_eq!(image[0], (204, 226, 255));
    assert_eq!(image[45000], (221, 235, 255));
}

#[test]
fn seeded_render_is_deterministic() {
    let cam = Camera::default();
    let world = two_sphere_scene();
    let mut s1 = Sampler::new(7);
    let mut s2 = Sampler::new(7);
    let a = cam.render(&world, 1, 1, &mut s1);
    let b = cam.render(&world, 1, 1, &mut s2);
    assert_eq!(a, b);
    assert_eq!(s1.state, s2.state);
}
