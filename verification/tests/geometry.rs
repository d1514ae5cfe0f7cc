//! Vector algebra, ray-sphere intersection and the nearest-hit search,
//! on concrete fixed-point values.

use ray_tracer::fixed::{FP_INF, FP_ONE};
use ray_tracer::hittable::{HitRecord, Hittable, HittableList};
use ray_tracer::material::{Lambertian, Material};
use ray_tracer::ray::Ray;
use ray_tracer::sphere::Sphere;
use ray_tracer::util::Interval;
use ray_tracer::vector3::{cross, dot, unit_vector, reflect, Vec3};

fn grey() -> Material {
    Material::Lambertian(Lambertian::new(Vec3::new(32768, 32768, 32768)))
}

fn blue() -> Material {
    Material::Lambertian(Lambertian::new(Vec3::new(6554, 13107, 32768)))
}

#[test]
fn vector_algebra() {
    let a = Vec3::new(65536, 131072, 196608);
    let b = Vec3::new(262144, 327680, 393216);
    assert_eq!(a.add(b), Vec3::new(327680, 458752, 589824));
    assert_eq!(b.sub(a), Vec3::new(196608, 196608, 196608));
    assert_eq!(a.neg(), Vec3::new(-65536, -131072, -196608));
    assert_eq!(a.scale(131072), Vec3::new(131072, 262144, 393216));
    assert_eq!(a.div(131072), Vec3::new(32768, 65536, 98304));
    // (1,2,3) . (4,5,6) = 32
    assert_eq!(dot(&a, &b), 32 * 65536);
    // (1,0,0) x (0,1,0) = (0,0,1)
    let x = Vec3::new(65536, 0, 0);
    let y = Vec3::new(0, 65536, 0);
    assert_eq!(cross(&x, &y), Vec3::new(0, 0, 65536));
    // |(3,4,0)| = 5, and its unit vector is (0.6, 0.8, 0) up to truncation
    let v = Vec3::new(196608, 262144, 0);
    assert_eq!(v.length_squared(), 25 * 65536);
    assert_eq!(v.length(), 5 * 65536);
    assert_eq!(unit_vector(&v), Vec3::new(39321, 52428, 0));
}

#[test]
fn length_is_zero_only_at_zero() {
    // the root is taken over the raw component squares, so even a
    // single-grid-unit vector has a nonzero length
    assert_eq!(Vec3::new(0, 0, 0).length(), 0);
    assert_eq!(Vec3::new(1, 0, 0).length(), 1);
    assert_eq!(Vec3::new(0, -1, 0).length(), 1);
    assert_eq!(Vec3::new(362, 362, 0).length(), 511);
}

#[test]
fn near_zero_only_at_zero() {
    assert!(Vec3::new(0, 0, 0).near_zero());
    assert!(!Vec3::new(1, 0, 0).near_zero());
    assert!(!Vec3::new(0, 0, -1).near_zero());
}

#[test]
fn reflect_across_a_normal() {
    // reflecting (0,0,-1) about the normal (0,0,1) turns it around
    let v = Vec3::new(0, 0, -65536);
    let n = Vec3::new(0, 0, 65536);
    assert_eq!(reflect(&v, &n), Vec3::new(0, 0, 65536));
}

#[test]
fn ray_at_parameter() {
    let r = Ray::new(&Vec3::new(65536, 0, 0), &Vec3::new(0, 0, 65536));
    assert_eq!(r.at(131072), Vec3::new(65536, 0, 131072));
}

#[test]
fn interval_contains_and_surrounds() {
    let itv = Interval::new(0, 65536);
    assert!(itv.contains(0) && itv.contains(65536));
    assert!(!itv.surrounds(0) && !itv.surrounds(65536));
    assert!(itv.surrounds(1));
    assert!(!itv.contains(-1));
}

#[test]
fn sphere_head_on_hit_at_d_minus_r() {
    // center 3 away along +z, radius 1: hit at t = 2, from outside,
    // normal opposite the ray
    let s = Sphere::new(Vec3::new(0, 0, 3 * 65536), 65536, grey());
    let ray = Ray::new(&Vec3::new(0, 0, 0), &Vec3::new(0, 0, FP_ONE));
    let rec = s.hit(&ray, Interval::new(66, FP_INF)).unwrap();
    assert_eq!(rec.t, 2 * 65536);
    assert!(rec.front_face);
    assert_eq!(rec.normal, Vec3::new(0, 0, -65536));
    assert_eq!(rec.p, Vec3::new(0, 0, 2 * 65536));
}

#[test]
fn sphere_missed_when_offset_exceeds_radius() {
    // center offset 2 to the side, radius 1: the ray passes by
    let s = Sphere::new(Vec3::new(2 * 65536, 0, 3 * 65536), 65536, grey());
    let ray = Ray::new(&Vec3::new(0, 0, 0), &Vec3::new(0, 0, FP_ONE));
    assert!(s.hit(&ray, Interval::new(66, FP_INF)).is_none());
}

#[test]
fn sphere_hit_from_inside_has_back_face() {
    let s = Sphere::new(Vec3::new(0, 0, 0), 65536, grey());
    let ray = Ray::new(&Vec3::new(0, 0, 0), &Vec3::new(0, 0, FP_ONE));
    let rec = s.hit(&ray, Interval::new(66, FP_INF)).unwrap();
    assert_eq!(rec.t, 65536);
    assert!(!rec.front_face);
    // the outward normal (0,0,1) is flipped to oppose the ray
    assert_eq!(rec.normal, Vec3::new(0, 0, -65536));
}

#[test]
fn list_returns_nearest_of_two_overlapping_spheres() {
    // spheres 3 and 5 away along one ray: individual hits at t = 2 and 4
    let near = Sphere::new(Vec3::new(0, 0, 3 * 65536), 65536, grey());
    let far = Sphere::new(Vec3::new(0, 0, 5 * 65536), 65536, blue());
    let ray = Ray::new(&Vec3::new(0, 0, 0), &Vec3::new(0, 0, FP_ONE));
    let itv = Interval::new(66, FP_INF);
    let t_near = near.hit(&ray, itv).unwrap().t;
    let t_far = far.hit(&ray, itv).unwrap().t;
    assert_eq!(t_near, 2 * 65536);
    assert_eq!(t_far, 4 * 65536);

    let mut world = HittableList::new();
    world.add(Hittable::Sphere(near));
    world.add(Hittable::Sphere(far));
    let rec = world.hit(&ray, itv).unwrap();
    assert_eq!(rec.t, t_near.min(t_far));
    assert_eq!(rec.material, grey());

    // the same scene in the other order returns the same nearest hit
    let mut world2 = HittableList::new();
    world2.add(Hittable::Sphere(far));
    world2.add(Hittable::Sphere(near));
    let rec2 = world2.hit(&ray, itv).unwrap();
    assert_eq!(rec2.t, t_near);
    assert_eq!(rec2.material, grey());
}

#[test]
fn empty_list_and_clear_report_no_hit() {
    let ray = Ray::new(&Vec3::new(0, 0, 0), &Vec3::new(0, 0, FP_ONE));
    let mut world = HittableList::new();
    assert!(world.hit(&ray, Interval::new(66, FP_INF)).is_none());
    world.add(Hittable::Sphere(Sphere::new(Vec3::new(0, 0, 3 * 65536), 65536, grey())));
    assert!(world.hit(&ray, Interval::new(66, FP_INF)).is_some());
    world.clear();
    assert!(world.hit(&ray, Interval::new(66, FP_INF)).is_none());
}

#[test]
fn face_normal_orientation_and_record_update() {
    let mut rec = HitRecord {
        p: Vec3::new(0, 0, 0),
        normal: Vec3::new(0, 0, 0),
        material: grey(),
        t: 65536,
        front_face: false,
    };
    let ray = Ray::new(&Vec3::new(0, 0, 0), &Vec3::new(0, 0, FP_ONE));
    // outward normal opposing the ray: kept, front face
    rec.set_face_normal(&ray, Vec3::new(0, 0, -65536));
    assert!(rec.front_face);
    assert_eq!(rec.normal, Vec3::new(0, 0, -65536));
    // outward normal along the ray: flipped, back face
    rec.set_face_normal(&ray, Vec3::new(0, 0, 65536));
    assert!(!rec.front_face);
    assert_eq!(rec.normal, Vec3::new(0, 0, -65536));

    let mut other = rec;
    other.t = 131072;
    rec.update_as(&other);
    assert_eq!(rec.t, 131072);

    let mut r2 = Ray::default();
    r2.update_as(ray);
    assert_eq!(r2.direction, Vec3::new(0, 0, FP_ONE));
    let mut v = Vec3::default();
    v.update_as(Vec3::new(1, 2, 3));
    assert_eq!(v, Vec3::new(1, 2, 3));
}

#[test]
fn negative_radius_flips_the_normal() {
    // the hollow-shell encoding: a negative radius points the outward
    // normal inward, so a ray from outside sees a back face
    let s = Sphere::new(Vec3::new(0, 0, 3 * 65536), -65536, grey());
    let ray = Ray::new(&Vec3::new(0, 0, 0), &Vec3::new(0, 0, FP_ONE));
    let rec = s.hit(&ray, Interval::new(66, FP_INF)).unwrap();
    assert_eq!(rec.t, 2 * 65536);
    assert!(!rec.front_face);
}
