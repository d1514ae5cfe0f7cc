//! The camera: viewport geometry derived once from the configuration,
//! jittered primary rays, the recursive color integrator, and the render
//! loop over all pixels.

use vstd::prelude::*;
use crate::fixed::{FP_ONE, FP_MINUS_ONE, FP_INF, s_add, s_sub, s_mul, s_div, fp_add, fp_sub, fp_mul, fp_div};
use crate::hittable::{
    HittableList, Hittable, s_list_hit, list_wf, list_albedos_unit, lemma_list_hit_wf,
    lemma_list_hit_albedo,
};
use crate::material::{s_scatter, lemma_scatter_attenuation_unit};
use crate::ray::Ray;
use crate::sampler::{Sampler, next_state, rand_fp01};
use crate::util::Interval;
use crate::vector3::{
    FP_TWO, Vec3, Point3, Color, sv_add, sv_sub, sv_neg, sv_scale, sv_div, sv_mul, sv_lensq,
    sv_unit, sv_cross, sv_color_unit, s_write_color, unit_vector, cross, write_color,
    lemma_lensq_pos_not_zero, lemma_sv_unit_bounds,
};

verus! {

pub const IMAGE_WIDTH: i64 = 400;

pub const IMAGE_HEIGHT: i64 = 225;

pub const SAMPLES_PER_PIXEL: i64 = 100;

pub const MAX_DEPTH: i64 = 50;

/// The least accepted hit distance, about 0.001: hits nearer than this are
/// taken for the surface the ray just left, the shadow-acne guard.
pub const T_MIN_HIT: i64 = 66;

/// The fixed-point representation of -0.5.
pub const FP_NEG_HALF: i64 = -32768;

/// The fixed-point representation of 0.5.
pub const FP_HALF: i64 = 32768;

/// Derived, immutable viewport geometry: the eye, the per-pixel steps
/// along the viewport edges, the world position of pixel (0,0), and the
/// vertical field of view in fixed-point degrees.
#[derive(Clone, Copy, PartialEq, Eq, Structural, Debug)]
pub struct Camera {
    pub origin: Point3,
    pub pixel_delta_u: Vec3,
    pub pixel_delta_v: Vec3,
    pub pixel00_loc: Point3,
    pub vfov: i64,
}

/// Mirror of `Camera::default`: the viewport derivation for the fixed
/// configuration (eye at (0,0,-1) looking at the origin, up (0,1,0),
/// a 90 degree vertical field of view, a 16:9 viewport 400 pixels wide).
pub open spec fn s_default_camera() -> Camera {
    let aspect_ratio = s_div(1048576i64, 589824i64);
    let lookfrom = Vec3 { x: 0, y: 0, z: FP_MINUS_ONE };
    let lookat = Vec3 { x: 0, y: 0, z: 0 };
    let vup = Vec3 { x: 0, y: 65536, z: 0 };
    let focal_length = crate::vector3::sv_len(sv_sub(lookfrom, lookat));
    let w = sv_unit(sv_sub(lookfrom, lookat));
    let u = sv_unit(sv_cross(vup, w));
    let v = sv_cross(w, u);
    let h = FP_ONE;
    let viewport_height = s_mul(s_mul(FP_TWO, h), focal_length);
    let viewport_width = s_mul(aspect_ratio, viewport_height);
    let viewport_u = sv_scale(u, viewport_width);
    let viewport_v = sv_scale(sv_neg(v), viewport_height);
    let pixel_delta_u = sv_div(viewport_u, 26214400i64);
    let pixel_delta_v = sv_div(viewport_v, 14745600i64);
    let viewport_upper_left = sv_sub(
        sv_sub(
            sv_sub(lookfrom, Vec3 { x: 0, y: 0, z: focal_length }),
            sv_div(viewport_u, FP_TWO),
        ),
        sv_div(viewport_v, FP_TWO),
    );
    let pixel00_loc = sv_add(viewport_upper_left, sv_scale(sv_add(pixel_delta_u, pixel_delta_v), FP_HALF));
    Camera {
        origin: lookfrom,
        pixel_delta_u,
        pixel_delta_v,
        pixel00_loc,
        vfov: 5898240i64,
    }
}

impl Default for Camera {
    /// The configured vertical field of view is 90 degrees, whose
    /// half-angle has tangent exactly 1, so no trigonometry is needed.
    fn default() -> (c: Camera)
        ensures
            c == s_default_camera(),
    {
        let aspect_ratio = fp_div(1048576, 589824);
        let lookfrom = Vec3::new(0, 0, -65536);
        let lookat = Vec3::new(0, 0, 0);
        let vup = Vec3::new(0, 65536, 0);

        proof {
            lemma_default_camera_arith();
        }

        let origin = lookfrom;
        let diff = lookfrom.sub(lookat);
        let focal_length = diff.length();

        let w = unit_vector(&diff);
        let cu = cross(&vup, &w);
        let u = unit_vector(&cu);
        let v = cross(&w, &u);

        let h = FP_ONE;
        let viewport_height = fp_mul(fp_mul(FP_TWO, h), focal_length);
        let viewport_width = fp_mul(aspect_ratio, viewport_height);

        let viewport_u = u.scale(viewport_width);
        let viewport_v = v.neg().scale(viewport_height);

        let pixel_delta_u = viewport_u.div(26214400);
        let pixel_delta_v = viewport_v.div(14745600);

        let viewport_upper_left = origin.sub(Vec3::new(0, 0, focal_length)).sub(
            viewport_u.div(FP_TWO),
        ).sub(viewport_v.div(FP_TWO));
        let pixel00_loc = viewport_upper_left.add(
            pixel_delta_u.add(pixel_delta_v).scale(FP_HALF),
        );

        Camera {
            origin,
            pixel_delta_u,
            pixel_delta_v,
            pixel00_loc,
            vfov: 5898240,
        }
    }
}

/// The concrete arithmetic the camera derivation rests on: the axis
/// vectors involved have squared length exactly 1.
proof fn lemma_default_camera_arith()
    ensures
        sv_lensq(Vec3 { x: 0, y: 0, z: FP_MINUS_ONE }) == 65536,
        sv_lensq(Vec3 { x: FP_MINUS_ONE, y: 0, z: 0 }) == 65536,
        sv_cross(
            Vec3 { x: 0, y: 65536, z: 0 },
            sv_unit(Vec3 { x: 0, y: 0, z: FP_MINUS_ONE }),
        ) == (Vec3 { x: FP_MINUS_ONE, y: 0, z: 0 }),
{
    lemma_fp_basic_products();
    assert(crate::fixed::tdiv(0, 65536) == 0);
    assert(crate::fixed::tdiv((-65536) * (-65536), 65536) == 65536);
    assert(crate::fixed::tdiv(65536 * (-65536), 65536) == -65536);
    assert(sv_lensq(Vec3 { x: 0, y: 0, z: FP_MINUS_ONE }) == 65536);
    assert(crate::fixed::s_len3(0, 0, FP_MINUS_ONE) == 65536) by {
        lemma_fp_basic_products();
        crate::fixed::lemma_sqrt_floor_unique((65536 * 65536) as nat, 65536nat);
    }
    assert(crate::fixed::s_len3(FP_MINUS_ONE, 0, 0) == 65536) by {
        lemma_fp_basic_products();
        crate::fixed::lemma_sqrt_floor_unique((65536 * 65536) as nat, 65536nat);
    }
    assert(crate::fixed::tdiv((-65536) * 65536, 65536) == -65536);
    assert(sv_unit(Vec3 { x: 0, y: 0, z: FP_MINUS_ONE }) == (Vec3 { x: 0, y: 0, z: FP_MINUS_ONE }));
    assert(sv_lensq(Vec3 { x: FP_MINUS_ONE, y: 0, z: 0 }) == 65536);
}

/// Products of the grid constants, evaluated once for the lemmas above.
proof fn lemma_fp_basic_products()
    ensures
        0 * 0 == 0,
        (-65536) * (-65536) == 65536 * 65536,
        65536 * 65536 == 4294967296,
        65536 * (-65536) == -4294967296,
        (-65536) * 65536 == -4294967296,
        0 * 65536 == 0,
        0 * (-65536) == 0,
        65536 * 0 == 0,
        (-65536) * 0 == 0,
        4294967296int / 65536 == 65536,
        (65536nat + 1) * (65536nat + 1) > 65536 * 65536,
{
    assert((-65536) * (-65536) == 4294967296int) by (nonlinear_arith);
    assert(65536 * 65536 == 4294967296int) by (nonlinear_arith);
    assert(65536 * (-65536) == -4294967296int) by (nonlinear_arith);
    assert((-65536) * 65536 == -4294967296int) by (nonlinear_arith);
    assert(0 * 65536 == 0int) by (nonlinear_arith);
    assert(0 * (-65536) == 0int) by (nonlinear_arith);
    assert(65536 * 0 == 0int) by (nonlinear_arith);
    assert((-65536) * 0 == 0int) by (nonlinear_arith);
    assert(0 * 0 == 0int) by (nonlinear_arith);
    assert(4294967296int / 65536 == 65536) by (nonlinear_arith);
    assert((65536nat + 1) * (65536nat + 1) > 65536 * 65536) by (nonlinear_arith);
}

/// Mirror of `Camera::pixel_sample_square`: a point of the pixel footprint,
/// offset by up to half a pixel each way.
pub open spec fn s_pixel_sample_square(cam: Camera, s: u64) -> (Vec3, u64) {
    let s1 = next_state(s);
    let s2 = next_state(s1);
    let px = s_add(FP_NEG_HALF, rand_fp01(s));
    let py = s_add(FP_NEG_HALF, rand_fp01(s1));
    (sv_add(sv_scale(cam.pixel_delta_u, px), sv_scale(cam.pixel_delta_v, py)), s2)
}

/// Mirror of `Camera::get_ray`.
pub open spec fn s_get_ray(cam: Camera, i: i64, j: i64, s: u64) -> (Ray, u64) {
    let pixel_center = sv_add(
        sv_add(cam.pixel00_loc, sv_scale(cam.pixel_delta_u, (i * 65536) as i64)),
        sv_scale(cam.pixel_delta_v, (j * 65536) as i64),
    );
    let (off, s1) = s_pixel_sample_square(cam, s);
    let pixel_sample = sv_add(pixel_center, off);
    (Ray { origin: cam.origin, direction: sv_sub(pixel_sample, cam.origin) }, s1)
}

/// Mirror of `Camera::ray_color`. Beside the depth cutoff and the miss
/// (sky) case, a ray whose direction has squared length zero on the
/// fixed-point grid yields black: such a direction cannot be normalized,
/// a degenerate case to be guarded against rather than propagated.
pub open spec fn s_ray_color(ray: Ray, objs: Seq<Hittable>, depth: i64, s: u64) -> (Color, u64)
    decreases depth,
{
    let black = Color { x: 0, y: 0, z: 0 };
    if depth <= 0 {
        (black, s)
    } else if sv_lensq(ray.direction) <= 0 {
        (black, s)
    } else {
        match s_list_hit(objs, ray, Interval { min: T_MIN_HIT, max: FP_INF }) {
            Option::Some(rec) => {
                let (sc, s1) = s_scatter(rec.material, ray, rec, s);
                match sc {
                    Option::Some((attenuation, scattered)) => {
                        let (c, s2) = s_ray_color(scattered, objs, (depth - 1) as i64, s1);
                        (sv_mul(c, attenuation), s2)
                    },
                    Option::None => (black, s1),
                }
            },
            Option::None => {
                let unit_direction = sv_unit(ray.direction);
                let t = s_mul(FP_HALF, s_add(unit_direction.y, FP_ONE));
                let white = Color { x: 65536, y: 65536, z: 65536 };
                let skyblue = Color { x: 32768, y: 45875, z: 65536 };
                (sv_add(sv_scale(white, s_sub(FP_ONE, t)), sv_scale(skyblue, t)), s)
            },
        }
    }
}

/// The color accumulated over the first `n` samples of pixel (i, j), and
/// the sampler state after them.
#[verifier::opaque]
pub open spec fn s_pixel_samples(
    cam: Camera,
    objs: Seq<Hittable>,
    i: i64,
    j: i64,
    n: i64,
    depth: i64,
    s: u64,
) -> (Color, u64)
    decreases n,
{
    if n <= 0 {
        (Color { x: 0, y: 0, z: 0 }, s)
    } else {
        let (acc, s1) = s_pixel_samples(cam, objs, i, j, (n - 1) as i64, depth, s);
        let (ray, s2) = s_get_ray(cam, i, j, s1);
        let (c, s3) = s_ray_color(ray, objs, depth, s2);
        (sv_add(acc, c), s3)
    }
}

/// The first `k` pixels of the image (row-major, top row first) and the
/// sampler state after them.
#[verifier::opaque]
pub open spec fn s_render_upto(
    cam: Camera,
    objs: Seq<Hittable>,
    k: int,
    spp: i64,
    depth: i64,
    s: u64,
) -> (Seq<(u8, u8, u8)>, u64)
    decreases k,
{
    if k <= 0 {
        (Seq::empty(), s)
    } else {
        let (pre, s1) = s_render_upto(cam, objs, k - 1, spp, depth, s);
        let j = (k - 1) / 400;
        let i = (k - 1) % 400;
        let (acc, s2) = s_pixel_samples(cam, objs, i as i64, j as i64, spp, depth, s1);
        (pre.push(s_write_color(acc, spp)), s2)
    }
}

impl Camera {
    /// A primary ray through pixel (i, j), jittered inside the pixel.
    pub fn get_ray(&self, i: i64, j: i64, smp: &mut Sampler) -> (r: Ray)
        requires
            0 <= i <= 100000,
            0 <= j <= 100000,
        ensures
            (r, final(smp).state) == s_get_ray(*self, i, j, old(smp).state),
    {
        let pixel_center = self.pixel00_loc.add(self.pixel_delta_u.scale(i * 65536)).add(
            self.pixel_delta_v.scale(j * 65536),
        );
        let pixel_sample = pixel_center.add(self.pixel_sample_square(smp));

        let ray_origin = self.origin;
        let ray_direction = pixel_sample.sub(ray_origin);
        Ray::new(&ray_origin, &ray_direction)
    }

    /// A uniform offset within the pixel footprint: up to half a pixel
    /// step away from the center along each edge.
    pub fn pixel_sample_square(&self, smp: &mut Sampler) -> (r: Vec3)
        ensures
            (r, final(smp).state) == s_pixel_sample_square(*self, old(smp).state),
    {
        let px = fp_add(FP_NEG_HALF, smp.next_fp01());
        let py = fp_add(FP_NEG_HALF, smp.next_fp01());
        self.pixel_delta_u.scale(px).add(self.pixel_delta_v.scale(py))
    }

    /// The radiance carried back along a ray: black once the bounce budget
    /// is spent or the hit material absorbs, the sky gradient on a miss,
    /// and otherwise the attenuated radiance of the scattered ray.
    pub fn ray_color(&self, ray: &Ray, world: &HittableList, depth: i64, smp: &mut Sampler) -> (r:
        Color)
        requires
            list_wf(world.objects@),
        ensures
            (r, final(smp).state) == s_ray_color(*ray, world.objects@, depth, old(smp).state),
        decreases depth,
    {
        if depth <= 0 {
            return Vec3::new(0, 0, 0);
        }
        if ray.direction().length_squared() <= 0 {
            return Vec3::new(0, 0, 0);
        }
        match world.hit(ray, Interval::new(T_MIN_HIT, FP_INF)) {
            Some(rec) => {
                proof {
                    lemma_list_hit_wf(
                        world.objects@,
                        *ray,
                        Interval { min: T_MIN_HIT, max: FP_INF },
                    );
                }
                match rec.material.scatter(ray, &rec, smp) {
                    Some((attenuation, scattered)) => {
                        self.ray_color(&scattered, world, depth - 1, smp).mul(attenuation)
                    },
                    None => Vec3::new(0, 0, 0),
                }
            },
            None => {
                proof {
                    crate::vector3::lemma_lensq_pos_not_zero(ray.direction);
                }
                let unit_direction = unit_vector(ray.direction());
                let t = fp_mul(FP_HALF, fp_add(unit_direction.y(), FP_ONE));
                let white = Vec3::new(65536, 65536, 65536);
                let skyblue = Vec3::new(32768, 45875, 65536);
                white.scale(fp_sub(FP_ONE, t)).add(skyblue.scale(t))
            },
        }
    }

    /// The accumulated color of pixel (i, j) over `samples` jittered rays.
    pub fn sample_pixel(
        &self,
        world: &HittableList,
        i: i64,
        j: i64,
        samples: i64,
        depth: i64,
        smp: &mut Sampler,
    ) -> (r: Color)
        requires
            list_wf(world.objects@),
            0 <= i <= 100000,
            0 <= j <= 100000,
            samples >= 0,
        ensures
            (r, final(smp).state) == s_pixel_samples(
                *self,
                world.objects@,
                i,
                j,
                samples,
                depth,
                old(smp).state,
            ),
    {
        let ghost s0 = smp.state;
        proof {
            reveal_with_fuel(s_pixel_samples, 1);
        }
        let mut pixel_color = Vec3::new(0, 0, 0);
        let mut n: i64 = 0;
        while n < samples
            invariant
                0 <= n <= samples,
                list_wf(world.objects@),
                0 <= i <= 100000,
                0 <= j <= 100000,
                (pixel_color, smp.state) == s_pixel_samples(
                    *self,
                    world.objects@,
                    i,
                    j,
                    n,
                    depth,
                    s0,
                ),
            decreases samples - n,
        {
            let ghost n0 = n;
            let ray = self.get_ray(i, j, smp);
            let c = self.ray_color(&ray, world, depth, smp);
            pixel_color = pixel_color.add(c);
            n = n + 1;
            proof {
                reveal_with_fuel(s_pixel_samples, 1);
                assert((pixel_color, smp.state) == s_pixel_samples(
                    *self,
                    world.objects@,
                    i,
                    j,
                    n,
                    depth,
                    s0,
                ));
            }
        }
        pixel_color
    }

    /// Renders the whole image: a row-major grid of gamma-corrected
    /// integer color triples, top row first, `IMAGE_WIDTH * IMAGE_HEIGHT`
    /// of them.
    pub fn render(
        &self,
        world: &HittableList,
        samples_per_pixel: i64,
        max_depth: i64,
        smp: &mut Sampler,
    ) -> (r: Vec<(u8, u8, u8)>)
        requires
            list_wf(world.objects@),
            samples_per_pixel > 0,
        ensures
            (r@, final(smp).state) == s_render_upto(
                *self,
                world.objects@,
                90000,
                samples_per_pixel,
                max_depth,
                old(smp).state,
            ),
            r@.len() == IMAGE_WIDTH * IMAGE_HEIGHT,
    {
        let ghost s0 = smp.state;
        proof {
            reveal_with_fuel(s_render_upto, 1);
        }
        let mut out: Vec<(u8, u8, u8)> = Vec::new();
        let mut k: usize = 0;
        while k < 90000
            invariant
                0 <= k <= 90000,
                list_wf(world.objects@),
                samples_per_pixel > 0,
                out@.len() == k,
                (out@, smp.state) == s_render_upto(
                    *self,
                    world.objects@,
                    k as int,
                    samples_per_pixel,
                    max_depth,
                    s0,
                ),
            decreases 90000 - k,
        {
            let j: i64 = (k as i64) / 400;
            let i: i64 = (k as i64) % 400;
            let acc = self.sample_pixel(world, i, j, samples_per_pixel, max_depth, smp);
            let rgb = write_color(acc, samples_per_pixel);
            out.push(rgb);
            k = k + 1;
            proof {
                reveal_with_fuel(s_render_upto, 1);
                assert((out@, smp.state) == s_render_upto(
                    *self,
                    world.objects@,
                    k as int,
                    samples_per_pixel,
                    max_depth,
                    s0,
                ));
            }
        }
        out
    }
}

/// Seeded rendering is deterministic: two renders of the same camera and
/// scene that start from the same sampler state produce the same image
/// and leave the sampler in the same state, because the whole grid is a
/// function of camera, scene and seed.
pub proof fn lemma_render_deterministic(
    cam: Camera,
    objs: Seq<Hittable>,
    spp: i64,
    depth: i64,
    seed: u64,
    image1: Seq<(u8, u8, u8)>,
    left1: u64,
    image2: Seq<(u8, u8, u8)>,
    left2: u64,
)
    requires
        (image1, left1) == s_render_upto(cam, objs, 90000, spp, depth, seed),
        (image2, left2) == s_render_upto(cam, objs, 90000, spp, depth, seed),
    ensures
        image1 == image2,
        left1 == left2,
{
}

/// The sky gradient stays in the unit color cube for every ray whose
/// direction has positive squared length: a normalized direction's
/// vertical component has magnitude at most 1, so the lerp parameter
/// lies in [0, 1], and the lerp of two unit colors with it does too.
proof fn lemma_sky_color_unit(dir: Vec3)
    requires
        sv_lensq(dir) > 0,
    ensures
        ({
            let unit_direction = sv_unit(dir);
            let t = s_mul(FP_HALF, s_add(unit_direction.y, FP_ONE));
            let white = Color { x: 65536, y: 65536, z: 65536 };
            let skyblue = Color { x: 32768, y: 45875, z: 65536 };
            sv_color_unit(sv_add(sv_scale(white, s_sub(FP_ONE, t)), sv_scale(skyblue, t)))
        }),
{
    lemma_lensq_pos_not_zero(dir);
    lemma_sv_unit_bounds(dir);
    let unit_direction = sv_unit(dir);
    let lifted = s_add(unit_direction.y, FP_ONE);
    assert(0 <= lifted <= 131072);
    let t = s_mul(FP_HALF, lifted);
    assert(0 <= t <= FP_ONE) by {
        assert(0 <= 32768 * lifted) by (nonlinear_arith)
            requires
                0 <= lifted;
        assert(32768 * lifted <= 32768 * 131072) by (nonlinear_arith)
            requires
                lifted <= 131072;
        assert(32768int * 131072 == 4294967296) by (nonlinear_arith);
        crate::fixed::lemma_tdiv_monotone(32768 * (lifted as int), 4294967296, 65536);
        assert(crate::fixed::tdiv(4294967296, 65536) == 65536) by {
            assert(4294967296int / 65536 == 65536) by (nonlinear_arith);
        }
        vstd::arithmetic::div_mod::lemma_div_pos_is_pos(32768 * (lifted as int), 65536);
    }
    let white = Color { x: 65536, y: 65536, z: 65536 };
    let skyblue = Color { x: 32768, y: 45875, z: 65536 };
    crate::fixed::lemma_s_mul_unit_scale(white.x, s_sub(FP_ONE, t));
    crate::fixed::lemma_s_mul_unit_scale(white.y, s_sub(FP_ONE, t));
    crate::fixed::lemma_s_mul_unit_scale(white.z, s_sub(FP_ONE, t));
    crate::fixed::lemma_s_mul_unit_scale(skyblue.x, t);
    crate::fixed::lemma_s_mul_unit_scale(skyblue.y, t);
    crate::fixed::lemma_s_mul_unit_scale(skyblue.z, t);
}

/// The radiance the integrator returns lies in the unit color cube
/// whenever every albedo of the scene does: black and the sky gradient
/// lie in it, and attenuating a unit color by a unit albedo keeps it in.
pub proof fn lemma_ray_color_unit(ray: Ray, objs: Seq<Hittable>, depth: i64, s: u64)
    requires
        list_albedos_unit(objs),
    ensures
        sv_color_unit(s_ray_color(ray, objs, depth, s).0),
    decreases depth,
{
    let black = Color { x: 0, y: 0, z: 0 };
    if depth <= 0 {
    } else if sv_lensq(ray.direction) <= 0 {
    } else {
        let itv = Interval { min: T_MIN_HIT, max: FP_INF };
        match s_list_hit(objs, ray, itv) {
            Option::Some(rec) => {
                lemma_list_hit_albedo(objs, ray, itv);
                lemma_scatter_attenuation_unit(rec.material, ray, rec, s);
                let (sc, s1) = s_scatter(rec.material, ray, rec, s);
                match sc {
                    Option::Some(pair) => {
                        let attenuation = pair.0;
                        let scattered = pair.1;
                        lemma_ray_color_unit(scattered, objs, (depth - 1) as i64, s1);
                        let c = s_ray_color(scattered, objs, (depth - 1) as i64, s1).0;
                        crate::fixed::lemma_s_mul_unit_scale(c.x, attenuation.x);
                        crate::fixed::lemma_s_mul_unit_scale(c.y, attenuation.y);
                        crate::fixed::lemma_s_mul_unit_scale(c.z, attenuation.z);
                    },
                    Option::None => {},
                }
            },
            Option::None => {
                lemma_sky_color_unit(ray.direction);
            },
        }
    }
}

} // verus!
