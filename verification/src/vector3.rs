//! Three-component vectors over fixed-point scalars, with the color
//! conversion used when a pixel is emitted.

use vstd::prelude::*;
use crate::fixed::{
    FP_ONE, s_add, s_sub, s_neg, s_mul, s_div, s_min, s_abs, s_clamp, s_sqrt, s_len3, sat64, tdiv,
    abs_i, fp_add, fp_sub, fp_neg, fp_mul, fp_div, fp_min, fp_abs, fp_sqrt, fp_clamp, fp_len3,
    lemma_sqrt_floor, lemma_s_mul_zero, lemma_len3_pos, lemma_len3_zero_iff_zero,
    lemma_len3_unit_bound, lemma_square_nonneg, lemma_square_ordered, lemma_square_ordered_strict,
    lemma_component_at_most_root, sqrt_floor,
};
use crate::sampler::{Sampler, next_state, rand_fp01};

verus! {

/// The fixed-point representation of 2.0.
pub const FP_TWO: i64 = 131072;

/// The largest channel value before scaling to an integer color: 0.999
/// in fixed point, so that a full-intensity channel maps to 255.
pub const FP_CHANNEL_CAP: i64 = 65470;

#[derive(Clone, Copy, PartialEq, Eq, Structural, Debug)]
pub struct Vec3 {
    pub x: i64,
    pub y: i64,
    pub z: i64,
}

pub type Point3 = Vec3;

pub type Color = Vec3;

pub open spec fn sv_add(a: Vec3, b: Vec3) -> Vec3 {
    Vec3 { x: s_add(a.x, b.x), y: s_add(a.y, b.y), z: s_add(a.z, b.z) }
}

pub open spec fn sv_sub(a: Vec3, b: Vec3) -> Vec3 {
    Vec3 { x: s_sub(a.x, b.x), y: s_sub(a.y, b.y), z: s_sub(a.z, b.z) }
}

pub open spec fn sv_neg(a: Vec3) -> Vec3 {
    Vec3 { x: s_neg(a.x), y: s_neg(a.y), z: s_neg(a.z) }
}

/// Scaling by a fixed-point factor.
pub open spec fn sv_scale(a: Vec3, t: i64) -> Vec3 {
    Vec3 { x: s_mul(a.x, t), y: s_mul(a.y, t), z: s_mul(a.z, t) }
}

/// Component-wise division by a fixed-point scalar (t != 0).
pub open spec fn sv_div(a: Vec3, t: i64) -> Vec3 {
    Vec3 { x: s_div(a.x, t), y: s_div(a.y, t), z: s_div(a.z, t) }
}

/// Component-wise product, the attenuation of a color by an albedo.
pub open spec fn sv_mul(a: Vec3, b: Vec3) -> Vec3 {
    Vec3 { x: s_mul(a.x, b.x), y: s_mul(a.y, b.y), z: s_mul(a.z, b.z) }
}

pub open spec fn sv_dot(a: Vec3, b: Vec3) -> i64 {
    s_add(s_add(s_mul(a.x, b.x), s_mul(a.y, b.y)), s_mul(a.z, b.z))
}

pub open spec fn sv_cross(a: Vec3, b: Vec3) -> Vec3 {
    Vec3 {
        x: s_sub(s_mul(a.y, b.z), s_mul(a.z, b.y)),
        y: s_sub(s_mul(a.z, b.x), s_mul(a.x, b.z)),
        z: s_sub(s_mul(a.x, b.y), s_mul(a.y, b.x)),
    }
}

pub open spec fn sv_lensq(a: Vec3) -> i64 {
    sv_dot(a, a)
}

/// The Euclidean length, taken as the floor square root of the raw sum
/// of the component squares: nothing is truncated before the root, so the
/// length is zero exactly when the vector is zero.
pub open spec fn sv_len(a: Vec3) -> i64 {
    s_len3(a.x, a.y, a.z)
}

/// Division by the own length; meaningful when the vector is nonzero.
pub open spec fn sv_unit(a: Vec3) -> Vec3 {
    sv_div(a, sv_len(a))
}

/// On the fixed-point grid the only vector within the degeneracy threshold
/// of zero in every component is zero itself.
pub open spec fn sv_near_zero(a: Vec3) -> bool {
    a.x == 0 && a.y == 0 && a.z == 0
}

/// A color whose components all lie in [0, 1].
pub open spec fn sv_color_unit(c: Vec3) -> bool {
    &&& 0 <= c.x <= FP_ONE
    &&& 0 <= c.y <= FP_ONE
    &&& 0 <= c.z <= FP_ONE
}

/// Mirror reflection about a normal: v - 2*dot(v,n)*n.
pub open spec fn sv_reflect(v: Vec3, n: Vec3) -> Vec3 {
    sv_sub(v, sv_scale(sv_scale(n, sv_dot(v, n)), FP_TWO))
}

/// A square of a fixed-point value is never negative.
pub proof fn lemma_s_mul_self_nonneg(x: i64)
    ensures
        s_mul(x, x) >= 0,
{
    assert(x * x >= 0) by (nonlinear_arith);
    assert(tdiv(x * x, FP_ONE as int) >= 0);
}

/// A squared length is never negative.
pub proof fn lemma_lensq_nonneg(a: Vec3)
    ensures
        sv_lensq(a) >= 0,
{
    lemma_s_mul_self_nonneg(a.x);
    lemma_s_mul_self_nonneg(a.y);
    lemma_s_mul_self_nonneg(a.z);
}

/// A vector whose fixed-point squared length is positive is nonzero.
pub proof fn lemma_lensq_pos_not_zero(a: Vec3)
    requires
        sv_lensq(a) > 0,
    ensures
        !sv_near_zero(a),
{
    if sv_near_zero(a) {
        lemma_s_mul_zero(0);
    }
}

/// A nonzero vector has a positive length, and its length is zero
/// exactly when it is the zero vector.
pub proof fn lemma_len_zero_iff_zero(a: Vec3)
    ensures
        sv_len(a) >= 0,
        (sv_len(a) == 0) <==> sv_near_zero(a),
{
    lemma_len3_zero_iff_zero(a.x, a.y, a.z);
    if !sv_near_zero(a) {
        lemma_len3_pos(a.x, a.y, a.z);
    } else {
        assert(0 * 0 == 0int) by (nonlinear_arith);
        assert(sqrt_floor(0) == 0);
    }
}

/// Every component of a normalized vector has magnitude at most 1.0:
/// no component exceeds the length it is divided by (up to the one
/// saturated corner, where the quotient still floors to 1.0).
pub proof fn lemma_sv_unit_bounds(a: Vec3)
    requires
        !sv_near_zero(a),
    ensures
        -FP_ONE <= sv_unit(a).x <= FP_ONE,
        -FP_ONE <= sv_unit(a).y <= FP_ONE,
        -FP_ONE <= sv_unit(a).z <= FP_ONE,
{
    lemma_len3_unit_bound(a.x, a.y, a.z);
}

impl Vec3 {
    pub fn new(x: i64, y: i64, z: i64) -> (r: Vec3)
        ensures
            r == (Vec3 { x, y, z }),
    {
        Vec3 { x, y, z }
    }

    /// A vector with each component drawn uniformly from [min, max).
    pub fn random(min: i64, max: i64, smp: &mut Sampler) -> (r: Vec3)
        ensures
            (r, final(smp).state) == sv_random(min, max, old(smp).state),
    {
        let x = crate::util::random_fp(min, max, smp);
        let y = crate::util::random_fp(min, max, smp);
        let z = crate::util::random_fp(min, max, smp);
        Vec3 { x, y, z }
    }

    pub fn x(&self) -> (r: i64)
        ensures
            r == self.x,
    {
        self.x
    }

    pub fn y(&self) -> (r: i64)
        ensures
            r == self.y,
    {
        self.y
    }

    pub fn z(&self) -> (r: i64)
        ensures
            r == self.z,
    {
        self.z
    }

    pub fn add(self, rhs: Vec3) -> (r: Vec3)
        ensures
            r == sv_add(self, rhs),
    {
        Vec3 { x: fp_add(self.x, rhs.x), y: fp_add(self.y, rhs.y), z: fp_add(self.z, rhs.z) }
    }

    pub fn sub(self, rhs: Vec3) -> (r: Vec3)
        ensures
            r == sv_sub(self, rhs),
    {
        Vec3 { x: fp_sub(self.x, rhs.x), y: fp_sub(self.y, rhs.y), z: fp_sub(self.z, rhs.z) }
    }

    pub fn neg(self) -> (r: Vec3)
        ensures
            r == sv_neg(self),
    {
        Vec3 { x: fp_neg(self.x), y: fp_neg(self.y), z: fp_neg(self.z) }
    }

    pub fn scale(self, t: i64) -> (r: Vec3)
        ensures
            r == sv_scale(self, t),
    {
        Vec3 { x: fp_mul(self.x, t), y: fp_mul(self.y, t), z: fp_mul(self.z, t) }
    }

    pub fn div(self, t: i64) -> (r: Vec3)
        requires
            t != 0,
        ensures
            r == sv_div(self, t),
    {
        Vec3 { x: fp_div(self.x, t), y: fp_div(self.y, t), z: fp_div(self.z, t) }
    }

    pub fn mul(self, rhs: Vec3) -> (r: Vec3)
        ensures
            r == sv_mul(self, rhs),
    {
        Vec3 { x: fp_mul(self.x, rhs.x), y: fp_mul(self.y, rhs.y), z: fp_mul(self.z, rhs.z) }
    }

    pub fn length_squared(&self) -> (r: i64)
        ensures
            r == sv_lensq(*self),
            r >= 0,
    {
        proof {
            lemma_lensq_nonneg(*self);
        }
        fp_add(fp_add(fp_mul(self.x, self.x), fp_mul(self.y, self.y)), fp_mul(self.z, self.z))
    }

    pub fn length(&self) -> (r: i64)
        ensures
            r == sv_len(*self),
            r >= 0,
    {
        fp_len3(self.x, self.y, self.z)
    }

    pub fn near_zero(&self) -> (r: bool)
        ensures
            r == sv_near_zero(*self),
    {
        self.x == 0 && self.y == 0 && self.z == 0
    }

    pub fn update_as(&mut self, c: Vec3)
        ensures
            *final(self) == c,
    {
        self.x = c.x;
        self.y = c.y;
        self.z = c.z;
    }
}

impl Default for Vec3 {
    fn default() -> (r: Vec3)
        ensures
            r == (Vec3 { x: 0, y: 0, z: 0 }),
    {
        Vec3 { x: 0, y: 0, z: 0 }
    }
}

/// Mirror of `Vec3::random`: the three draws and the state they leave.
pub open spec fn sv_random(min: i64, max: i64, s: u64) -> (Vec3, u64) {
    let s1 = next_state(s);
    let s2 = next_state(s1);
    let s3 = next_state(s2);
    let x = crate::util::s_random_fp(min, max, s);
    let y = crate::util::s_random_fp(min, max, s1);
    let z = crate::util::s_random_fp(min, max, s2);
    (Vec3 { x, y, z }, s3)
}

pub fn dot(u: &Vec3, v: &Vec3) -> (r: i64)
    ensures
        r == sv_dot(*u, *v),
{
    fp_add(fp_add(fp_mul(u.x, v.x), fp_mul(u.y, v.y)), fp_mul(u.z, v.z))
}

pub fn cross(u: &Vec3, v: &Vec3) -> (r: Vec3)
    ensures
        r == sv_cross(*u, *v),
{
    Vec3 {
        x: fp_sub(fp_mul(u.y, v.z), fp_mul(u.z, v.y)),
        y: fp_sub(fp_mul(u.z, v.x), fp_mul(u.x, v.z)),
        z: fp_sub(fp_mul(u.x, v.y), fp_mul(u.y, v.x)),
    }
}

pub fn unit_vector(u: &Vec3) -> (r: Vec3)
    requires
        !sv_near_zero(*u),
    ensures
        r == sv_unit(*u),
{
    proof {
        lemma_len3_pos(u.x, u.y, u.z);
    }
    let len = u.length();
    u.div(len)
}

pub fn reflect(v: &Vec3, n: &Vec3) -> (r: Vec3)
    ensures
        r == sv_reflect(*v, *n),
{
    let d = dot(v, n);
    v.sub(n.scale(d).scale(FP_TWO))
}

/// Refraction by Snell's law in vector form: the part of the refracted
/// direction perpendicular to the normal is etta * (uv + cos(theta) * n),
/// and the parallel part restores (as far as rounding allows) unit length.
pub open spec fn sv_refract(uv: Vec3, n: Vec3, etta: i64) -> Vec3 {
    let cos_theta = s_min(sv_dot(sv_neg(uv), n), FP_ONE);
    let r_perp = sv_scale(sv_add(uv, sv_scale(n, cos_theta)), etta);
    let r_par = sv_scale(n, s_neg(s_sqrt(s_abs(s_sub(FP_ONE, sv_lensq(r_perp))))));
    sv_add(r_perp, r_par)
}

pub fn refract(uv: &Vec3, n: &Vec3, etta: i64) -> (r: Vec3)
    ensures
        r == sv_refract(*uv, *n, etta),
{
    let cos_theta = fp_min(dot(&uv.neg(), n), FP_ONE);
    let r_perp = uv.add(n.scale(cos_theta)).scale(etta);
    let r_par = n.scale(fp_neg(fp_sqrt(fp_abs(fp_sub(FP_ONE, r_perp.length_squared())))));
    r_perp.add(r_par)
}

/// One color channel scaled by the sample count, gamma-corrected by a
/// square root, clamped, and mapped to an integer in 0..=255.
pub open spec fn s_channel(c: i64, n: i64) -> u8 {
    let scaled = sat64(tdiv(c as int, n as int)) as i64;
    let rooted = if scaled <= 0 {
        0i64
    } else {
        s_sqrt(scaled)
    };
    let clamped = s_clamp(rooted, 0, FP_CHANNEL_CAP);
    ((clamped * 256) / 65536) as u8
}

/// Mirror of `write_color`.
pub open spec fn s_write_color(c: Vec3, n: i64) -> (u8, u8, u8) {
    (s_channel(c.x, n), s_channel(c.y, n), s_channel(c.z, n))
}

fn channel(c: i64, n: i64) -> (r: u8)
    requires
        n > 0,
    ensures
        r == s_channel(c, n),
{
    let scaled = fp_div_count(c, n);
    let rooted = if scaled <= 0 {
        0i64
    } else {
        fp_sqrt(scaled)
    };
    let clamped = fp_clamp(rooted, 0, FP_CHANNEL_CAP);
    ((clamped as u64 * 256) / 65536) as u8
}

/// Division of a fixed-point value by an integer count (not a fixed-point
/// scalar): the average of an accumulated color over its samples.
fn fp_div_count(c: i64, n: i64) -> (r: i64)
    requires
        n > 0,
    ensures
        r as int == sat64(tdiv(c as int, n as int)),
{
    let neg = c < 0;
    let mc: u64 = if c >= 0 {
        c as u64
    } else {
        proof {
            assert((-(i64::MIN as i128)) as u64 == 0x8000_0000_0000_0000u64);
        }
        (-(c as i128)) as u64
    };
    let q = mc / (n as u64);
    if neg {
        if q > 0x8000_0000_0000_0000u64 {
            i64::MIN
        } else {
            (-(q as i128)) as i64
        }
    } else {
        if q > i64::MAX as u64 {
            i64::MAX
        } else {
            q as i64
        }
    }
}

/// The gamma-corrected, clamped integer color of an accumulated pixel,
/// averaged over `samples_per_pixel` samples.
pub fn write_color(pixel_color: Color, samples_per_pixel: i64) -> (rgb: (u8, u8, u8))
    requires
        samples_per_pixel > 0,
    ensures
        rgb == s_write_color(pixel_color, samples_per_pixel),
{
    (
        channel(pixel_color.x, samples_per_pixel),
        channel(pixel_color.y, samples_per_pixel),
        channel(pixel_color.z, samples_per_pixel),
    )
}

/// The division facts a component of a normalization obeys: writing
/// q for the magnitude of the truncated quotient c * 1.0 / len, the
/// product len * q brackets |c| * 1.0 from below and len * (q + 1) from
/// above, and q itself is at most 1.0.
proof fn lemma_scaled_div_facts(c: i64, len: int)
    requires
        1 <= len <= 65536,
        abs_i(c as int) <= len,
    ensures
        ({
            let q = abs_i(tdiv(c * 65536, len));
            &&& tdiv(c * 65536, len) == if c >= 0 {
                q
            } else {
                -q
            }
            &&& 0 <= q <= 65536
            &&& len * q <= abs_i(c as int) * 65536
            &&& abs_i(c as int) * 65536 < len * (q + 1)
        }),
{
    let m = abs_i(c as int) * 65536;
    let d = m / len;
    vstd::arithmetic::div_mod::lemma_fundamental_div_mod(m, len);
    vstd::arithmetic::div_mod::lemma_mod_bound(m, len);
    vstd::arithmetic::div_mod::lemma_div_pos_is_pos(m, len);
    assert(len * d <= m);
    assert(m < len * (d + 1)) by {
        assert(len * (d + 1) == len * d + len) by (nonlinear_arith);
    }
    assert(d <= 65536) by {
        assert(m <= len * 65536);
        vstd::arithmetic::div_mod::lemma_div_is_ordered(m, len * 65536, len);
        vstd::arithmetic::div_mod::lemma_div_multiples_vanish(65536, len);
    }
    assert(abs_i(c * 65536) == m);
    if c >= 0 {
        assert(tdiv(c * 65536, len) == d);
    } else {
        assert(tdiv(c * 65536, len) == -d);
    }
}

/// A draw whose fixed-point squared length lies in [0.25, 1) normalizes
/// to a vector whose length is 1.0 up to a few grid units: it lies
/// between 1 - 4*2^-16 and 1 + 2^-16.
pub proof fn lemma_sv_unit_near_unit(p: Vec3)
    requires
        16384 <= sv_lensq(p) < FP_ONE,
    ensures
        65532 <= sv_len(sv_unit(p)) <= 65537,
{
    let x = p.x;
    let y = p.y;
    let z = p.z;
    lemma_square_nonneg(x as int);
    lemma_square_nonneg(y as int);
    lemma_square_nonneg(z as int);
    vstd::arithmetic::div_mod::lemma_div_pos_is_pos(x * x, 65536);
    vstd::arithmetic::div_mod::lemma_div_pos_is_pos(y * y, 65536);
    vstd::arithmetic::div_mod::lemma_div_pos_is_pos(z * z, 65536);

    // the grid squared length did not saturate anywhere, so it is the
    // exact sum of the three truncated squares
    let tx = tdiv(x * x, 65536);
    let ty = tdiv(y * y, 65536);
    let tz = tdiv(z * z, 65536);
    assert(sv_lensq(p) == tx + ty + tz);
    let lensq = tx + ty + tz;

    // each square loses less than one grid unit to truncation
    vstd::arithmetic::div_mod::lemma_fundamental_div_mod(x * x, 65536);
    vstd::arithmetic::div_mod::lemma_mod_bound(x * x, 65536);
    vstd::arithmetic::div_mod::lemma_fundamental_div_mod(y * y, 65536);
    vstd::arithmetic::div_mod::lemma_mod_bound(y * y, 65536);
    vstd::arithmetic::div_mod::lemma_fundamental_div_mod(z * z, 65536);
    vstd::arithmetic::div_mod::lemma_mod_bound(z * z, 65536);
    let raw = x * x + y * y + z * z;
    assert(65536 * lensq <= raw);
    assert(raw < 65536 * lensq + 3 * 65536);
    assert(1073741824 <= raw);
    assert(raw < 4295098368);

    // the normalizing length lies in [0.5, 1.0]
    let len = sqrt_floor(raw as nat) as int;
    lemma_sqrt_floor(raw as nat);
    assert(len >= 32768) by {
        if len + 1 <= 32768 {
            lemma_square_ordered(len + 1, 32768);
            assert(32768int * 32768 == 1073741824) by (nonlinear_arith);
        }
    }
    assert(len <= 65536) by {
        if len >= 65537 {
            lemma_square_ordered(65537, len);
            assert(65537int * 65537 == 4295098369) by (nonlinear_arith);
        }
    }
    assert(sv_len(p) == len);

    // no component exceeds the length
    assert(abs_i(x as int) * abs_i(x as int) == x * x) by (nonlinear_arith);
    assert(abs_i(y as int) * abs_i(y as int) == y * y) by (nonlinear_arith);
    assert(abs_i(z as int) * abs_i(z as int) == z * z) by (nonlinear_arith);
    lemma_component_at_most_root(abs_i(x as int), len, raw);
    lemma_component_at_most_root(abs_i(y as int), len, raw);
    lemma_component_at_most_root(abs_i(z as int), len, raw);

    lemma_scaled_div_facts(x, len);
    lemma_scaled_div_facts(y, len);
    lemma_scaled_div_facts(z, len);
    let qx = abs_i(tdiv(x * 65536, len));
    let qy = abs_i(tdiv(y * 65536, len));
    let qz = abs_i(tdiv(z * 65536, len));
    let usq = qx * qx + qy * qy + qz * qz;

    // the components of the normalized vector are exactly the truncated
    // quotients, and their square sum is usq
    let u = sv_unit(p);
    assert(u.x as int == tdiv(x * 65536, len) && u.y as int == tdiv(y * 65536, len) && u.z as int
        == tdiv(z * 65536, len));
    assert(u.x * u.x == qx * qx) by (nonlinear_arith)
        requires
            u.x as int == qx || u.x as int == -qx;
    assert(u.y * u.y == qy * qy) by (nonlinear_arith)
        requires
            u.y as int == qy || u.y as int == -qy;
    assert(u.z * u.z == qz * qz) by (nonlinear_arith)
        requires
            u.z as int == qz || u.z as int == -qz;

    // upper bound: len^2 * usq <= raw * 65536^2 < ((len+1) * 65536)^2
    //              <= (65538 * len)^2, so usq < 65538^2
    assert(len * qx * (len * qx) <= abs_i(x as int) * 65536 * (abs_i(x as int) * 65536))
        by (nonlinear_arith)
        requires
            0 <= len * qx <= abs_i(x as int) * 65536;
    assert(len * qy * (len * qy) <= abs_i(y as int) * 65536 * (abs_i(y as int) * 65536))
        by (nonlinear_arith)
        requires
            0 <= len * qy <= abs_i(y as int) * 65536;
    assert(len * qz * (len * qz) <= abs_i(z as int) * 65536 * (abs_i(z as int) * 65536))
        by (nonlinear_arith)
        requires
            0 <= len * qz <= abs_i(z as int) * 65536;
    assert(len * qx * (len * qx) == (len * len) * (qx * qx)) by (nonlinear_arith);
    assert(len * qy * (len * qy) == (len * len) * (qy * qy)) by (nonlinear_arith);
    assert(len * qz * (len * qz) == (len * len) * (qz * qz)) by (nonlinear_arith);
    assert(abs_i(x as int) * 65536 * (abs_i(x as int) * 65536) == (x * x) * (65536 * 65536))
        by (nonlinear_arith)
        requires
            abs_i(x as int) * abs_i(x as int) == x * x;
    assert(abs_i(y as int) * 65536 * (abs_i(y as int) * 65536) == (y * y) * (65536 * 65536))
        by (nonlinear_arith)
        requires
            abs_i(y as int) * abs_i(y as int) == y * y;
    assert(abs_i(z as int) * 65536 * (abs_i(z as int) * 65536) == (z * z) * (65536 * 65536))
        by (nonlinear_arith)
        requires
            abs_i(z as int) * abs_i(z as int) == z * z;
    assert((len * len) * usq == (len * len) * (qx * qx) + (len * len) * (qy * qy) + (len * len) * (
    qz * qz)) by (nonlinear_arith)
        requires
            usq == qx * qx + qy * qy + qz * qz;
    assert(raw * (65536 * 65536) == (x * x) * (65536 * 65536) + (y * y) * (65536 * 65536) + (z * z)
        * (65536 * 65536)) by (nonlinear_arith)
        requires
            raw == x * x + y * y + z * z;
    assert(len * len * usq <= raw * (65536 * 65536));
    assert(raw * (65536 * 65536) < (len + 1) * 65536 * ((len + 1) * 65536)) by (nonlinear_arith)
        requires
            raw < (len + 1) * (len + 1);
    assert((len + 1) * 65536 <= 65538 * len);
    assert((len + 1) * 65536 * ((len + 1) * 65536) <= 65538 * len * (65538 * len))
        by (nonlinear_arith)
        requires
            0 <= (len + 1) * 65536 <= 65538 * len;
    assert(usq < 65538 * 65538) by (nonlinear_arith)
        requires
            len * len * usq < 65538 * len * (65538 * len),
            len >= 1;

    // lower bound: raw * 65536^2 < len^2 * (usq + 6*65536 + 3) while
    // len^2 * 65536^2 <= raw * 65536^2, so usq > 65536^2 - 393219
    assert(abs_i(x as int) * 65536 * (abs_i(x as int) * 65536) < len * (qx + 1) * (len * (qx + 1)))
        by (nonlinear_arith)
        requires
            0 <= abs_i(x as int) * 65536 < len * (qx + 1);
    assert(abs_i(y as int) * 65536 * (abs_i(y as int) * 65536) < len * (qy + 1) * (len * (qy + 1)))
        by (nonlinear_arith)
        requires
            0 <= abs_i(y as int) * 65536 < len * (qy + 1);
    assert(abs_i(z as int) * 65536 * (abs_i(z as int) * 65536) < len * (qz + 1) * (len * (qz + 1)))
        by (nonlinear_arith)
        requires
            0 <= abs_i(z as int) * 65536 < len * (qz + 1);
    assert(len * (qx + 1) * (len * (qx + 1)) == (len * len) * ((qx + 1) * (qx + 1)))
        by (nonlinear_arith);
    assert(len * (qy + 1) * (len * (qy + 1)) == (len * len) * ((qy + 1) * (qy + 1)))
        by (nonlinear_arith);
    assert(len * (qz + 1) * (len * (qz + 1)) == (len * len) * ((qz + 1) * (qz + 1)))
        by (nonlinear_arith);
    assert((len * len) * ((qx + 1) * (qx + 1)) + (len * len) * ((qy + 1) * (qy + 1)) + (len * len)
        * ((qz + 1) * (qz + 1)) == (len * len) * (usq + 2 * (qx + qy + qz) + 3))
        by (nonlinear_arith)
        requires
            usq == qx * qx + qy * qy + qz * qz;
    assert(raw * (65536 * 65536) < len * len * (usq + 2 * (qx + qy + qz) + 3));
    assert(len * len * (65536 * 65536) <= raw * (65536 * 65536)) by (nonlinear_arith)
        requires
            len * len <= raw;
    assert(65536 * 65536 < usq + 2 * (qx + qy + qz) + 3) by (nonlinear_arith)
        requires
            len * len * (65536 * 65536) < len * len * (usq + 2 * (qx + qy + qz) + 3),
            len >= 1;
    assert(usq > 4294574077) by {
        assert(qx + qy + qz <= 3 * 65536);
    }

    // the floor square root of usq is therefore within [65532, 65537]
    let big = (usq) as nat;
    lemma_sqrt_floor(big);
    let ul = sqrt_floor(big) as int;
    assert(ul >= 65532) by {
        assert(65532int * 65532 == 4294443024) by (nonlinear_arith);
        if ul + 1 <= 65532 {
            lemma_square_ordered(ul + 1, 65532);
        }
    }
    assert(ul <= 65537) by {
        assert(65538int * 65538 == 4295229444) by (nonlinear_arith);
        if ul >= 65538 {
            lemma_square_ordered(65538, ul);
        }
    }
    assert(sv_len(u) == ul);
}

} // verus!
