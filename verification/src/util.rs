//! The interval type that bounds acceptable hit distances, scalar helpers,
//! and the random direction draws used by diffuse and fuzzy scattering.

use vstd::prelude::*;
use crate::fixed::{
    FP_ONE, FP_INF, FP_MINUS_ONE, s_add, s_sub, s_mul, s_div, s_clamp, fp_add, fp_sub, fp_mul,
    fp_div,
};
use crate::sampler::{Sampler, next_state, rand_fp01};
use crate::vector3::{
    Vec3, sv_random, sv_lensq, sv_len, sv_unit, unit_vector, lemma_lensq_pos_not_zero,
    lemma_sv_unit_near_unit,
};

verus! {

/// The fixed-point representation of pi.
pub const FP_PI: i64 = 205887;

/// The fixed-point representation of 180.0.
pub const FP_DEG_HALF_TURN: i64 = 11796480;

/// Stands in for "minus infinity" in intervals.
pub const FP_NEG_INF: i64 = i64::MIN;

/// How many rejection-sampling rounds a unit-ball draw may use before it
/// falls back to a fixed interior vector.
pub const DRAW_TRIES: u64 = 64;

pub open spec fn s_degrees_to_radians(d: i64) -> i64 {
    s_div(s_mul(d, FP_PI), FP_DEG_HALF_TURN)
}

/// Degrees to radians: d * pi / 180.
pub fn degrees_to_radians(degrees: i64) -> (r: i64)
    ensures
        r == s_degrees_to_radians(degrees),
{
    fp_div(fp_mul(degrees, FP_PI), FP_DEG_HALF_TURN)
}

/// Clamps x into [min, max]: min wherever x < min, max wherever x > max.
pub fn clamp(x: i64, min: i64, max: i64) -> (r: i64)
    ensures
        r == s_clamp(x, min, max),
{
    if x < min {
        min
    } else if x > max {
        max
    } else {
        x
    }
}

/// Mirror of `random_fp`: min + u * (max - min) with u in [0, 1).
pub open spec fn s_random_fp(min: i64, max: i64, s: u64) -> i64 {
    s_add(min, s_mul(rand_fp01(s), s_sub(max, min)))
}

/// A fixed-point value drawn uniformly from [min, max).
pub fn random_fp(min: i64, max: i64, smp: &mut Sampler) -> (r: i64)
    ensures
        final(smp).state == next_state(old(smp).state),
        r == s_random_fp(min, max, old(smp).state),
{
    let u = smp.next_fp01();
    fp_add(min, fp_mul(u, fp_sub(max, min)))
}

/// The least accepted squared length of a unit-ball draw, 0.25: shorter
/// draws are rejected, so normalization never blows truncation error up
/// by more than a factor of about two.
pub const DRAW_MIN_LENSQ: i64 = 16384;

/// The vector a unit-ball draw falls back to when every round is rejected:
/// (0, 0, 0.5), squared length exactly 0.25.
pub open spec fn fallback_interior() -> Vec3 {
    Vec3 { x: 0, y: 0, z: 32768 }
}

/// Mirror of the rejection loop: draw a vector in [-1, 1)^3 until its
/// squared length lies in [0.25, 1), for at most `tries` rounds, then
/// fall back.
#[verifier::opaque]
pub open spec fn s_unit_sphere_draw(s: u64, tries: nat) -> (Vec3, u64)
    decreases tries,
{
    if tries == 0 {
        (fallback_interior(), s)
    } else {
        let (p, s1) = sv_random(FP_MINUS_ONE, FP_ONE, s);
        if DRAW_MIN_LENSQ <= sv_lensq(p) < FP_ONE {
            (p, s1)
        } else {
            s_unit_sphere_draw(s1, (tries - 1) as nat)
        }
    }
}

#[verifier::rlimit(100)]
fn unit_sphere_draw(smp: &mut Sampler, tries: u64) -> (r: Vec3)
    ensures
        (r, final(smp).state) == s_unit_sphere_draw(old(smp).state, tries as nat),
        DRAW_MIN_LENSQ <= sv_lensq(r) < FP_ONE,
    decreases tries,
{
    let ghost s0 = smp.state;
    if tries == 0 {
        proof {
            reveal_with_fuel(s_unit_sphere_draw, 1);
            assert(s_unit_sphere_draw(s0, 0) == (fallback_interior(), s0));
            assert(32768int * 32768 == 1073741824) by (nonlinear_arith);
            assert(1073741824int / 65536 == 16384) by (nonlinear_arith);
            assert(sv_lensq(fallback_interior()) == 16384);
        }
        Vec3::new(0, 0, 32768)
    } else {
        proof {
            reveal_with_fuel(s_unit_sphere_draw, 1);
            assert(s_unit_sphere_draw(s0, tries as nat) == {
                let (p, s1) = sv_random(FP_MINUS_ONE, FP_ONE, s0);
                if DRAW_MIN_LENSQ <= sv_lensq(p) < FP_ONE {
                    (p, s1)
                } else {
                    s_unit_sphere_draw(s1, (tries - 1) as nat)
                }
            });
        }
        let p = Vec3::random(FP_MINUS_ONE, FP_ONE, smp);
        let lsq = p.length_squared();
        if DRAW_MIN_LENSQ <= lsq && lsq < FP_ONE {
            p
        } else {
            unit_sphere_draw(smp, tries - 1)
        }
    }
}

/// A vector of squared length in [0.25, 1), by rejection sampling of the
/// cube [-1, 1)^3.
pub fn random_in_unit_sphere(smp: &mut Sampler) -> (r: Vec3)
    ensures
        (r, final(smp).state) == s_unit_sphere_draw(old(smp).state, DRAW_TRIES as nat),
        DRAW_MIN_LENSQ <= sv_lensq(r) < FP_ONE,
{
    unit_sphere_draw(smp, DRAW_TRIES)
}

/// Mirror of `random_unit_vector`.
pub open spec fn s_unit_vector_draw(s: u64) -> (Vec3, u64) {
    let (p, s1) = s_unit_sphere_draw(s, DRAW_TRIES as nat);
    (sv_unit(p), s1)
}

/// A random direction of unit length up to a few grid units: a unit-ball
/// draw of squared length at least 0.25, normalized. Because short draws
/// are rejected, the result's length always lies between 1 - 4*2^-16 and
/// 1 + 2^-16.
pub fn random_unit_vector(smp: &mut Sampler) -> (r: Vec3)
    ensures
        (r, final(smp).state) == s_unit_vector_draw(old(smp).state),
        65532 <= sv_len(r) <= 65537,
{
    let p = random_in_unit_sphere(smp);
    proof {
        lemma_lensq_pos_not_zero(p);
        lemma_sv_unit_near_unit(p);
    }
    unit_vector(&p)
}

/// A closed range of fixed-point hit distances.
#[derive(Clone, Copy, PartialEq, Eq, Structural, Debug)]
pub struct Interval {
    pub min: i64,
    pub max: i64,
}

impl Interval {
    pub fn new(min: i64, max: i64) -> (r: Interval)
        ensures
            r == (Interval { min, max }),
    {
        Interval { min, max }
    }

    /// Inclusive containment.
    pub fn contains(&self, x: i64) -> (r: bool)
        ensures
            r == (self.min <= x <= self.max),
    {
        self.min <= x && x <= self.max
    }

    /// Strict containment; rejecting the endpoints is what keeps a hit off
    /// the previous closest distance and off the ray origin.
    pub fn surrounds(&self, x: i64) -> (r: bool)
        ensures
            r == (self.min < x < self.max),
    {
        self.min < x && x < self.max
    }
}

impl Default for Interval {
    /// The unconstrained interval.
    fn default() -> (r: Interval)
        ensures
            r == (Interval { min: FP_NEG_INF, max: FP_INF }),
    {
        Interval { min: FP_NEG_INF, max: FP_INF }
    }
}

} // verus!
