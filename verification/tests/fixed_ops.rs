//! Exact values of the fixed-point scalar operations.

use ray_tracer::fixed::{
    fp_add, fp_sub, fp_neg, fp_mul, fp_div, fp_sqrt, fp_abs, fp_min, fp_max, fp_clamp, FP_ONE,
};
use ray_tracer::util::{clamp, degrees_to_radians, FP_PI};

#[test]
fn add_sub_neg() {
    assert_eq!(fp_add(65536, 65536), 131072);
    assert_eq!(fp_sub(65536, 131072), -65536);
    assert_eq!(fp_neg(65536), -65536);
    assert_eq!(fp_abs(-98304), 98304);
}

#[test]
fn saturation_at_the_range_ends() {
    assert_eq!(fp_add(i64::MAX, 1), i64::MAX);
    assert_eq!(fp_sub(i64::MIN, 1), i64::MIN);
    assert_eq!(fp_neg(i64::MIN), i64::MAX);
    assert_eq!(fp_mul(i64::MAX, i64::MAX), i64::MAX);
}

#[test]
fn mul_truncates_toward_zero() {
    // 1.5 * 1.5 = 2.25
    assert_eq!(fp_mul(98304, 98304), 147456);
    // (-1.5) * 1.5 = -2.25
    assert_eq!(fp_mul(-98304, 98304), -147456);
    // tiny positive values truncate to zero
    assert_eq!(fp_mul(255, 255), 0);
    assert_eq!(fp_mul(-255, 255), 0);
}

#[test]
fn div_is_exact_on_whole_quotients() {
    assert_eq!(fp_div(131072, 65536), 131072);
    assert_eq!(fp_div(-131072, 65536), -131072);
    assert_eq!(fp_div(65536, 131072), 32768);
}

#[test]
fn sqrt_values() {
    assert_eq!(fp_sqrt(0), 0);
    assert_eq!(fp_sqrt(FP_ONE), FP_ONE);
    // sqrt(4.0) = 2.0
    assert_eq!(fp_sqrt(262144), 131072);
    // sqrt(2.0), truncated
    assert_eq!(fp_sqrt(131072), 92681);
    // sqrt(0.25) = 0.5
    assert_eq!(fp_sqrt(16384), 32768);
}

#[test]
fn clamp_min_max() {
    assert_eq!(clamp(70000, 0, 65536), 65536);
    assert_eq!(clamp(-3, 0, 65536), 0);
    assert_eq!(clamp(1234, 0, 65536), 1234);
    assert_eq!(fp_min(3, -4), -4);
    assert_eq!(fp_max(3, -4), 3);
    assert_eq!(fp_clamp(99, 0, 50), 50);
}

#[test]
fn degrees_to_radians_of_a_half_turn_is_pi() {
    assert_eq!(degrees_to_radians(180 * 65536), FP_PI);
    assert_eq!(degrees_to_radians(90 * 65536), 102943);
    assert_eq!(degrees_to_radians(0), 0);
}
