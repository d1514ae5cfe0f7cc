//! 16.16 fixed-point scalar arithmetic.
//!
//! A real number v is represented by the `i64` closest to `v * 2^16`.
//! Multiplication and division truncate toward zero, as the corresponding
//! machine operations do, and every operation saturates at the `i64` range
//! instead of overflowing. Each executable operation carries an exact
//! contract phrased with the spec functions below.

use vstd::prelude::*;

verus! {

/// The fixed-point representation of 1.0.
pub const FP_ONE: i64 = 65536;

/// The fixed-point representation of -1.0.
pub const FP_MINUS_ONE: i64 = -65536;

/// Stands in for "plus infinity" in intervals; saturating arithmetic
/// cannot exceed it.
pub const FP_INF: i64 = i64::MAX;

/// Clamps an unbounded integer to the `i64` range.
pub open spec fn sat64(x: int) -> int {
    if x > i64::MAX {
        i64::MAX as int
    } else if x < i64::MIN {
        i64::MIN as int
    } else {
        x
    }
}

pub open spec fn abs_i(x: int) -> int {
    if x >= 0 {
        x
    } else {
        -x
    }
}

/// Integer division truncating toward zero, the semantics of the machine
/// division this module implements (spec-level `/` is Euclidean).
pub open spec fn tdiv(a: int, b: int) -> int {
    if (a >= 0) == (b >= 0) {
        abs_i(a) / abs_i(b)
    } else {
        -(abs_i(a) / abs_i(b))
    }
}

/// Fixed-point addition: exact sum, saturated.
pub open spec fn s_add(a: i64, b: i64) -> i64 {
    sat64(a + b) as i64
}

/// Fixed-point subtraction: exact difference, saturated.
pub open spec fn s_sub(a: i64, b: i64) -> i64 {
    sat64(a - b) as i64
}

/// Fixed-point negation (the negation of `i64::MIN` saturates).
pub open spec fn s_neg(a: i64) -> i64 {
    sat64(-a) as i64
}

/// Fixed-point multiplication: the exact product rescaled by 2^-16,
/// truncated toward zero, saturated.
pub open spec fn s_mul(a: i64, b: i64) -> i64 {
    sat64(tdiv(a * b, FP_ONE as int)) as i64
}

/// Fixed-point division (b != 0): the exact quotient rescaled by 2^16,
/// truncated toward zero, saturated.
pub open spec fn s_div(a: i64, b: i64) -> i64 {
    sat64(tdiv(a * FP_ONE, b as int)) as i64
}

pub open spec fn s_min(a: i64, b: i64) -> i64 {
    if a <= b {
        a
    } else {
        b
    }
}

pub open spec fn s_max(a: i64, b: i64) -> i64 {
    if a >= b {
        a
    } else {
        b
    }
}

pub open spec fn s_clamp(x: i64, lo: i64, hi: i64) -> i64 {
    if x < lo {
        lo
    } else if x > hi {
        hi
    } else {
        x
    }
}

/// The floor of the square root of a natural number, defined by counting up.
pub open spec fn sqrt_floor(n: nat) -> nat
    decreases n,
{
    if n == 0 {
        0
    } else {
        let p = sqrt_floor((n - 1) as nat);
        if (p + 1) * (p + 1) <= n {
            p + 1
        } else {
            p
        }
    }
}

/// Fixed-point square root (a >= 0): the floor of the square root of the
/// represented value, in fixed point.
pub open spec fn s_sqrt(a: i64) -> i64 {
    sqrt_floor((a * FP_ONE) as nat) as i64
}

/// `sqrt_floor(n)` really is the floor of the square root of n.
pub proof fn lemma_sqrt_floor(n: nat)
    ensures
        sqrt_floor(n) * sqrt_floor(n) <= n,
        n < (sqrt_floor(n) + 1) * (sqrt_floor(n) + 1),
    decreases n,
{
    if n > 0 {
        lemma_sqrt_floor((n - 1) as nat);
        let p = sqrt_floor((n - 1) as nat);
        if (p + 1) * (p + 1) <= n {
            assert(sqrt_floor(n) == p + 1);
            assert((p + 1) * (p + 1) < (p + 2) * (p + 2)) by (nonlinear_arith);
            assert(n <= (p + 1) * (p + 1));
            assert(n < (p + 2) * (p + 2));
            assert((sqrt_floor(n) + 1) * (sqrt_floor(n) + 1) == (p + 2) * (p + 2));
            assert(n < (sqrt_floor(n) + 1) * (sqrt_floor(n) + 1));
        } else {
            assert(sqrt_floor(n) == p);
            assert(n < (p + 1) * (p + 1));
            assert(n < (sqrt_floor(n) + 1) * (sqrt_floor(n) + 1));
        }
    } else {
        assert(sqrt_floor(0) == 0);
        assert(1 * 1 == 1nat) by (nonlinear_arith);
        assert(n < (sqrt_floor(n) + 1) * (sqrt_floor(n) + 1));
    }
}

/// Any r with r^2 <= n < (r+1)^2 equals `sqrt_floor(n)`.
pub proof fn lemma_sqrt_floor_unique(n: nat, r: nat)
    requires
        r * r <= n,
        n < (r + 1) * (r + 1),
    ensures
        r == sqrt_floor(n),
{
    lemma_sqrt_floor(n);
    let s = sqrt_floor(n);
    if r < s {
        assert((r + 1) * (r + 1) <= s * s) by (nonlinear_arith)
            requires
                r + 1 <= s;
    }
    if s < r {
        assert((s + 1) * (s + 1) <= r * r) by (nonlinear_arith)
            requires
                s + 1 <= r;
    }
}

/// Dividing by a nonzero value leaves zero at zero.
pub proof fn lemma_tdiv_zero(b: int)
    requires
        b != 0,
    ensures
        tdiv(0, b) == 0,
{
    vstd::arithmetic::div_mod::lemma_div_basics(abs_i(b));
}

/// Scaling by a positive factor and truncating back cancels.
pub proof fn lemma_tdiv_scale_cancel(x: int, d: int)
    requires
        0 < d,
    ensures
        tdiv(x * d, d) == x,
{
    if x >= 0 {
        assert(x * d >= 0) by (nonlinear_arith)
            requires
                x >= 0,
                0 < d;
        assert(x * d == d * x) by (nonlinear_arith);
        vstd::arithmetic::div_mod::lemma_div_multiples_vanish(x, d);
    } else {
        assert(x * d < 0) by (nonlinear_arith)
            requires
                x < 0,
                0 < d;
        assert(-(x * d) == d * (-x)) by (nonlinear_arith);
        assert(abs_i(x * d) == d * (-x));
        vstd::arithmetic::div_mod::lemma_div_multiples_vanish(-x, d);
    }
}

/// Truncating division is monotone in the numerator for a positive
/// denominator.
pub proof fn lemma_tdiv_monotone(a1: int, a2: int, b: int)
    requires
        a1 <= a2,
        0 < b,
    ensures
        tdiv(a1, b) <= tdiv(a2, b),
{
    if a1 >= 0 {
        vstd::arithmetic::div_mod::lemma_div_is_ordered(a1, a2, b);
    } else if a2 < 0 {
        vstd::arithmetic::div_mod::lemma_div_is_ordered(-a2, -a1, b);
    } else {
        vstd::arithmetic::div_mod::lemma_div_pos_is_pos(-a1, b);
        vstd::arithmetic::div_mod::lemma_div_pos_is_pos(a2, b);
    }
}

/// Scaling a nonnegative value by a factor in [0, 1] keeps it between
/// zero and the value itself.
pub proof fn lemma_s_mul_unit_scale(a: i64, b: i64)
    requires
        0 <= a <= 65536,
        0 <= b,
    ensures
        0 <= s_mul(a, b) <= b,
{
    assert(0 <= a * b) by (nonlinear_arith)
        requires
            0 <= a,
            0 <= b;
    assert(a * b <= b * 65536) by (nonlinear_arith)
        requires
            0 <= a <= 65536,
            0 <= b;
    lemma_tdiv_monotone(a * b, b * 65536, 65536);
    lemma_tdiv_scale_cancel(b as int, 65536);
    vstd::arithmetic::div_mod::lemma_div_pos_is_pos(a * b, 65536);
}

/// A fixed-point square root of a nonnegative value is nonnegative and
/// fits the `i64` range, so the cast in `s_sqrt` is exact.
pub proof fn lemma_s_sqrt_bounds(a: i64)
    requires
        a >= 0,
    ensures
        0 <= s_sqrt(a),
        s_sqrt(a) == sqrt_floor((a * 65536) as nat),
{
    let n = (a * 65536) as nat;
    lemma_sqrt_floor(n);
    assert(n < 0x4_0000_0000_0000_0000_0000);
    assert(sqrt_floor(n) < 0x8000_0000_0000_0000) by (nonlinear_arith)
        requires
            sqrt_floor(n) * sqrt_floor(n) <= n,
            n < 0x4_0000_0000_0000_0000_0000;
}

/// Fixed-point division by a positive value is monotone in the numerator.
pub proof fn lemma_s_div_monotone(x1: i64, x2: i64, b: i64)
    requires
        x1 <= x2,
        0 < b,
    ensures
        s_div(x1, b) <= s_div(x2, b),
{
    lemma_tdiv_monotone(x1 * 65536, x2 * 65536, b as int);
}

/// Zero annihilates a fixed-point product.
pub proof fn lemma_s_mul_zero(t: i64)
    ensures
        s_mul(0, t) == 0,
        s_mul(t, 0) == 0,
{
    assert(0 * t == 0) by (nonlinear_arith);
    assert(t * 0 == 0) by (nonlinear_arith);
    lemma_tdiv_zero(65536);
}

/// Zero divided by anything nonzero is zero.
pub proof fn lemma_s_div_zero(b: i64)
    requires
        b != 0,
    ensures
        s_div(0, b) == 0,
{
    lemma_tdiv_zero(b as int);
}

/// A fixed-point product of two whole multiples of the grid is exact:
/// no rounding and no saturation happen.
pub proof fn lemma_s_mul_exact(a: int, b: int)
    requires
        abs_i(a) <= 100000000000,
        abs_i(b) <= 100000000000,
        abs_i(a * b) <= 100000000000000,
    ensures
        s_mul((a * 65536) as i64, (b * 65536) as i64) == ((a * b * 65536)) as i64,
        -0x7fff_ffff_ffff_ffff <= a * b * 65536 <= 0x7fff_ffff_ffff_ffff,
{
    let af = a * 65536;
    let bf = b * 65536;
    assert(-0x7fff_ffff_ffff_ffff <= af <= 0x7fff_ffff_ffff_ffff);
    assert(-0x7fff_ffff_ffff_ffff <= bf <= 0x7fff_ffff_ffff_ffff);
    assert(af as i64 == af && bf as i64 == bf);
    assert(af * bf == (a * b * 65536) * 65536) by (nonlinear_arith)
        requires
            af == a * 65536,
            bf == b * 65536;
    lemma_tdiv_scale_cancel(a * b * 65536, 65536);
    assert(abs_i(a * b * 65536) <= 100000000000000 * 65536) by (nonlinear_arith)
        requires
            abs_i(a * b) <= 100000000000000;
}

/// Saturates an `i128` intermediate result to the `i64` range.
fn clamp128(s: i128) -> (r: i64)
    ensures
        r as int == sat64(s as int),
{
    if s > i64::MAX as i128 {
        i64::MAX
    } else if s < i64::MIN as i128 {
        i64::MIN
    } else {
        s as i64
    }
}

/// Division of `i128` values truncating toward zero, via magnitudes.
fn tdiv128(a: i128, b: i128) -> (r: i128)
    requires
        b != 0,
        i128::MIN < a,
        i128::MIN < b,
    ensures
        r as int == tdiv(a as int, b as int),
{
    let neg = (a < 0) != (b < 0);
    let ma: u128 = if a >= 0 {
        a as u128
    } else {
        (-a) as u128
    };
    let mb: u128 = if b >= 0 {
        b as u128
    } else {
        (-b) as u128
    };
    let q = ma / mb;
    assert(q as int == abs_i(a as int) / abs_i(b as int));
    let qi = q as i128;
    if neg {
        -qi
    } else {
        qi
    }
}

pub fn fp_add(a: i64, b: i64) -> (r: i64)
    ensures
        r == s_add(a, b),
{
    clamp128(a as i128 + b as i128)
}

pub fn fp_sub(a: i64, b: i64) -> (r: i64)
    ensures
        r == s_sub(a, b),
{
    clamp128(a as i128 - b as i128)
}

pub fn fp_neg(a: i64) -> (r: i64)
    ensures
        r == s_neg(a),
{
    clamp128(-(a as i128))
}

pub fn fp_mul(a: i64, b: i64) -> (r: i64)
    ensures
        r == s_mul(a, b),
{
    proof {
        lemma_i64_product_bounds(a as int, b as int);
    }
    let p: i128 = (a as i128) * (b as i128);
    clamp128(tdiv128(p, FP_ONE as i128))
}

pub fn fp_div(a: i64, b: i64) -> (r: i64)
    requires
        b != 0,
    ensures
        r == s_div(a, b),
{
    proof {
        lemma_i64_product_bounds(a as int, FP_ONE as int);
    }
    let p: i128 = (a as i128) * (FP_ONE as i128);
    clamp128(tdiv128(p, b as i128))
}

/// The product of two `i64` values stays well inside the `i128` range.
proof fn lemma_i64_product_bounds(a: int, b: int)
    requires
        i64::MIN <= a <= i64::MAX,
        i64::MIN <= b <= i64::MAX,
    ensures
        -0x4000_0000_0000_0000_0000_0000_0000_0000 <= a * b,
        a * b <= 0x4000_0000_0000_0000_0000_0000_0000_0000,
{
    assert(-0x4000_0000_0000_0000_0000_0000_0000_0000 <= a * b
        <= 0x4000_0000_0000_0000_0000_0000_0000_0000) by (nonlinear_arith)
        requires
            -0x8000_0000_0000_0000 <= a <= 0x8000_0000_0000_0000,
            -0x8000_0000_0000_0000 <= b <= 0x8000_0000_0000_0000;
}

pub fn fp_min(a: i64, b: i64) -> (r: i64)
    ensures
        r == s_min(a, b),
{
    if a <= b {
        a
    } else {
        b
    }
}

pub fn fp_max(a: i64, b: i64) -> (r: i64)
    ensures
        r == s_max(a, b),
{
    if a >= b {
        a
    } else {
        b
    }
}

/// Fixed-point absolute value (the magnitude of `i64::MIN` saturates).
pub open spec fn s_abs(a: i64) -> i64 {
    sat64(abs_i(a as int)) as i64
}

/// A product of two values of magnitude at most 1.0 has magnitude at
/// most 1.0; in particular a square of such a value lies in [0, 1].
pub proof fn lemma_s_mul_unit_bound(a: i64, b: i64)
    requires
        -65536 <= a <= 65536,
        -65536 <= b <= 65536,
    ensures
        -65536 <= s_mul(a, b) <= 65536,
{
    assert(-4294967296 <= a * b <= 4294967296) by (nonlinear_arith)
        requires
            -65536 <= a <= 65536,
            -65536 <= b <= 65536;
    assert(abs_i(a * b) / 65536 <= 65536) by (nonlinear_arith)
        requires
            0 <= abs_i(a * b) <= 4294967296;
}

pub fn fp_abs(a: i64) -> (r: i64)
    ensures
        r == s_abs(a),
{
    if a >= 0 {
        a
    } else {
        fp_neg(a)
    }
}

/// The floor of the square root of n, by binary search on the answer.
/// The bound keeps the squares inside `u128`.
fn isqrt_u128(n: u128) -> (r: u64)
    requires
        n <= 0xC000_0000_0000_0000_0000_0000_0000_0000,
    ensures
        r == sqrt_floor(n as nat),
{
    let mut lo: u64 = 0;
    let mut hi: u64 = 0xFFFF_FFFF_FFFF_FFFFu64;
    assert(0xFFFF_FFFF_FFFF_FFFF * 0xFFFF_FFFF_FFFF_FFFF
        == 0xFFFF_FFFF_FFFF_FFFE_0000_0000_0000_0001int) by (nonlinear_arith);
    while lo + 1 < hi
        invariant
            lo < hi,
            hi <= 0xFFFF_FFFF_FFFF_FFFFu64,
            (lo as int) * (lo as int) <= n as int,
            (n as int) < (hi as int) * (hi as int),
        decreases hi - lo,
    {
        let mid = lo + (hi - lo) / 2;
        assert((mid as u128) * (mid as u128) <= u128::MAX) by (nonlinear_arith)
            requires
                mid <= 0xFFFF_FFFF_FFFF_FFFFu64;
        if (mid as u128) * (mid as u128) <= n {
            lo = mid;
        } else {
            hi = mid;
        }
    }
    proof {
        lemma_sqrt_floor_unique(n as nat, lo as nat);
    }
    lo
}

pub fn fp_sqrt(a: i64) -> (r: i64)
    requires
        a >= 0,
    ensures
        r == s_sqrt(a),
        r >= 0,
{
    let n: u128 = (a as u128) * 65536u128;
    assert(n < 0x4_0000_0000_0000_0000_0000) by (nonlinear_arith)
        requires
            n == (a as int) * 65536,
            0 <= (a as int),
            (a as int) < 0x8000_0000_0000_0000;
    let r = isqrt_u128(n);
    proof {
        lemma_sqrt_floor(n as nat);
        assert(sqrt_floor(n as nat) < 0x8000_0000_0000_0000) by (nonlinear_arith)
            requires
                sqrt_floor(n as nat) * sqrt_floor(n as nat) <= (n as nat),
                n < 0x4_0000_0000_0000_0000_0000;
    }
    r as i64
}

/// The Euclidean length of a fixed-point 3-vector, taken as the floor of
/// the square root of the raw sum of the component squares: no rescaling
/// happens before the root, so nothing is truncated away, and the length
/// is zero exactly when all three components are zero.
pub open spec fn s_len3(x: i64, y: i64, z: i64) -> i64 {
    sat64(sqrt_floor((x * x + y * y + z * z) as nat) as int) as i64
}

pub fn fp_len3(x: i64, y: i64, z: i64) -> (r: i64)
    ensures
        r == s_len3(x, y, z),
        r >= 0,
{
    proof {
        lemma_i64_product_bounds(x as int, x as int);
        lemma_i64_product_bounds(y as int, y as int);
        lemma_i64_product_bounds(z as int, z as int);
        lemma_square_nonneg(x as int);
        lemma_square_nonneg(y as int);
        lemma_square_nonneg(z as int);
    }
    let sx: u128 = ((x as i128) * (x as i128)) as u128;
    let sy: u128 = ((y as i128) * (y as i128)) as u128;
    let sz: u128 = ((z as i128) * (z as i128)) as u128;
    let n: u128 = sx + sy + sz;
    let r = isqrt_u128(n);
    if r > 0x7FFF_FFFF_FFFF_FFFFu64 {
        i64::MAX
    } else {
        r as i64
    }
}

/// A square of an integer is never negative.
pub proof fn lemma_square_nonneg(x: int)
    ensures
        x * x >= 0,
{
    assert(x * x >= 0) by (nonlinear_arith);
}

/// A nonzero vector has a positive length: its raw square sum is at
/// least 1, so the floor square root is at least 1.
pub proof fn lemma_len3_pos(x: i64, y: i64, z: i64)
    requires
        x != 0 || y != 0 || z != 0,
    ensures
        0 < s_len3(x, y, z),
{
    lemma_square_nonneg(x as int);
    lemma_square_nonneg(y as int);
    lemma_square_nonneg(z as int);
    if x != 0 {
        assert(x * x >= 1) by (nonlinear_arith)
            requires
                x != 0;
    } else if y != 0 {
        assert(y * y >= 1) by (nonlinear_arith)
            requires
                y != 0;
    } else {
        assert(z * z >= 1) by (nonlinear_arith)
            requires
                z != 0;
    }
    let n = (x * x + y * y + z * z) as nat;
    lemma_sqrt_floor(n);
    assert(sqrt_floor(n) >= 1) by {
        assert(1 * 1 == 1int) by (nonlinear_arith);
        if sqrt_floor(n) == 0 {
            assert(n < (0 + 1) * (0 + 1));
        }
    }
}

/// The length of a vector is zero exactly when the vector is zero.
pub proof fn lemma_len3_zero_iff_zero(x: i64, y: i64, z: i64)
    ensures
        (s_len3(x, y, z) == 0) <==> (x == 0 && y == 0 && z == 0),
{
    if x == 0 && y == 0 && z == 0 {
        assert(0 * 0 == 0int) by (nonlinear_arith);
        assert(sqrt_floor(0) == 0);
    } else {
        lemma_len3_pos(x, y, z);
    }
}

/// No component of a vector exceeds the vector's length, so dividing a
/// component by the length leaves a magnitude of at most 1.0.
pub proof fn lemma_len3_unit_bound(x: i64, y: i64, z: i64)
    requires
        x != 0 || y != 0 || z != 0,
    ensures
        abs_i(s_div(x, s_len3(x, y, z)) as int) <= 65536,
        abs_i(s_div(y, s_len3(x, y, z)) as int) <= 65536,
        abs_i(s_div(z, s_len3(x, y, z)) as int) <= 65536,
{
    lemma_len3_pos(x, y, z);
    lemma_square_nonneg(x as int);
    lemma_square_nonneg(y as int);
    lemma_square_nonneg(z as int);
    let n = (x * x + y * y + z * z) as nat;
    let s = sqrt_floor(n);
    lemma_sqrt_floor(n);
    lemma_len3_div_component(x as int, x, y, z);
    lemma_len3_div_component(y as int, x, y, z);
    lemma_len3_div_component(z as int, x, y, z);
}

/// One component of the bound above: |c / len| <= 1.0 in fixed point,
/// for any component c whose square enters the length.
proof fn lemma_len3_div_component(c: int, x: i64, y: i64, z: i64)
    requires
        x != 0 || y != 0 || z != 0,
        c == x || c == y || c == z,
        c * c <= x * x + y * y + z * z,
    ensures
        abs_i(sat64(tdiv(c * 65536, s_len3(x, y, z) as int))) <= 65536,
{
    lemma_len3_pos(x, y, z);
    lemma_square_nonneg(x as int);
    lemma_square_nonneg(y as int);
    lemma_square_nonneg(z as int);
    let n = (x * x + y * y + z * z) as nat;
    let s = sqrt_floor(n);
    lemma_sqrt_floor(n);
    let len = s_len3(x, y, z) as int;
    if c == i64::MIN {
        // the one magnitude above the saturated length: the quotient
        // still floors to exactly 1.0
        assert(c * c == 0x4000_0000_0000_0000_0000_0000_0000_0000int) by (nonlinear_arith)
            requires
                c == -0x8000_0000_0000_0000;
        assert(0x8000_0000_0000_0000int * 0x8000_0000_0000_0000
            == 0x4000_0000_0000_0000_0000_0000_0000_0000) by (nonlinear_arith);
        lemma_component_at_most_root(0x8000_0000_0000_0000, s as int, n as int);
        assert(len == i64::MAX);
        assert((0x7FFF_FFFF_FFFF_FFFFint) * 65536 + 65536 == 0x8000_0000_0000_0000int * 65536)
            by (nonlinear_arith);
        vstd::arithmetic::div_mod::lemma_div_multiples_vanish_fancy(
            65536,
            65536,
            0x7FFF_FFFF_FFFF_FFFF,
        );
        assert(abs_i(c * 65536) == 0x8000_0000_0000_0000int * 65536) by (nonlinear_arith)
            requires
                c == -0x8000_0000_0000_0000;
        assert(abs_i(c * 65536) / len == 65536);
    } else {
        assert(abs_i(c) * abs_i(c) == c * c) by (nonlinear_arith);
        lemma_component_at_most_root(abs_i(c), s as int, n as int);
        assert(abs_i(c) <= len);
        lemma_tdiv_scale_cancel(65536, len);
        assert(abs_i(c) * 65536 <= 65536 * len) by (nonlinear_arith)
            requires
                abs_i(c) <= len;
        if c >= 0 {
            lemma_tdiv_monotone(c * 65536, 65536 * len, len);
            vstd::arithmetic::div_mod::lemma_div_pos_is_pos(c * 65536, len);
        } else {
            lemma_tdiv_monotone(-(65536 * len), c * 65536, len);
            vstd::arithmetic::div_mod::lemma_div_pos_is_pos(-(c * 65536), len);
            assert(tdiv(-(65536 * len), len) == -65536) by {
                assert(-(65536 * len) == (-65536) * len) by (nonlinear_arith);
                lemma_tdiv_scale_cancel(-65536, len);
            }
            assert(-(c * 65536) == abs_i(c) * 65536) by (nonlinear_arith)
                requires
                    c < 0;
        }
    }
}

/// If c^2 is at most n and n lies below (s+1)^2, then c is at most s.
pub proof fn lemma_component_at_most_root(c: int, s: int, n: int)
    requires
        c >= 0,
        s >= 0,
        c * c <= n,
        n < (s + 1) * (s + 1),
    ensures
        c <= s,
{
    if c > s {
        assert((s + 1) * (s + 1) <= c * c) by (nonlinear_arith)
            requires
                0 <= s + 1 <= c;
    }
}

/// Squaring preserves the order of nonnegative values.
pub proof fn lemma_square_ordered(a: int, b: int)
    requires
        0 <= a <= b,
    ensures
        a * a <= b * b,
{
    assert(a * a <= b * b) by (nonlinear_arith)
        requires
            0 <= a <= b;
}

/// Squaring preserves strict order of nonnegative values.
pub proof fn lemma_square_ordered_strict(a: int, b: int)
    requires
        0 <= a < b,
    ensures
        a * a < b * b,
{
    assert(a * a < b * b) by (nonlinear_arith)
        requires
            0 <= a < b;
}

pub fn fp_clamp(x: i64, lo: i64, hi: i64) -> (r: i64)
    requires
        lo <= hi,
    ensures
        r == s_clamp(x, lo, hi),
{
    if x < lo {
        lo
    } else if x > hi {
        hi
    } else {
        x
    }
}

} // verus!
