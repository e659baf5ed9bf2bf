//! Signed fixed-point scalars: an `i64` holding a real number scaled by
//! 2^16.  All geometric quantities in this crate (coordinates, angles in
//! radians, matrix entries) are such scalars.  Products and quotients are
//! computed in `i128` and rounded with floor division by a positive
//! divisor, so every operation has an exact integer meaning that the
//! contracts state directly.

use vstd::prelude::*;
use vstd::arithmetic::div_mod::{
    lemma_fundamental_div_mod, lemma_div_is_ordered, lemma_div_multiples_vanish,
    lemma_mod_bound,
};

verus! {

/// One in fixed-point form: 2^16.
pub const FX_ONE: i64 = 65536;

/// Half in fixed-point form.
pub const FX_HALF: i64 = 32768;

/// pi scaled by 2^16, rounded down.
pub const FX_PI: i64 = 205887;

/// 2*pi scaled by 2^16 (twice `FX_PI`, so angle reduction keeps parity
/// with reductions by `FX_PI`).
pub const FX_TWO_PI: i64 = 411774;

/// pi/2 scaled by 2^16, rounded down.
pub const FX_HALF_PI: i64 = 102943;

/// (pi/2 - 0.01) scaled by 2^16: the pitch clamp bound.
pub const FX_PITCH_LIMIT: i64 = 102288;

/// pi/180 scaled by 2^16: degrees to radians.
pub const FX_DEG_TO_RAD: i64 = 1144;

/// Largest magnitude accepted by `fx_mul` for either factor (2^39).
pub const FX_FACTOR_LIM: i64 = 0x80_0000_0000;

/// Largest magnitude accepted by `fx_div` for the numerator (2^46).
pub const FX_DIV_NUM_LIM: i64 = 0x4000_0000_0000;

/// Bound on the components of vectors, matrices and camera state (2^38).
pub const FX_COORD_LIM: i64 = 0x40_0000_0000;

/// Fixed-point product: the mathematical product, scaled back down by
/// 2^16 with floor rounding.
pub open spec fn fxm(a: int, b: int) -> int {
    (a * b) / 65536
}

/// Fixed-point quotient: the numerator scaled up by 2^16, divided by the
/// magnitude of `b` with floor rounding, carrying the sign of the exact
/// quotient.  Meaningful only for `b != 0`.
pub open spec fn fxd(a: int, b: int) -> int {
    if b >= 0 {
        (a * 65536) / b
    } else {
        -((a * 65536) / (-b))
    }
}

pub open spec fn fx_abs(a: int) -> int {
    if a < 0 {
        -a
    } else {
        a
    }
}

/// Magnitude small enough to go through a homogeneous point transform
/// without leaving the division range.
pub open spec fn fits_point(a: int) -> bool {
    -0x4000_0000 <= a <= 0x4000_0000
}

/// Magnitude small enough to be a factor of `fx_mul`.
pub open spec fn fits_factor(a: int) -> bool {
    -0x80_0000_0000 <= a <= 0x80_0000_0000
}

/// Magnitude small enough for a vector component, matrix entry or camera
/// coordinate; `fits_coord` values are always `fits_factor`.
pub open spec fn fits_coord(a: int) -> bool {
    -0x40_0000_0000 <= a <= 0x40_0000_0000
}

/// Floor of the real square root of `n` (0 for negative arguments).
pub open spec fn sqrt_floor(n: int) -> int
    decreases n,
{
    if n <= 0 {
        0
    } else {
        let p = sqrt_floor(n - 1);
        if (p + 1) * (p + 1) <= n {
            p + 1
        } else {
            p
        }
    }
}

/// `sqrt_floor` is the unique non-negative integer whose square is at
/// most `n` while the next square is beyond `n`.
pub proof fn lemma_sqrt_floor_bounds(n: int)
    requires
        0 <= n,
    ensures
        0 <= sqrt_floor(n),
        sqrt_floor(n) * sqrt_floor(n) <= n,
        n < (sqrt_floor(n) + 1) * (sqrt_floor(n) + 1),
    decreases n,
{
    if n == 0 {
    } else {
        lemma_sqrt_floor_bounds(n - 1);
        let p = sqrt_floor(n - 1);
        if (p + 1) * (p + 1) <= n {
            assert(n < (p + 2) * (p + 2)) by (nonlinear_arith)
                requires
                    n - 1 < (p + 1) * (p + 1),
                    0 <= p,
            ;
        }
    }
}

pub proof fn lemma_sqrt_floor_unique(n: int, r: int)
    requires
        0 <= n,
        0 <= r,
        r * r <= n,
        n < (r + 1) * (r + 1),
    ensures
        r == sqrt_floor(n),
{
    lemma_sqrt_floor_bounds(n);
    let s = sqrt_floor(n);
    if r < s {
        assert((r + 1) * (r + 1) <= s * s) by (nonlinear_arith)
            requires
                0 <= r,
                r + 1 <= s,
            ;
    }
    if s < r {
        assert((s + 1) * (s + 1) <= r * r) by (nonlinear_arith)
            requires
                0 <= s,
                s + 1 <= r,
            ;
    }
}

/// Negating a dividend moves its floor quotient to the negated quotient,
/// at most one below it.
pub proof fn lemma_div_neg_bound(q: int, d: int)
    requires
        0 <= q,
        0 < d,
    ensures
        -(q / d) - 1 <= (-q) / d <= -(q / d),
{
    lemma_fundamental_div_mod(q, d);
    lemma_fundamental_div_mod(-q, d);
    lemma_mod_bound(q, d);
    lemma_mod_bound(-q, d);
    let qd = q / d;
    let qr = q % d;
    let nd = (-q) / d;
    let nr = (-q) % d;
    assert(-2 < qd + nd <= 0) by (nonlinear_arith)
        requires
            q == d * qd + qr,
            -q == d * nd + nr,
            0 <= qr < d,
            0 <= nr < d,
            0 < d,
    ;
}

/// Multiplying by fixed-point one, on either side, is the identity, and
/// multiplying by zero gives zero.
pub proof fn lemma_fxm_one(x: int)
    ensures
        fxm(65536, x) == x,
        fxm(x, 65536) == x,
        fxm(0, x) == 0,
        fxm(x, 0) == 0,
{
    lemma_div_multiples_vanish(x, 65536);
    assert(65536 * x == x * 65536) by (nonlinear_arith);
    assert(0 * x == 0) by (nonlinear_arith);
    assert(x * 0 == 0) by (nonlinear_arith);
}

/// A product of factors below the given magnitudes stays below their
/// product, so the scaled-down result is bounded as well.
pub proof fn lemma_fxm_bound(a: int, b: int, ba: int, bb: int)
    requires
        -ba <= a <= ba,
        -bb <= b <= bb,
        0 <= ba,
        0 <= bb,
    ensures
        -((ba * bb) / 65536) - 1 <= fxm(a, b) <= (ba * bb) / 65536,
{
    let p = a * b;
    let q = ba * bb;
    assert(-q <= p <= q) by (nonlinear_arith)
        requires
            p == a * b,
            q == ba * bb,
            -ba <= a <= ba,
            -bb <= b <= bb,
            0 <= ba,
            0 <= bb,
    ;
    lemma_div_is_ordered(p, q, 65536);
    lemma_div_is_ordered(-q, p, 65536);
    lemma_div_neg_bound(q, 65536);
}

/// Quotients by a positive divisor are no larger in magnitude than the
/// dividend, up to the floor adjustment of one.
pub proof fn lemma_div_mag_pos(p: int, d: int)
    requires
        0 < d,
    ensures
        -fx_abs(p) - 1 <= p / d <= fx_abs(p),
{
    lemma_fundamental_div_mod(p, d);
    lemma_mod_bound(p, d);
    let q = p / d;
    let r = p % d;
    assert(-fx_abs(p) - 1 <= q <= fx_abs(p)) by (nonlinear_arith)
        requires
            p == d * q + r,
            0 <= r < d,
            1 <= d,
            -fx_abs(p) <= p <= fx_abs(p),
            fx_abs(p) >= 0,
    ;
}

/// A value no larger in magnitude than a positive `m`, scaled to fixed
/// point and divided by `m`, stays within one fixed-point unit.
pub proof fn lemma_fxd_unit(x: int, m: int)
    requires
        0 < m,
        -m <= x <= m,
    ensures
        -65536 <= fxd(x, m) <= 65536,
{
    assert(x * 65536 <= m * 65536) by (nonlinear_arith)
        requires
            x <= m,
    ;
    assert(-(m * 65536) <= x * 65536) by (nonlinear_arith)
        requires
            -m <= x,
    ;
    lemma_div_is_ordered(x * 65536, m * 65536, m);
    lemma_div_is_ordered(-(m * 65536), x * 65536, m);
    lemma_div_multiples_vanish(65536, m);
    assert((m * 65536) / m == 65536);
    assert(-(m * 65536) == m * (-65536)) by (nonlinear_arith);
    lemma_div_multiples_vanish(-65536, m);
}

/// Fixed-point multiplication.  Exact contract: the result is the
/// floor-rounded scaled product of the inputs.
pub fn fx_mul(a: i64, b: i64) -> (r: i64)
    requires
        fits_factor(a as int),
        fits_factor(b as int),
    ensures
        r == fxm(a as int, b as int),
        -0x4000_0000_0000_0000 - 1 <= r <= 0x4000_0000_0000_0000,
{
    proof {
        assert(-0x4000_0000_0000_0000_0000 <= (a as int) * (b as int)
            <= 0x4000_0000_0000_0000_0000) by (nonlinear_arith)
            requires
                fits_factor(a as int),
                fits_factor(b as int),
        ;
    }
    let p: i128 = (a as i128) * (b as i128);
    proof {
        lemma_div_is_ordered(p as int, 0x4000_0000_0000_0000_0000, 65536);
        lemma_div_is_ordered(-0x4000_0000_0000_0000_0000, p as int, 65536);
        lemma_div_multiples_vanish(0x4000_0000_0000_0000, 65536);
        lemma_div_neg_bound(0x4000_0000_0000_0000_0000, 65536);
    }
    let q: i128 = p.checked_div_euclid(65536).unwrap();
    q as i64
}

/// Fixed-point multiplication for one large and one small factor, used
/// where a projected screen coordinate meets a viewport scale.
pub fn fx_mul_wide(a: i64, b: i64) -> (r: i64)
    requires
        -0x1_0000_0000_0000 <= a <= 0x1_0000_0000_0000,
        -0x4000_0000 <= b <= 0x4000_0000,
    ensures
        r == fxm(a as int, b as int),
        -0x4000_0000_0000_0000 - 1 <= r <= 0x4000_0000_0000_0000,
{
    proof {
        assert(-0x4000_0000_0000_0000_0000 <= (a as int) * (b as int)
            <= 0x4000_0000_0000_0000_0000) by (nonlinear_arith)
            requires
                -0x1_0000_0000_0000 <= a as int <= 0x1_0000_0000_0000,
                -0x4000_0000 <= b as int <= 0x4000_0000,
        ;
    }
    let p: i128 = (a as i128) * (b as i128);
    proof {
        lemma_div_is_ordered(p as int, 0x4000_0000_0000_0000_0000, 65536);
        lemma_div_is_ordered(-0x4000_0000_0000_0000_0000, p as int, 65536);
        lemma_div_multiples_vanish(0x4000_0000_0000_0000, 65536);
        lemma_div_neg_bound(0x4000_0000_0000_0000_0000, 65536);
    }
    let q: i128 = p.checked_div_euclid(65536).unwrap();
    q as i64
}

/// Fixed-point division.  Division by zero is a programming error and is
/// excluded by contract; callers guard.
pub fn fx_div(a: i64, b: i64) -> (r: i64)
    requires
        b != 0,
        -0x4000_0000_0000 <= a <= 0x4000_0000_0000,
    ensures
        r == fxd(a as int, b as int),
        -0x4000_0000_0000_0000 - 1 <= r <= 0x4000_0000_0000_0000 + 1,
{
    let p: i128 = (a as i128) * 65536;
    let d: i128 = if b > 0 {
        b as i128
    } else {
        -(b as i128)
    };
    proof {
        lemma_div_mag_pos(p as int, d as int);
    }
    let q: i128 = p.checked_div_euclid(d).unwrap();
    if b > 0 {
        q as i64
    } else {
        (-q) as i64
    }
}

/// The reduction of an angle into `[-FX_PI, FX_PI]`: the Euclidean
/// remainder of `a + FX_PI` by `FX_TWO_PI`, shifted back down.
pub open spec fn reduce_spec(a: int) -> int {
    (a + 205887) % 411774 - 205887
}

/// Brings a fixed-point angle into `[-FX_PI, FX_PI)` by whole turns, so
/// the trigonometric routines receive a reduced argument.
pub fn reduce_angle(a: i64) -> (r: i64)
    requires
        -0x4000_0000_0000_0000 <= a <= 0x4000_0000_0000_0000,
    ensures
        r == reduce_spec(a as int),
        -205887 <= r < 205887,
{
    let s: i64 = a + 205887;
    proof {
        lemma_mod_bound(s as int, 411774);
    }
    let m: i64 = s.checked_rem_euclid(411774).unwrap();
    m - 205887
}

/// What `cordic::sin` returns for a fixed-point angle, scaled by 2^16.
pub uninterp spec fn sin_fx(a: int) -> int;

/// What `cordic::cos` returns for a fixed-point angle, scaled by 2^16.
pub uninterp spec fn cos_fx(a: int) -> int;

/// What `cordic::asin` returns for a fixed-point ratio in `[-1, 1]`.
pub uninterp spec fn asin_fx(v: int) -> int;

/// What `cordic::atan2` returns for a fixed-point pair, scaled by 2^16.
pub uninterp spec fn atan2_fx(y: int, x: int) -> int;

/// Relies on cordic::sin over `fixed::types::I48F16`: a pure integer
/// CORDIC rotation, a function of the bits of the angle alone.  The
/// rotated vector keeps a norm of about one, so the result stays within
/// two fixed-point units.
#[verifier::external_body]
pub fn fx_sin(a: i64) -> (r: i64)
    requires
        -411774 <= a <= 411774,
    ensures
        r == sin_fx(a as int),
        -131072 <= r <= 131072,
{
    cordic::sin(fixed::types::I48F16::from_bits(a)).to_bits()
}

/// Relies on cordic::cos over `fixed::types::I48F16`: a pure integer
/// CORDIC rotation, a function of the bits of the angle alone, with the
/// same norm bound as the sine.
#[verifier::external_body]
pub fn fx_cos(a: i64) -> (r: i64)
    requires
        -411774 <= a <= 411774,
    ensures
        r == cos_fx(a as int),
        -131072 <= r <= 131072,
{
    cordic::cos(fixed::types::I48F16::from_bits(a)).to_bits()
}

/// Relies on cordic::asin over `fixed::types::I48F16`: a double-rotation
/// CORDIC scan, a function of the bits of the ratio alone.  The angle it
/// accumulates is a bounded sum of arctangent table entries, well within
/// four fixed-point units.
#[verifier::external_body]
pub fn fx_asin(v: i64) -> (r: i64)
    requires
        -65536 <= v <= 65536,
    ensures
        r == asin_fx(v as int),
        -262144 <= r <= 262144,
{
    cordic::asin(fixed::types::I48F16::from_bits(v)).to_bits()
}

/// Relies on cordic::atan2 over `fixed::types::I48F16`: quadrant fixup
/// around a CORDIC arctangent, a function of the bits of the two
/// arguments alone.  The result is an angle within pi plus the bounded
/// arctangent accumulation, well within eight fixed-point units.
#[verifier::external_body]
pub fn fx_atan2(y: i64, x: i64) -> (r: i64)
    requires
        -0x40_0000_0000 <= y <= 0x40_0000_0000,
        -0x40_0000_0000 <= x <= 0x40_0000_0000,
    ensures
        r == atan2_fx(y as int, x as int),
        -524288 <= r <= 524288,
{
    cordic::atan2(
        fixed::types::I48F16::from_bits(y),
        fixed::types::I48F16::from_bits(x),
    ).to_bits()
}

/// The square of an `i64`, computed in `i128`.
pub fn sq_i128(a: i64) -> (r: i128)
    ensures
        r == (a as int) * (a as int),
        0 <= r,
        fits_factor(a as int) ==> r <= 0x4000_0000_0000_0000_0000,
{
    proof {
        assert(0 <= (a as int) * (a as int)
            <= 0x4000_0000_0000_0000_0000_0000_0000_0000) by (nonlinear_arith)
            requires
                -0x8000_0000_0000_0000 <= (a as int) <= 0x7FFF_FFFF_FFFF_FFFF,
        ;
        if fits_factor(a as int) {
            assert((a as int) * (a as int) <= 0x4000_0000_0000_0000_0000)
                by (nonlinear_arith)
                requires
                    fits_factor(a as int),
            ;
        }
    }
    (a as i128) * (a as i128)
}

/// Floor square root over unsigned integers, by bisection.
pub fn isqrt(n: u128) -> (r: u64)
    requires
        n < 0x1_0000_0000_0000_0000_0000_0000_0000_0000,
    ensures
        r == sqrt_floor(n as int),
{
    let mut lo: u128 = 0;
    let mut hi: u128 = 0x1_0000_0000_0000_0000;
    while hi - lo > 1
        invariant
            0 <= lo < hi <= 0x1_0000_0000_0000_0000,
            (lo as int) * (lo as int) <= n as int,
            (n as int) < (hi as int) * (hi as int),
        decreases hi - lo,
    {
        let mid: u128 = lo + (hi - lo) / 2;
        proof {
            assert((mid as int) * (mid as int) < 0x1_0000_0000_0000_0000_0000_0000_0000_0000)
                by (nonlinear_arith)
                requires
                    0 <= (mid as int),
                    (mid as int) < 0x1_0000_0000_0000_0000,
            ;
        }
        if mid * mid <= n {
            lo = mid;
        } else {
            hi = mid;
        }
    }
    proof {
        lemma_sqrt_floor_unique(n as int, lo as int);
    }
    lo as u64
}

} // verus!
verus! {

/// A fixed-point quotient is bounded by the scaled numerator whenever
/// the divisor has magnitude at least one.
pub proof fn lemma_fxd_bound(a: int, b: int)
    requires
        b != 0,
    ensures
        -(fx_abs(a) * 65536) - 1 <= fxd(a, b) <= fx_abs(a) * 65536 + 1,
{
    assert(fx_abs(a * 65536) == fx_abs(a) * 65536) by (nonlinear_arith);
    if b >= 0 {
        lemma_div_mag_pos(a * 65536, b);
    } else {
        lemma_div_mag_pos(a * 65536, -b);
    }
}

} // verus!
