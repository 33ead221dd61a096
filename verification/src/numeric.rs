//! Fixed-point numeric kernels: integer square root and polynomial
//! approximations of sine, cosine, arctangent and arcsine.
//!
//! Angles are carried in nanoradians (`nrad`, 1e-9 rad) or millidegrees
//! (`mdeg`); trigonometric values are scaled by `FP` (1e9).
use vstd::prelude::*;

verus! {

/// Scale of fixed-point trigonometric values: 1.0 is represented as `FP`.
pub const FP: u64 = 1_000_000_000;

/// The square of an integer, for stating bounds on square roots.
pub open spec fn sq(x: int) -> int {
    x * x
}

/// `r` is the integer square root of `n`, rounded down.
pub open spec fn is_sqrt_floor(n: int, r: int) -> bool {
    &&& 0 <= r
    &&& sq(r) <= n
    &&& n < sq(r + 1)
}

/// The integer square root of `n`, rounded down.
pub closed spec fn sqrt_floor(n: int) -> int {
    choose|r: int| is_sqrt_floor(n, r)
}

/// Every nonnegative integer has a rounded-down square root.
pub proof fn lemma_sqrt_floor_exists(n: nat)
    ensures
        is_sqrt_floor(n as int, sqrt_floor(n as int)),
    decreases n,
{
    if n == 0 {
        assert(is_sqrt_floor(0, 0));
    } else {
        lemma_sqrt_floor_exists((n - 1) as nat);
        let r = sqrt_floor(n - 1);
        if sq(r + 1) <= n {
            assert(n as int <= sq(r + 1)) by (nonlinear_arith)
                requires
                    n - 1 < sq(r + 1),
            ;
            assert(sq(r + 1) < sq(r + 2)) by (nonlinear_arith)
                requires
                    0 <= r,
            ;
            assert(is_sqrt_floor(n as int, r + 1));
        } else {
            assert(is_sqrt_floor(n as int, r));
        }
    }
}

/// The rounded-down square root is unique.
pub proof fn lemma_sqrt_floor_unique(n: int, r: int)
    requires
        is_sqrt_floor(n, r),
    ensures
        sqrt_floor(n) == r,
{
    let w = sqrt_floor(n);
    assert(is_sqrt_floor(n, w));
    assert forall|a: int, b: int|
        is_sqrt_floor(n, a) && is_sqrt_floor(n, b) implies a == b by {
        if a < b {
            assert(sq(a + 1) <= sq(b)) by (nonlinear_arith)
                requires
                    0 <= a,
                    a + 1 <= b,
            ;
        }
        if b < a {
            assert(sq(b + 1) <= sq(a)) by (nonlinear_arith)
                requires
                    0 <= b,
                    b + 1 <= a,
            ;
        }
    }
}

/// Multiplication of nonnegative integers is monotone in both arguments.
pub proof fn lemma_mul_le(a: int, b: int, c: int, d: int)
    requires
        0 <= a <= c,
        0 <= b <= d,
    ensures
        a * b <= c * d,
{
    assert(a * b <= c * d) by (nonlinear_arith)
        requires
            0 <= a <= c,
            0 <= b <= d,
    ;
}

/// Division by a positive integer is monotone.
pub proof fn lemma_div_le(a: int, b: int, d: int)
    requires
        0 <= a <= b,
        1 <= d,
    ensures
        a / d <= b / d,
        0 <= a / d,
{
    assert(a / d <= b / d && 0 <= a / d) by (nonlinear_arith)
        requires
            0 <= a <= b,
            1 <= d,
    ;
}

/// Integer square root, rounded down.
pub fn isqrt(n: u128) -> (r: u64)
    ensures
        is_sqrt_floor(n as int, r as int),
        r == sqrt_floor(n as int),
{
    let mut lo: u128 = 0;
    let mut hi: u128 = 0x1_0000_0000_0000_0000;
    proof {
        assert(sq(0x1_0000_0000_0000_0000) > u128::MAX) by (nonlinear_arith);
    }
    while lo + 1 < hi
        invariant
            lo < hi,
            hi <= 0x1_0000_0000_0000_0000,
            sq(lo as int) <= n as int,
            (n as int) < sq(hi as int),
        decreases hi - lo,
    {
        let mid: u128 = lo + (hi - lo) / 2;
        proof {
            assert(sq(mid as int) < sq(0x1_0000_0000_0000_0000)) by (nonlinear_arith)
                requires
                    0 <= mid,
                    mid < 0x1_0000_0000_0000_0000,
            ;
            assert(sq(0x1_0000_0000_0000_0000) == 0x1_0000_0000_0000_0000_0000_0000_0000_0000)
                by (nonlinear_arith);
        }
        if mid * mid <= n {
            lo = mid;
        } else {
            hi = mid;
        }
    }
    proof {
        lemma_sqrt_floor_unique(n as int, lo as int);
    }
    lo as u64
}

/// Largest angle, in nanoradians, that the quarter-circle kernels accept;
/// slightly above pi/2.
pub const QUARTER_NRAD_MAX: u64 = 1_571_000_000;

/// Truncated Taylor series for the cosine of an angle in `[0, pi/2]` given
/// in nanoradians, scaled by `FP`.
pub open spec fn spec_cos_quarter(theta: int) -> int {
    let t2 = (theta * theta) / (FP as int);
    let t4 = (t2 * t2) / (FP as int);
    let t6 = (t4 * t2) / (FP as int);
    (FP as int) + t4 / 24 - (t2 / 2 + t6 / 720)
}

/// Truncated Taylor series for the sine of an angle in `[0, pi/2]` given
/// in nanoradians, scaled by `FP`.
pub open spec fn spec_sin_quarter(theta: int) -> int {
    let t2 = (theta * theta) / (FP as int);
    let t3 = (theta * t2) / (FP as int);
    let t5 = (t3 * t2) / (FP as int);
    let t7 = (t5 * t2) / (FP as int);
    theta + t5 / 120 - (t3 / 6 + t7 / 5040)
}

/// Cosine on the first quarter circle, fixed point.
pub fn cos_quarter(theta_nrad: u64) -> (r: i64)
    requires
        theta_nrad <= QUARTER_NRAD_MAX,
    ensures
        r == spec_cos_quarter(theta_nrad as int),
        -2_000_000_000 <= r <= 2_000_000_000,
{
    let th: u128 = theta_nrad as u128;
    proof {
        lemma_mul_le(th as int, th as int, 1_600_000_000, 1_600_000_000);
        lemma_div_le(th as int * th as int, 2_560_000_000_000_000_000, FP as int);
    }
    let t2: u128 = (th * th) / (FP as u128);
    proof {
        lemma_mul_le(t2 as int, t2 as int, 2_560_000_000, 2_560_000_000);
        lemma_div_le(t2 as int * t2 as int, 6_553_600_000_000_000_000, FP as int);
    }
    let t4: u128 = (t2 * t2) / (FP as u128);
    proof {
        lemma_mul_le(t4 as int, t2 as int, 6_553_600_000, 2_560_000_000);
        lemma_div_le(t4 as int * t2 as int, 16_777_216_000_000_000_000, FP as int);
    }
    let t6: u128 = (t4 * t2) / (FP as u128);
    let pos: u128 = (FP as u128) + t4 / 24;
    let neg: u128 = t2 / 2 + t6 / 720;
    if pos >= neg {
        (pos - neg) as i64
    } else {
        -((neg - pos) as i64)
    }
}

/// Sine on the first quarter circle, fixed point.
pub fn sin_quarter(theta_nrad: u64) -> (r: i64)
    requires
        theta_nrad <= QUARTER_NRAD_MAX,
    ensures
        r == spec_sin_quarter(theta_nrad as int),
        -2_000_000_000 <= r <= 2_000_000_000,
{
    let th: u128 = theta_nrad as u128;
    proof {
        lemma_mul_le(th as int, th as int, 1_600_000_000, 1_600_000_000);
        lemma_div_le(th as int * th as int, 2_560_000_000_000_000_000, FP as int);
    }
    let t2: u128 = (th * th) / (FP as u128);
    proof {
        lemma_mul_le(th as int, t2 as int, 1_600_000_000, 2_560_000_000);
        lemma_div_le(th as int * t2 as int, 4_096_000_000_000_000_000, FP as int);
    }
    let t3: u128 = (th * t2) / (FP as u128);
    proof {
        lemma_mul_le(t3 as int, t2 as int, 4_096_000_000, 2_560_000_000);
        lemma_div_le(t3 as int * t2 as int, 10_485_760_000_000_000_000, FP as int);
    }
    let t5: u128 = (t3 * t2) / (FP as u128);
    proof {
        lemma_mul_le(t5 as int, t2 as int, 10_485_760_000, 2_560_000_000);
        lemma_div_le(t5 as int * t2 as int, 26_843_545_600_000_000_000, FP as int);
    }
    let t7: u128 = (t5 * t2) / (FP as u128);
    let pos: u128 = th + t5 / 120;
    let neg: u128 = t3 / 6 + t7 / 5040;
    if pos >= neg {
        (pos - neg) as i64
    } else {
        -((neg - pos) as i64)
    }
}

/// Polynomial approximation of `atan(num/den)` in millidegrees, for
/// `0 <= num <= den`; exact at 0 and 45 degrees, within about 0.09 degrees
/// elsewhere.
pub open spec fn spec_atan_frac(num: int, den: int) -> int {
    let z = (num * 1_000_000) / den;
    let u = z * (1_000_000 - z);
    let v = 14_020_000_000 + 3_799 * z;
    (45_000 * z) / 1_000_000 + (u * v) / 1_000_000_000_000_000_000
}

/// Arctangent of a ratio in `[0, 1]`, in millidegrees.
pub fn atan_frac(num: u64, den: u64) -> (r: u64)
    requires
        num <= den,
        1 <= den,
    ensures
        r == spec_atan_frac(num as int, den as int),
        r <= 63_000,
{
    let n: u128 = num as u128;
    let d: u128 = den as u128;
    let z: u128 = (n * 1_000_000) / d;
    proof {
        lemma_mul_le(n as int, 1_000_000, d as int, 1_000_000);
        assert((d as int * 1_000_000) / d as int == 1_000_000) by (nonlinear_arith)
            requires
                1 <= d,
        ;
        lemma_div_le(n as int * 1_000_000, d as int * 1_000_000, d as int);
    }
    assert(z <= 1_000_000);
    proof {
        lemma_mul_le(z as int, 1_000_000 - z as int, 1_000_000, 1_000_000);
    }
    let u: u128 = z * (1_000_000 - z);
    let v: u128 = 14_020_000_000 + 3_799 * z;
    proof {
        lemma_mul_le(u as int, v as int, 1_000_000_000_000, 17_819_000_000);
        lemma_div_le(
            u as int * v as int,
            17_819_000_000_000_000_000_000,
            1_000_000_000_000_000_000,
        );
    }
    let corr: u128 = (u * v) / 1_000_000_000_000_000_000;
    let base: u128 = (45_000 * z) / 1_000_000;
    assert(corr <= 17_819);
    assert(base <= 45_000);
    (base + corr) as u64
}

} // verus!

verus! {

/// Range of the quarter-circle sine polynomial.
pub proof fn lemma_sin_quarter_bounds(theta: int)
    requires
        0 <= theta <= QUARTER_NRAD_MAX as int,
    ensures
        -2_000_000_000 <= spec_sin_quarter(theta) <= 2_000_000_000,
{
    let fp = FP as int;
    assert(0 <= theta * theta) by (nonlinear_arith);
    lemma_mul_le(theta, theta, 1_600_000_000, 1_600_000_000);
    lemma_div_le(theta * theta, 2_560_000_000_000_000_000, fp);
    let t2 = (theta * theta) / fp;
    assert(0 <= theta * t2) by (nonlinear_arith)
        requires
            0 <= theta,
            0 <= t2,
    ;
    lemma_mul_le(theta, t2, 1_600_000_000, 2_560_000_000);
    lemma_div_le(theta * t2, 4_096_000_000_000_000_000, fp);
    let t3 = (theta * t2) / fp;
    assert(0 <= t3 * t2) by (nonlinear_arith)
        requires
            0 <= t3,
            0 <= t2,
    ;
    lemma_mul_le(t3, t2, 4_096_000_000, 2_560_000_000);
    lemma_div_le(t3 * t2, 10_485_760_000_000_000_000, fp);
    let t5 = (t3 * t2) / fp;
    assert(0 <= t5 * t2) by (nonlinear_arith)
        requires
            0 <= t5,
            0 <= t2,
    ;
    lemma_mul_le(t5, t2, 10_485_760_000, 2_560_000_000);
    lemma_div_le(t5 * t2, 26_843_545_600_000_000_000, fp);
}

} // verus!

verus! {

/// Largest fixed-point sine value the arcsine kernel accepts (0.72).
pub const ASIN_ARG_MAX: u64 = 720_000_000;

/// Truncated Taylor series for the arcsine of a fixed-point value in
/// `[0, 0.72]`, in nanoradians. Angles nearer the quarter circle are
/// handled by callers through the complementary cosine.
pub open spec fn spec_asin_taylor(x: int) -> int {
    let x2 = (x * x) / (FP as int);
    let t3 = (x * x2) / (FP as int);
    let t5 = (t3 * x2) / (FP as int);
    let t7 = (t5 * x2) / (FP as int);
    let t9 = (t7 * x2) / (FP as int);
    let t11 = (t9 * x2) / (FP as int);
    x + t3 / 6 + (3 * t5) / 40 + (5 * t7) / 112 + (35 * t9) / 1152 + (63 * t11) / 2816
}

/// Range of the arcsine polynomial on `[0, 0.72]`.
pub proof fn lemma_asin_taylor_bounds(x: int)
    requires
        0 <= x <= ASIN_ARG_MAX as int,
    ensures
        x <= spec_asin_taylor(x) <= 810_000_000,
{
    let fp = FP as int;
    assert(0 <= x * x) by (nonlinear_arith);
    lemma_mul_le(x, x, 720_000_000, 720_000_000);
    lemma_div_le(x * x, 518_400_000_000_000_000, fp);
    let x2 = (x * x) / fp;
    assert(0 <= x * x2) by (nonlinear_arith)
        requires
            0 <= x,
            0 <= x2,
    ;
    lemma_mul_le(x, x2, 720_000_000, 518_400_000);
    lemma_div_le(x * x2, 373_248_000_000_000_000, fp);
    let t3 = (x * x2) / fp;
    assert(0 <= t3 * x2) by (nonlinear_arith)
        requires
            0 <= t3,
            0 <= x2,
    ;
    lemma_mul_le(t3, x2, 373_248_000, 518_400_000);
    lemma_div_le(t3 * x2, 193_491_763_200_000_000, fp);
    let t5 = (t3 * x2) / fp;
    assert(0 <= t5 * x2) by (nonlinear_arith)
        requires
            0 <= t5,
            0 <= x2,
    ;
    lemma_mul_le(t5, x2, 193_491_764, 518_400_000);
    lemma_div_le(t5 * x2, 100_306_130_457_600_000, fp);
    let t7 = (t5 * x2) / fp;
    assert(0 <= t7 * x2) by (nonlinear_arith)
        requires
            0 <= t7,
            0 <= x2,
    ;
    lemma_mul_le(t7, x2, 100_306_131, 518_400_000);
    lemma_div_le(t7 * x2, 51_998_698_310_400_000, fp);
    let t9 = (t7 * x2) / fp;
    assert(0 <= t9 * x2) by (nonlinear_arith)
        requires
            0 <= t9,
            0 <= x2,
    ;
    lemma_mul_le(t9, x2, 51_998_699, 518_400_000);
    lemma_div_le(t9 * x2, 26_956_125_961_600_000, fp);
    let t11 = (t9 * x2) / fp;
    lemma_div_le(0, t3, 6);
    lemma_div_le(t3, 373_248_000, 6);
    lemma_div_le(0, 3 * t5, 40);
    lemma_div_le(3 * t5, 580_475_292, 40);
    lemma_div_le(0, 5 * t7, 112);
    lemma_div_le(5 * t7, 501_530_655, 112);
    lemma_div_le(0, 35 * t9, 1152);
    lemma_div_le(35 * t9, 1_819_954_465, 1152);
    lemma_div_le(0, 63 * t11, 2816);
    lemma_div_le(63 * t11, 1_698_235_938, 2816);
}

/// Arcsine on `[0, 0.72]`, fixed point in, nanoradians out.
pub fn asin_taylor(x: u64) -> (r: u64)
    requires
        x <= ASIN_ARG_MAX,
    ensures
        r == spec_asin_taylor(x as int),
        x <= r <= 810_000_000,
{
    proof {
        lemma_asin_taylor_bounds(x as int);
        lemma_mul_le(x as int, x as int, 720_000_000, 720_000_000);
        lemma_div_le(x as int * x as int, 518_400_000_000_000_000, FP as int);
    }
    let xx: u128 = x as u128;
    let x2: u128 = (xx * xx) / (FP as u128);
    proof {
        lemma_mul_le(x as int, x2 as int, 720_000_000, 518_400_000);
        lemma_div_le(x as int * x2 as int, 373_248_000_000_000_000, FP as int);
    }
    let t3: u128 = (xx * x2) / (FP as u128);
    proof {
        lemma_mul_le(t3 as int, x2 as int, 373_248_000, 518_400_000);
        lemma_div_le(t3 as int * x2 as int, 193_491_763_200_000_000, FP as int);
    }
    let t5: u128 = (t3 * x2) / (FP as u128);
    proof {
        lemma_mul_le(t5 as int, x2 as int, 193_491_764, 518_400_000);
        lemma_div_le(t5 as int * x2 as int, 100_306_130_457_600_000, FP as int);
    }
    let t7: u128 = (t5 * x2) / (FP as u128);
    proof {
        lemma_mul_le(t7 as int, x2 as int, 100_306_131, 518_400_000);
        lemma_div_le(t7 as int * x2 as int, 51_998_698_310_400_000, FP as int);
    }
    let t9: u128 = (t7 * x2) / (FP as u128);
    proof {
        lemma_mul_le(t9 as int, x2 as int, 51_998_699, 518_400_000);
        lemma_div_le(t9 as int * x2 as int, 26_956_125_961_600_000, FP as int);
    }
    let t11: u128 = (t9 * x2) / (FP as u128);
    (xx + t3 / 6 + (3 * t5) / 40 + (5 * t7) / 112 + (35 * t9) / 1152 + (63 * t11) / 2816) as u64
}

} // verus!
