//! Q16.16 fixed-point scalars.
//!
//! A scalar is an `i64` holding `SCALE` (65536) times its value. Products and
//! quotients are rounded toward zero, as the corresponding operations on
//! machine integers are; the spec functions below state each result exactly,
//! so every geometric computation built on them has an exact contract.

use vstd::prelude::*;

verus! {

/// Number of raw units in one: a scalar `x` stands for the value `x / SCALE`.
pub const SCALE: i64 = 65536;

/// Magnitude (absolute value) of a mathematical integer.
pub open spec fn mag(a: int) -> int {
    if a >= 0 {
        a
    } else {
        -a
    }
}

/// Division of `a` by `d > 0` rounded toward zero, as machine division rounds.
pub open spec fn tdiv(a: int, d: int) -> int {
    if a >= 0 {
        a / d
    } else {
        -((-a) / d)
    }
}

/// Exact value of the fixed-point product: `a * b / SCALE` rounded toward zero.
pub open spec fn fmul_s(a: int, b: int) -> int {
    tdiv(a * b, SCALE as int)
}

/// Exact value of the fixed-point quotient: `a * SCALE / b` rounded toward zero.
pub open spec fn fdiv_s(a: int, b: int) -> int {
    if b >= 0 {
        tdiv(a * SCALE, b)
    } else {
        tdiv(-(a * SCALE), -b)
    }
}

/// `tdiv` flips sign with its dividend.
pub proof fn lemma_tdiv_neg(a: int, d: int)
    requires
        d > 0,
    ensures
        tdiv(-a, d) == -tdiv(a, d),
{
}

/// `tdiv` by a positive divisor has the magnitude of the floor quotient of the
/// magnitudes, and never grows past its dividend's magnitude.
pub proof fn lemma_tdiv_mag(a: int, d: int)
    requires
        d > 0,
    ensures
        mag(tdiv(a, d)) == mag(a) / d,
        mag(tdiv(a, d)) <= mag(a),
{
    vstd::arithmetic::div_mod::lemma_div_nonincreasing(mag(a), d);
}

/// The magnitude of a product is the product of the magnitudes.
pub proof fn lemma_mag_mul(a: int, b: int)
    ensures
        mag(a * b) == mag(a) * mag(b),
{
    assert(mag(a * b) == mag(a) * mag(b)) by (nonlinear_arith);
}

/// Division by a positive divisor is monotone in the dividend.
proof fn lemma_div_ordered(a: int, b: int, d: int)
    requires
        a <= b,
        d > 0,
    ensures
        a / d <= b / d,
{
    vstd::arithmetic::div_mod::lemma_div_is_ordered(a, b, d);
}

/// Bound on a fixed-point product from bounds on its factors.
pub proof fn lemma_fmul_mag(a: int, b: int, x: int, y: int)
    requires
        mag(a) <= x,
        mag(b) <= y,
    ensures
        mag(fmul_s(a, b)) <= x * y / (SCALE as int),
        mag(fmul_s(a, b)) <= x * y,
{
    lemma_mag_mul(a, b);
    lemma_tdiv_mag(a * b, SCALE as int);
    assert(mag(a) * mag(b) <= x * y) by (nonlinear_arith)
        requires
            0 <= mag(a) <= x && 0 <= mag(b) <= y,
    ;
    lemma_div_ordered(mag(a * b), x * y, SCALE as int);
    vstd::arithmetic::mul::lemma_mul_nonnegative(x, y);
    vstd::arithmetic::div_mod::lemma_div_nonincreasing(x * y, SCALE as int);
}

/// The fixed-point product flips sign with either factor.
pub proof fn lemma_fmul_neg(a: int, b: int)
    ensures
        fmul_s(-a, b) == -fmul_s(a, b),
        fmul_s(a, -b) == -fmul_s(a, b),
{
    assert((-a) * b == -(a * b)) by (nonlinear_arith);
    assert(a * (-b) == -(a * b)) by (nonlinear_arith);
    lemma_tdiv_neg(a * b, SCALE as int);
}

/// The fixed-point quotient flips sign with its dividend.
pub proof fn lemma_fdiv_neg(a: int, b: int)
    requires
        b != 0,
    ensures
        fdiv_s(-a, b) == -fdiv_s(a, b),
{
    assert((-a) * SCALE == -(a * SCALE)) by (nonlinear_arith);
    if b > 0 {
        lemma_tdiv_neg(a * SCALE, b);
    } else {
        lemma_tdiv_neg(-(a * SCALE), -b);
    }
}

/// Magnitude and sign shape of the fixed-point quotient.
pub proof fn lemma_fdiv_mag(a: int, b: int)
    requires
        b != 0,
    ensures
        mag(fdiv_s(a, b)) == mag(a) * SCALE / mag(b),
{
    lemma_mag_mul(a, SCALE as int);
    if b >= 0 {
        lemma_tdiv_mag(a * SCALE, b);
    } else {
        lemma_tdiv_mag(-(a * SCALE), -b);
        assert(mag(-(a * SCALE)) == mag(a * SCALE));
    }
}

/// Integer square root of `t`: the greatest `r` with `r * r <= t`.
pub open spec fn sqrt_s(t: int) -> int
    decreases t,
{
    if t <= 0 {
        0
    } else {
        if (sqrt_s(t - 1) + 1) * (sqrt_s(t - 1) + 1) <= t {
            sqrt_s(t - 1) + 1
        } else {
            sqrt_s(t - 1)
        }
    }
}

/// `sqrt_s(t)` is indeed the floor of the square root of `t`.
pub proof fn lemma_sqrt_s(t: int)
    requires
        t >= 0,
    ensures
        sqrt_s(t) >= 0,
        sqrt_s(t) * sqrt_s(t) <= t,
        t < (sqrt_s(t) + 1) * (sqrt_s(t) + 1),
    decreases t,
{
    if t > 0 {
        lemma_sqrt_s(t - 1);
        let r = sqrt_s(t - 1);
        if (r + 1) * (r + 1) <= t {
            assert(t == (r + 1) * (r + 1)) by (nonlinear_arith)
                requires
                    t - 1 < (r + 1) * (r + 1) && (r + 1) * (r + 1) <= t,
            ;
            assert((r + 1) * (r + 1) < (r + 2) * (r + 2)) by (nonlinear_arith)
                requires
                    r >= 0,
            ;
        }
    }
}

/// Any `r` with `r * r <= t < (r + 1) * (r + 1)` equals `sqrt_s(t)`.
pub proof fn lemma_sqrt_unique(t: int, r: int)
    requires
        0 <= r,
        r * r <= t,
        t < (r + 1) * (r + 1),
    ensures
        r == sqrt_s(t),
{
    lemma_sqrt_s(t);
    let s = sqrt_s(t);
    if r < s {
        assert((r + 1) * (r + 1) <= s * s) by (nonlinear_arith)
            requires
                0 <= r && r + 1 <= s,
        ;
    }
    if s < r {
        assert((s + 1) * (s + 1) <= r * r) by (nonlinear_arith)
            requires
                0 <= s && s + 1 <= r,
        ;
    }
}

/// Exact value of the fixed-point square root of a nonnegative scalar.
pub open spec fn fsqrt_s(a: int) -> int {
    sqrt_s(a * SCALE)
}

/// The integer square root is monotone.
pub proof fn lemma_sqrt_ordered(t1: int, t2: int)
    requires
        0 <= t1 <= t2,
    ensures
        sqrt_s(t1) <= sqrt_s(t2),
{
    lemma_sqrt_s(t1);
    lemma_sqrt_s(t2);
    let r1 = sqrt_s(t1);
    let r2 = sqrt_s(t2);
    if r2 < r1 {
        assert((r2 + 1) * (r2 + 1) <= r1 * r1) by (nonlinear_arith)
            requires
                0 <= r2 && r2 + 1 <= r1,
        ;
    }
}

/// A fixed-point product of nonnegative factors is nonnegative, and is
/// monotone in each factor.
pub proof fn lemma_fmul_s_mono(a1: int, b1: int, a2: int, b2: int)
    requires
        0 <= a1 <= a2,
        0 <= b1 <= b2,
    ensures
        0 <= fmul_s(a1, b1) <= fmul_s(a2, b2),
{
    assert(0 <= a1 * b1 <= a2 * b2) by (nonlinear_arith)
        requires
            0 <= a1 <= a2 && 0 <= b1 <= b2,
    ;
    vstd::arithmetic::div_mod::lemma_div_is_ordered(a1 * b1, a2 * b2, SCALE as int);
    vstd::arithmetic::div_mod::lemma_div_pos_is_pos(a1 * b1, SCALE as int);
}

/// A fixed-point quotient of a nonnegative dividend by a positive divisor is
/// nonnegative.
pub proof fn lemma_fdiv_s_nonneg(a: int, b: int)
    requires
        0 <= a,
        0 < b,
    ensures
        0 <= fdiv_s(a, b),
{
    assert(0 <= a * SCALE) by (nonlinear_arith)
        requires
            0 <= a,
    ;
    vstd::arithmetic::div_mod::lemma_div_pos_is_pos(a * SCALE, b);
}

/// Magnitude of a scalar, as an unsigned machine integer.
fn abs_u128(a: i64) -> (m: u128)
    ensures
        m == mag(a as int),
{
    if a >= 0 {
        a as u128
    } else {
        (-(a as i128)) as u128
    }
}

/// Rebuilds a scalar from a sign and a magnitude.
fn from_mag(neg: bool, m: u128) -> (r: i64)
    requires
        m <= i64::MAX as u128,
    ensures
        r as int == if neg {
            -(m as int)
        } else {
            m as int
        },
{
    if neg {
        -(m as i64)
    } else {
        m as i64
    }
}

/// Fixed-point product, exact up to rounding toward zero.
pub fn fmul(a: i64, b: i64) -> (r: i64)
    requires
        mag(fmul_s(a as int, b as int)) <= i64::MAX as int,
    ensures
        r as int == fmul_s(a as int, b as int),
{
    let neg = (a < 0) != (b < 0);
    let ma = abs_u128(a);
    let mb = abs_u128(b);
    proof {
        lemma_mag_mul(a as int, b as int);
        assert(ma * mb == mag(a as int * b as int)) by (nonlinear_arith)
            requires
                ma == mag(a as int) && mb == mag(b as int) && ma * mb == mag(a as int) * mag(
                    b as int,
                ),
        ;
        assert(ma * mb <= u128::MAX) by (nonlinear_arith)
            requires
                ma <= 0x8000_0000_0000_0000u128 && mb <= 0x8000_0000_0000_0000u128,
        ;
        lemma_tdiv_mag(a as int * b as int, SCALE as int);
    }
    let m = (ma * mb) / (SCALE as u128);
    proof {
        if a as int * b as int >= 0 {
            if neg {
                assert(a as int * b as int <= 0) by (nonlinear_arith)
                    requires
                        ((a as int) < 0) != ((b as int) < 0),
                ;
            }
        } else {
            assert(((a as int) < 0) != ((b as int) < 0)) by (nonlinear_arith)
                requires
                    (a as int) * (b as int) < 0,
            ;
        }
    }
    from_mag(neg, m)
}

/// Fixed-point quotient, exact up to rounding toward zero.
pub fn fdiv(a: i64, b: i64) -> (r: i64)
    requires
        b != 0,
        mag(fdiv_s(a as int, b as int)) <= i64::MAX as int,
    ensures
        r as int == fdiv_s(a as int, b as int),
{
    let neg = (a < 0) != (b < 0);
    let ma = abs_u128(a);
    let mb = abs_u128(b);
    proof {
        lemma_fdiv_mag(a as int, b as int);
        assert(ma * (SCALE as u128) == mag(a as int) * SCALE) by (nonlinear_arith)
            requires
                ma == mag(a as int) && ma <= 0x8000_0000_0000_0000u128,
        ;
    }
    let m = (ma * (SCALE as u128)) / mb;
    proof {
        if b >= 0 {
            if (a as int) >= 0 {
                assert(fdiv_s(a as int, b as int) == (a as int * SCALE) / (b as int));
                assert(a as int * SCALE >= 0) by (nonlinear_arith)
                    requires
                        a as int >= 0,
                ;
            } else {
                assert(a as int * SCALE < 0) by (nonlinear_arith)
                    requires
                        (a as int) < 0,
                ;
            }
        } else {
            if (a as int) >= 0 {
                assert(a as int * SCALE >= 0) by (nonlinear_arith)
                    requires
                        a as int >= 0,
                ;
            } else {
                assert(a as int * SCALE < 0) by (nonlinear_arith)
                    requires
                        (a as int) < 0,
                ;
            }
        }
    }
    from_mag(neg, m)
}

/// Magnitude of a scalar.
pub fn fabs(a: i64) -> (r: i64)
    requires
        mag(a as int) <= i64::MAX as int,
    ensures
        r as int == mag(a as int),
{
    if a >= 0 {
        a
    } else {
        -a
    }
}

/// Integer square root: the greatest `r` with `r * r <= t`.
fn sqrt_u128(t: u128) -> (r: u128)
    ensures
        r * r <= t,
        t < (r + 1) * (r + 1),
        r <= 0xffff_ffff_ffff_ffffu128,
{
    if t == 0 {
        return 0;
    }
    let mut lo: u128 = 0;
    let mut hi: u128 = 0x1_0000_0000_0000_0000;
    proof {
        assert(t < hi * hi) by (nonlinear_arith)
            requires
                hi == 0x1_0000_0000_0000_0000u128 && t <= u128::MAX,
        ;
    }
    while lo + 1 < hi
        invariant
            lo < hi,
            hi <= 0x1_0000_0000_0000_0000,
            lo * lo <= t,
            t < hi * hi,
        decreases hi - lo,
    {
        let mid = lo + (hi - lo) / 2;
        proof {
            assert(mid * mid <= u128::MAX) by (nonlinear_arith)
                requires
                    mid < 0x1_0000_0000_0000_0000u128,
            ;
        }
        if mid * mid <= t {
            lo = mid;
        } else {
            hi = mid;
        }
    }
    lo
}

/// Fixed-point square root: the greatest scalar whose square (as the exact
/// rational `r * r / SCALE`) does not exceed `a`.
pub fn fsqrt(a: i64) -> (r: i64)
    requires
        a >= 0,
    ensures
        r >= 0,
        r as int == fsqrt_s(a as int),
        r as int * r as int <= a as int * SCALE,
        a as int * SCALE < (r as int + 1) * (r as int + 1),
{
    let t = (a as u128) * (SCALE as u128);
    let r = sqrt_u128(t);
    proof {
        assert(t < 0x1_0000_0000_0000_0000_0000_0000u128) by (nonlinear_arith)
            requires
                t == (a as u128) * 65536u128 && (a as u128) <= 0x7fff_ffff_ffff_ffffu128,
        ;
        assert(r <= 0x1_0000_0000_0000u128) by (nonlinear_arith)
            requires
                r * r <= t && t < 0x1_0000_0000_0000_0000_0000_0000u128,
        ;
        lemma_sqrt_unique(t as int, r as int);
    }
    r as i64
}

} // verus!
