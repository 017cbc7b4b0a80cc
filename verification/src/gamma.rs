//! The gamma transfer curve with exponent 2.2 (= 11/5), in Q16.16.
//!
//! Display components live in `[0, SCALE]` and stand for values in `[0, 1]`.
//! Decoding raises to the power 11/5 (`x^2 * x^(1/5)`, the fifth root taken as
//! an exact integer root); encoding is the exact inverse search: the least
//! display value whose decoding reaches the linear input. Both directions are
//! pinned down completely, so the round trip law at the bottom is a theorem,
//! not a test.

use vstd::prelude::*;
use crate::fixed::{fmul, fmul_s, lemma_fmul_s_mono, SCALE};

verus! {

/// Fifth power, in the association the proofs below use.
pub open spec fn p5(r: int) -> int {
    ((r * r) * (r * r)) * r
}

/// Integer fifth root of `t`: the greatest `r` with `p5(r) <= t`.
pub open spec fn root5_s(t: int) -> int
    decreases t,
{
    if t <= 0 {
        0
    } else {
        if p5(root5_s(t - 1) + 1) <= t {
            root5_s(t - 1) + 1
        } else {
            root5_s(t - 1)
        }
    }
}

/// The fifth power is monotone over the nonnegative integers.
pub proof fn lemma_p5_mono(r: int, s: int)
    requires
        0 <= r <= s,
    ensures
        p5(r) <= p5(s),
        p5(r) >= 0,
{
    assert(0 <= r * r <= s * s) by (nonlinear_arith)
        requires
            0 <= r <= s,
    ;
    assert(0 <= (r * r) * (r * r) <= (s * s) * (s * s)) by (nonlinear_arith)
        requires
            0 <= r * r <= s * s,
    ;
    assert(0 <= ((r * r) * (r * r)) * r <= ((s * s) * (s * s)) * s) by (nonlinear_arith)
        requires
            0 <= (r * r) * (r * r) <= (s * s) * (s * s) && 0 <= r <= s,
    ;
}

/// The fifth power is strictly monotone over the nonnegative integers.
pub proof fn lemma_p5_strict_mono(r: int, s: int)
    requires
        0 <= r < s,
    ensures
        p5(r) < p5(s),
{
    lemma_p5_mono(r + 1, s);
    assert(p5(r) < p5(r + 1)) by (nonlinear_arith)
        requires
            0 <= r,
    ;
}

/// `root5_s(t)` is indeed the floor of the fifth root of `t`.
pub proof fn lemma_root5_s(t: int)
    requires
        t >= 0,
    ensures
        root5_s(t) >= 0,
        p5(root5_s(t)) <= t,
        t < p5(root5_s(t) + 1),
    decreases t,
{
    if t > 0 {
        lemma_root5_s(t - 1);
        let r = root5_s(t - 1);
        if p5(r + 1) <= t {
            assert(t == p5(r + 1));
            lemma_p5_strict_mono(r + 1, r + 2);
        }
    }
}

/// Any `r` with `p5(r) <= t < p5(r + 1)` equals `root5_s(t)`.
pub proof fn lemma_root5_unique(t: int, r: int)
    requires
        0 <= r,
        p5(r) <= t,
        t < p5(r + 1),
    ensures
        r == root5_s(t),
{
    lemma_root5_s(t);
    let s = root5_s(t);
    if r < s {
        lemma_p5_mono(r + 1, s);
    }
    if s < r {
        lemma_p5_mono(s + 1, r);
    }
}

/// The integer fifth root is monotone.
pub proof fn lemma_root5_ordered(t1: int, t2: int)
    requires
        0 <= t1 <= t2,
    ensures
        root5_s(t1) <= root5_s(t2),
{
    lemma_root5_s(t1);
    lemma_root5_s(t2);
    if root5_s(t2) < root5_s(t1) {
        lemma_p5_mono(root5_s(t2) + 1, root5_s(t1));
    }
}

/// Exact value of gamma decoding: `(v/SCALE)^(11/5)` in fixed point, computed
/// as the square times the fifth root, each step truncated toward zero.
pub open spec fn decode_s(v: int) -> int {
    fmul_s(fmul_s(v, v), root5_s(v * (SCALE * SCALE) * (SCALE * SCALE)))
}

/// Gamma decoding is monotone.
pub proof fn lemma_decode_mono(v1: int, v2: int)
    requires
        0 <= v1 <= v2,
    ensures
        0 <= decode_s(v1) <= decode_s(v2),
{
    lemma_fmul_s_mono(v1, v1, v2, v2);
    assert(0 <= v1 * (SCALE * SCALE) * (SCALE * SCALE) <= v2 * (SCALE * SCALE) * (
    SCALE * SCALE)) by (nonlinear_arith)
        requires
            0 <= v1 <= v2,
    ;
    lemma_root5_s(v1 * (SCALE * SCALE) * (SCALE * SCALE));
    lemma_root5_ordered(v1 * (SCALE * SCALE) * (SCALE * SCALE), v2 * (SCALE * SCALE) * (
    SCALE * SCALE));
    lemma_fmul_s_mono(fmul_s(v1, v1), root5_s(v1 * (SCALE * SCALE) * (SCALE * SCALE)), fmul_s(
        v2, v2), root5_s(v2 * (SCALE * SCALE) * (SCALE * SCALE)));
}

/// Decoding keeps the ends of the display range fixed.
pub proof fn lemma_decode_full()
    ensures
        decode_s(SCALE as int) == SCALE as int,
        decode_s(0) == 0,
{
    let s = SCALE as int;
    assert(s * (s * s) * (s * s) == p5(s)) by (nonlinear_arith);
    lemma_p5_mono(0, s);
    lemma_p5_strict_mono(s, s + 1);
    lemma_root5_unique(p5(s), s);
    assert((s * s) / s == s) by (nonlinear_arith)
        requires
            s == 65536,
    ;
    assert(fmul_s(s, s) == s);
    assert(decode_s(s) == s);
}

/// Exact value of gamma encoding: the greatest display component in
/// `[0, bound]` whose decoding does not exceed `v`.
pub open spec fn enc_up_to(v: int, n: nat) -> int
    decreases n,
{
    if n == 0 {
        0
    } else {
        if decode_s(n as int) <= v {
            n as int
        } else {
            enc_up_to(v, (n - 1) as nat)
        }
    }
}

/// Exact value of gamma encoding: the least display component whose
/// decoding reaches `v`, saturating at full intensity. Written through
/// `enc_up_to`: one past the greatest component decoding below `v`.
pub open spec fn encode_s(v: int) -> int {
    if v <= 0 {
        0
    } else {
        let g = enc_up_to(v - 1, 65536nat);
        if g == 65536 {
            65536
        } else {
            g + 1
        }
    }
}

/// `enc_up_to` returns the greatest satisfying component.
proof fn lemma_enc_up_to(v: int, n: nat)
    requires
        v >= 0,
    ensures
        0 <= enc_up_to(v, n) <= n,
        decode_s(enc_up_to(v, n)) <= v,
        enc_up_to(v, n) < n ==> v < decode_s(enc_up_to(v, n) + 1),
    decreases n,
{
    lemma_decode_mono(0, 0);
    if n > 0 {
        lemma_enc_up_to(v, (n - 1) as nat);
    }
}

/// The two sides of the bounded search pin down the greatest component
/// decoding to at most `v`.
pub proof fn lemma_encode_unique(v: int, r: int)
    requires
        v >= 0,
        0 <= r <= 65536,
        decode_s(r) <= v,
        r < 65536 ==> v < decode_s(r + 1),
    ensures
        r == enc_up_to(v, 65536nat),
{
    lemma_enc_up_to(v, 65536nat);
    let s = enc_up_to(v, 65536nat);
    if r < s {
        lemma_decode_mono(r + 1, s);
    }
    if s < r {
        lemma_decode_mono(s + 1, r);
    }
}

/// What the encoder returns: in range, the least component decoding to at
/// least `v`, saturated at full intensity.
pub proof fn lemma_encode_s(v: int)
    requires
        v >= 0,
    ensures
        0 <= encode_s(v) <= 65536,
        v <= 65536 ==> decode_s(encode_s(v)) >= v,
        encode_s(v) > 0 ==> decode_s(encode_s(v) - 1) < v,
        v > 65536 ==> encode_s(v) == 65536,
{
    if v > 0 {
        lemma_enc_up_to(v - 1, 65536nat);
        lemma_decode_full();
        let g = enc_up_to(v - 1, 65536nat);
        if v <= 65536 {
            if g == 65536 {
                lemma_decode_mono(v, 65536);
            }
        } else {
            if g < 65536 {
                lemma_decode_mono(g + 1, 65536);
            }
            lemma_decode_mono(65535, 65536);
        }
    }
}

/// Integer fifth root by binary search.
fn root5(t: u128) -> (r: u64)
    requires
        t <= 0x1_0000_0000_0000_0000_0000u128,
    ensures
        r as int == root5_s(t as int),
        r <= 65536,
{
    proof {
        lemma_root5_s(t as int);
    }
    if t == 0 {
        return 0;
    }
    let mut lo: u128 = 0;
    let mut hi: u128 = 65537;
    proof {
        assert(p5(65536) == 0x1_0000_0000_0000_0000_0000int) by (nonlinear_arith);
        lemma_p5_strict_mono(65536, 65537);
    }
    while lo + 1 < hi
        invariant
            lo < hi <= 65537,
            p5(lo as int) <= t,
            t < p5(hi as int),
        decreases hi - lo,
    {
        let mid = lo + (hi - lo) / 2;
        proof {
            assert(mid * mid <= 0x1_0000_0000u128) by (nonlinear_arith)
                requires
                    mid <= 65536,
            ;
        }
        let m2 = mid * mid;
        proof {
            assert(m2 * m2 <= 0x1_0000_0000_0000_0000_0000u128) by (nonlinear_arith)
                requires
                    m2 <= 0x1_0000_0000u128,
            ;
        }
        let m4 = m2 * m2;
        proof {
            assert(m4 * mid <= u128::MAX && m4 * mid == p5(mid as int)) by (nonlinear_arith)
                requires
                    mid <= 65536 && m2 == mid * mid && m4 == m2 * m2 && m4
                        <= 0x1_0000_0000_0000_0000_0000u128,
            ;
        }
        let m5 = m4 * mid;
        if m5 <= t {
            lo = mid;
        } else {
            hi = mid;
        }
    }
    proof {
        lemma_root5_unique(t as int, lo as int);
    }
    lo as u64
}

/// Gamma-decodes one display component into linear light.
pub fn gamma_decode(v: i64) -> (r: i64)
    requires
        0 <= v <= SCALE,
    ensures
        r as int == decode_s(v as int),
        0 <= r <= SCALE,
{
    let t: u128 = (v as u128) * (65536u128 * 65536u128) * (65536u128 * 65536u128);
    proof {
        assert(t == (v as int) * (SCALE * SCALE) * (SCALE * SCALE) && t
            <= 0x1_0000_0000_0000_0000_0000u128) by (nonlinear_arith)
            requires
                0 <= v <= 65536 && t == (v as u128) * (65536u128 * 65536u128) * (65536u128
                    * 65536u128) && SCALE == 65536,
        ;
    }
    let r5 = root5(t);
    proof {
        crate::fixed::lemma_fmul_mag(v as int, v as int, 65536, 65536);
    }
    let sq = fmul(v, v);
    proof {
        lemma_root5_s(t as int);
        crate::fixed::lemma_fmul_mag(sq as int, r5 as int, 65536, 65536);
        lemma_fmul_s_mono(sq as int, r5 as int, 65536, 65536);
        assert((65536int * 65536) / 65536 == 65536);
        lemma_fmul_s_mono(0, 0, sq as int, r5 as int);
    }
    fmul(sq, r5 as i64)
}

/// Gamma-encodes one linear component into display space: the least display
/// component whose decoding reaches it, saturating at full intensity for
/// linear values past one.
pub fn gamma_encode(v: i64) -> (r: i64)
    requires
        v >= 0,
    ensures
        r as int == encode_s(v as int),
        0 <= r <= SCALE,
{
    proof {
        lemma_encode_s(v as int);
    }
    if v == 0 {
        return 0;
    }
    let mut lo: u64 = 0;
    let mut hi: u64 = 65536;
    proof {
        lemma_decode_full();
        lemma_decode_mono(0, 0);
    }
    while lo + 1 < hi
        invariant
            lo < hi <= 65536,
            decode_s(lo as int) < v as int,
            hi == 65536 || decode_s(hi as int) >= v as int,
            v >= 1,
        decreases hi - lo,
    {
        let mid = lo + (hi - lo) / 2;
        let d = gamma_decode(mid as i64);
        if d < v {
            lo = mid;
        } else {
            hi = mid;
        }
    }
    proof {
        lemma_decode_full();
        if 65536 < v as int {
            if hi < 65536 {
                lemma_decode_mono(hi as int, 65536);
            }
            lemma_encode_unique(v as int - 1, 65536);
        } else {
            lemma_encode_unique(v as int - 1, hi as int - 1);
        }
    }
    hi as i64
}

/// The gamma round trip, the fixed-point reading of `decode(encode(x)) ~ x`:
/// decoding what was encoded recovers the linear value from above, within
/// one decoder step; and encoding what was decoded lands at or below the
/// original display value while decoding to exactly the same linear value.
pub proof fn lemma_gamma_round_trip(v: int)
    requires
        0 <= v,
    ensures
        v <= 65536 ==> decode_s(encode_s(v)) >= v,
        encode_s(v) > 0 ==> decode_s(encode_s(v) - 1) < v,
        v <= 65536 ==> encode_s(decode_s(v)) <= v,
        v <= 65536 ==> decode_s(encode_s(decode_s(v))) == decode_s(v),
{
    lemma_encode_s(v);
    if v <= 65536 {
        lemma_decode_mono(0, v);
        lemma_decode_mono(v, 65536);
        lemma_decode_full();
        let d = decode_s(v);
        lemma_encode_s(d);
        let e = encode_s(d);
        if e > v {
            lemma_decode_mono(v, e - 1);
        }
        lemma_decode_mono(e, v);
    }
}

} // verus!
