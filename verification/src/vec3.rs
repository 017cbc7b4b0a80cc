//! Three-dimensional vectors and points over Q16.16 scalars.
//!
//! The one coordinate space of the tracer is tagged by [`World`]. A vector's
//! mathematical value is its [`V3`] view, a triple of unbounded integers; every
//! operation's contract states the produced components exactly in terms of the
//! exact fixed-point arithmetic of [`crate::fixed`].

use vstd::prelude::*;
use crate::fixed::{fdiv, fdiv_s, fmul, fmul_s, fsqrt, fsqrt_s, lemma_fmul_mag, lemma_sqrt_s, mag,
    tdiv, SCALE};

verus! {

/// Marker for the single coordinate space all geometry lives in.
pub struct World;

/// A vector (or point) with Q16.16 components.
#[derive(Clone, Copy, PartialEq, Eq, Structural)]
pub struct Vector3 {
    pub x: i64,
    pub y: i64,
    pub z: i64,
}

/// Points share the representation of vectors.
pub type Point = Vector3;

/// The mathematical value of a vector: a triple of unbounded integers, each
/// `SCALE` times the coordinate it stands for.
pub struct V3 {
    pub x: int,
    pub y: int,
    pub z: int,
}

impl View for Vector3 {
    type V = V3;

    open spec fn view(&self) -> V3 {
        V3 { x: self.x as int, y: self.y as int, z: self.z as int }
    }
}

/// Componentwise sum.
pub open spec fn vadd(a: V3, b: V3) -> V3 {
    V3 { x: a.x + b.x, y: a.y + b.y, z: a.z + b.z }
}

/// Componentwise difference.
pub open spec fn vsub(a: V3, b: V3) -> V3 {
    V3 { x: a.x - b.x, y: a.y - b.y, z: a.z - b.z }
}

/// Componentwise negation.
pub open spec fn vneg(a: V3) -> V3 {
    V3 { x: -a.x, y: -a.y, z: -a.z }
}

/// Each component scaled by the fixed-point factor `s`.
pub open spec fn vscale(a: V3, s: int) -> V3 {
    V3 { x: fmul_s(a.x, s), y: fmul_s(a.y, s), z: fmul_s(a.z, s) }
}

/// Fixed-point dot product.
pub open spec fn vdot(a: V3, b: V3) -> int {
    fmul_s(a.x, b.x) + fmul_s(a.y, b.y) + fmul_s(a.z, b.z)
}

/// Fixed-point squared length.
pub open spec fn vsqlen(a: V3) -> int {
    vdot(a, a)
}

/// Fixed-point length: the square root of the squared length.
pub open spec fn vlen(a: V3) -> int {
    fsqrt_s(vsqlen(a))
}

/// The vector scaled to unit length, each component divided by the length.
pub open spec fn vnorm(a: V3) -> V3 {
    V3 {
        x: fdiv_s(a.x, vlen(a)),
        y: fdiv_s(a.y, vlen(a)),
        z: fdiv_s(a.z, vlen(a)),
    }
}

/// Every component's magnitude is at most `m`.
pub open spec fn in_bound(a: V3, m: int) -> bool {
    mag(a.x) <= m && mag(a.y) <= m && mag(a.z) <= m
}

/// Each term of a fixed-point dot product of bounded vectors is bounded.
pub proof fn lemma_dot_bound(a: V3, b: V3, x: int, y: int)
    requires
        in_bound(a, x),
        in_bound(b, y),
    ensures
        mag(fmul_s(a.x, b.x)) + mag(fmul_s(a.y, b.y)) + mag(fmul_s(a.z, b.z)) <= 3 * (x * y / (
        SCALE as int)),
        mag(vdot(a, b)) <= 3 * (x * y / (SCALE as int)),
        mag(vsqlen(a)) <= 3 * (x * x / (SCALE as int)),
{
    lemma_fmul_mag(a.x, b.x, x, y);
    lemma_fmul_mag(a.y, b.y, x, y);
    lemma_fmul_mag(a.z, b.z, x, y);
    lemma_fmul_mag(a.x, a.x, x, x);
    lemma_fmul_mag(a.y, a.y, x, x);
    lemma_fmul_mag(a.z, a.z, x, x);
}

/// A fixed-point square is never negative, so neither is a squared length.
pub proof fn lemma_sqlen_nonneg(a: V3)
    ensures
        fmul_s(a.x, a.x) >= 0,
        fmul_s(a.y, a.y) >= 0,
        fmul_s(a.z, a.z) >= 0,
        vsqlen(a) >= 0,
{
    assert(a.x * a.x >= 0) by (nonlinear_arith);
    assert(a.y * a.y >= 0) by (nonlinear_arith);
    assert(a.z * a.z >= 0) by (nonlinear_arith);
    vstd::arithmetic::div_mod::lemma_div_pos_is_pos(a.x * a.x, SCALE as int);
    vstd::arithmetic::div_mod::lemma_div_pos_is_pos(a.y * a.y, SCALE as int);
    vstd::arithmetic::div_mod::lemma_div_pos_is_pos(a.z * a.z, SCALE as int);
}

impl Vector3 {
    /// Builds the vector with the given raw fixed-point components.
    pub fn new(x: i64, y: i64, z: i64) -> (r: Vector3)
        ensures
            r@ == (V3 { x: x as int, y: y as int, z: z as int }),
    {
        Vector3 { x, y, z }
    }

    /// The origin / zero vector.
    pub fn zero() -> (r: Vector3)
        ensures
            r@ == (V3 { x: 0, y: 0, z: 0 }),
    {
        Vector3 { x: 0, y: 0, z: 0 }
    }

    /// Componentwise sum.
    pub fn add(&self, o: &Vector3) -> (r: Vector3)
        requires
            mag(self@.x + o@.x) <= i64::MAX as int,
            mag(self@.y + o@.y) <= i64::MAX as int,
            mag(self@.z + o@.z) <= i64::MAX as int,
        ensures
            r@ == vadd(self@, o@),
    {
        Vector3 { x: self.x + o.x, y: self.y + o.y, z: self.z + o.z }
    }

    /// Componentwise difference.
    pub fn sub(&self, o: &Vector3) -> (r: Vector3)
        requires
            mag(self@.x - o@.x) <= i64::MAX as int,
            mag(self@.y - o@.y) <= i64::MAX as int,
            mag(self@.z - o@.z) <= i64::MAX as int,
        ensures
            r@ == vsub(self@, o@),
    {
        Vector3 { x: self.x - o.x, y: self.y - o.y, z: self.z - o.z }
    }

    /// Componentwise negation.
    pub fn neg(&self) -> (r: Vector3)
        requires
            mag(self@.x) <= i64::MAX as int,
            mag(self@.y) <= i64::MAX as int,
            mag(self@.z) <= i64::MAX as int,
        ensures
            r@ == vneg(self@),
    {
        Vector3 { x: -self.x, y: -self.y, z: -self.z }
    }

    /// Each component scaled by the fixed-point factor `s`.
    pub fn scale(&self, s: i64) -> (r: Vector3)
        requires
            mag(fmul_s(self@.x, s as int)) <= i64::MAX as int,
            mag(fmul_s(self@.y, s as int)) <= i64::MAX as int,
            mag(fmul_s(self@.z, s as int)) <= i64::MAX as int,
        ensures
            r@ == vscale(self@, s as int),
    {
        Vector3 { x: fmul(self.x, s), y: fmul(self.y, s), z: fmul(self.z, s) }
    }

    /// Fixed-point dot product.
    pub fn dot(&self, o: &Vector3) -> (r: i64)
        requires
            mag(fmul_s(self@.x, o@.x)) + mag(fmul_s(self@.y, o@.y)) + mag(
                fmul_s(self@.z, o@.z),
            ) <= i64::MAX as int,
        ensures
            r as int == vdot(self@, o@),
    {
        fmul(self.x, o.x) + fmul(self.y, o.y) + fmul(self.z, o.z)
    }

    /// Fixed-point squared length.
    pub fn square_length(&self) -> (r: i64)
        requires
            mag(fmul_s(self@.x, self@.x)) + mag(fmul_s(self@.y, self@.y)) + mag(
                fmul_s(self@.z, self@.z),
            ) <= i64::MAX as int,
        ensures
            r as int == vsqlen(self@),
            r >= 0,
    {
        proof {
            lemma_sqlen_nonneg(self@);
        }
        self.dot(self)
    }

    /// Fixed-point length.
    pub fn length(&self) -> (r: i64)
        requires
            mag(fmul_s(self@.x, self@.x)) + mag(fmul_s(self@.y, self@.y)) + mag(
                fmul_s(self@.z, self@.z),
            ) <= i64::MAX as int,
        ensures
            r as int == vlen(self@),
            r >= 0,
    {
        let sq = self.square_length();
        fsqrt(sq)
    }

    /// The vector scaled to unit length.
    ///
    /// The squared length must be positive (a vector shorter than one raw
    /// fixed-point unit has no usable direction), and the components must
    /// leave room for the scaling.
    pub fn normalize(&self) -> (r: Vector3)
        requires
            in_bound(self@, 0x40_0000_0000int),
            vsqlen(self@) >= 1,
        ensures
            r@ == vnorm(self@),
    {
        proof {
            lemma_dot_bound(self@, self@, 0x40_0000_0000int, 0x40_0000_0000int);
        }
        let len = self.length();
        proof {
            lemma_sqrt_s(vsqlen(self@) * SCALE);
            assert(len >= 1) by (nonlinear_arith)
                requires
                    len as int * len as int <= vsqlen(self@) * SCALE
                        && vsqlen(self@) * SCALE < (len as int + 1) * (len as int + 1)
                        && vsqlen(self@) >= 1 && len >= 0,
            ;
            lemma_fdiv_fits(self@.x, len as int);
            lemma_fdiv_fits(self@.y, len as int);
            lemma_fdiv_fits(self@.z, len as int);
        }
        Vector3 { x: fdiv(self.x, len), y: fdiv(self.y, len), z: fdiv(self.z, len) }
    }
}

/// The vector reflected across the plane `x = 0`.
pub open spec fn mirror_x(a: V3) -> V3 {
    V3 { x: -a.x, y: a.y, z: a.z }
}

/// A normalized vector of any usable length has components within a
/// few rounding steps of one unit.
pub proof fn lemma_vnorm_bound(v: V3)
    requires
        in_bound(v, 0x40_0000_0000int),
        vsqlen(v) >= 1,
    ensures
        in_bound(vnorm(v), 139264),
        vlen(v) >= 256,
{
    let sq = vsqlen(v);
    let len = vlen(v);
    lemma_sqrt_s(sq * SCALE);
    assert(sq * SCALE >= 65536) by (nonlinear_arith)
        requires
            sq >= 1 && SCALE == 65536,
    ;
    assert(len >= 256) by (nonlinear_arith)
        requires
            sq * SCALE < (len + 1) * (len + 1) && sq * SCALE >= 65536 && len >= 0,
    ;
    lemma_sqlen_nonneg(v);
    lemma_vnorm_bound_component(v.x, sq, len);
    lemma_vnorm_bound_component(v.y, sq, len);
    lemma_vnorm_bound_component(v.z, sq, len);
}

/// One component of the normalization bound: if the square of `c` accounts
/// for at most the whole squared length, the scaled quotient stays near one
/// unit.
proof fn lemma_vnorm_bound_component(c: int, sq: int, len: int)
    requires
        len >= 256,
        tdiv(c * c, SCALE as int) <= sq,
        sq * SCALE < (len + 1) * (len + 1),
    ensures
        mag(fdiv_s(c, len)) <= 139264,
{
    crate::fixed::lemma_mag_mul(c, c);
    crate::fixed::lemma_tdiv_mag(c * c, SCALE as int);
    assert(c * c >= 0) by (nonlinear_arith);
    // From the floor bound: c * c < (sq + 1) * SCALE.
    assert(c * c < (sq + 1) * SCALE) by (nonlinear_arith)
        requires
            (c * c) / (SCALE as int) <= sq && c * c >= 0 && SCALE == 65536,
    ;
    assert(c * c < (len + 1) * (len + 1) + 65536) by (nonlinear_arith)
        requires
            c * c < (sq + 1) * SCALE && sq * SCALE < (len + 1) * (len + 1) && SCALE == 65536,
    ;
    assert(mag(c) <= len + 257) by (nonlinear_arith)
        requires
            mag(c) * mag(c) == c * c && c * c < (len + 1) * (len + 1) + 65536 && len >= 256
                && mag(c) >= 0,
    ;
    crate::fixed::lemma_fdiv_mag(c, len);
    assert(mag(c) * SCALE < len * 131586) by (nonlinear_arith)
        requires
            mag(c) <= len + 257 && len >= 256 && SCALE == 65536 && mag(c) >= 0,
    ;
    vstd::arithmetic::div_mod::lemma_multiply_divide_lt(mag(c) * SCALE, len, 131586);
}

/// Reflecting across `x = 0` keeps the squared length and commutes with
/// normalization.
pub proof fn lemma_vnorm_mirror_x(v: V3)
    requires
        vsqlen(v) >= 1,
    ensures
        vsqlen(mirror_x(v)) == vsqlen(v),
        vnorm(mirror_x(v)) == mirror_x(vnorm(v)),
{
    crate::fixed::lemma_fmul_neg(v.x, v.x);
    crate::fixed::lemma_fmul_neg(v.x, -v.x);
    let len = vlen(v);
    lemma_sqrt_s(vsqlen(v) * SCALE);
    assert(len >= 1) by (nonlinear_arith)
        requires
            vsqlen(v) * SCALE < (len + 1) * (len + 1) && vsqlen(v) >= 1 && len >= 0 && SCALE
                == 65536,
    ;
    crate::fixed::lemma_fdiv_neg(v.x, len);
}

/// Scaling a moderately sized component up by `SCALE` and dividing by a
/// positive length stays within the machine range.
proof fn lemma_fdiv_fits(c: int, len: int)
    requires
        mag(c) <= 0x40_0000_0000int,
        len >= 1,
    ensures
        mag(fdiv_s(c, len)) <= i64::MAX as int,
{
    crate::fixed::lemma_fdiv_mag(c, len);
    assert(mag(c) * SCALE <= 0x40_0000_0000int * 65536) by (nonlinear_arith)
        requires
            mag(c) <= 0x40_0000_0000int,
    ;
    vstd::arithmetic::div_mod::lemma_div_is_ordered(mag(c) * SCALE, 0x40_0000_0000int * 65536,
        mag(len));
    vstd::arithmetic::div_mod::lemma_div_nonincreasing(0x40_0000_0000int * 65536, mag(len));
}

} // verus!
