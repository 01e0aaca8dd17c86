//! Three-component vectors over fixed-point scalars.
//!
//! `Vec3` is the executable type; its view `Vec3i` models each
//! component as a mathematical integer, and every operation is
//! specified exactly by a spec function over `Vec3i`.

use crate::fixed::{
    abs_i, div_trunc, fdiv, fmul, fsqrt, lemma_abs_mul, lemma_abs_mul_bound, lemma_isqrt_char,
    lemma_square_nonneg, lemma_tdiv_bound, lemma_tdiv_nonneg, sdiv, smul, sqrt_fx, tdiv, Fx,
    DOT_FIT, SCALE, VEC_LIMIT,
};
use vstd::arithmetic::div_mod::lemma_fundamental_div_mod;
use vstd::prelude::*;

verus! {

/// A vector of three fixed-point scalars.
#[derive(Clone, Copy, PartialEq, Eq, Structural, Debug)]
pub struct Vec3 {
    pub x: Fx,
    pub y: Fx,
    pub z: Fx,
}

/// The mathematical model of a vector: three unbounded integers.
pub ghost struct Vec3i {
    pub x: int,
    pub y: int,
    pub z: int,
}

impl View for Vec3 {
    type V = Vec3i;

    open spec fn view(&self) -> Vec3i {
        Vec3i { x: self.x as int, y: self.y as int, z: self.z as int }
    }
}

pub open spec fn v_bounded(v: Vec3i, b: int) -> bool {
    abs_i(v.x) <= b && abs_i(v.y) <= b && abs_i(v.z) <= b
}

pub open spec fn v_add(a: Vec3i, b: Vec3i) -> Vec3i {
    Vec3i { x: a.x + b.x, y: a.y + b.y, z: a.z + b.z }
}

pub open spec fn v_sub(a: Vec3i, b: Vec3i) -> Vec3i {
    Vec3i { x: a.x - b.x, y: a.y - b.y, z: a.z - b.z }
}

pub open spec fn v_scale(s: int, v: Vec3i) -> Vec3i {
    Vec3i { x: smul(s, v.x), y: smul(s, v.y), z: smul(s, v.z) }
}

/// Dot product: the sum of the component products, rescaled once.
pub open spec fn v_dot(a: Vec3i, b: Vec3i) -> int {
    tdiv(a.x * b.x + a.y * b.y + a.z * b.z, SCALE as int)
}

/// Cross product, each component rescaled once.
pub open spec fn v_cross(a: Vec3i, b: Vec3i) -> Vec3i {
    Vec3i {
        x: tdiv(a.y * b.z - a.z * b.y, SCALE as int),
        y: tdiv(a.z * b.x - a.x * b.z, SCALE as int),
        z: tdiv(a.x * b.y - a.y * b.x, SCALE as int),
    }
}

/// Normalization.  A vector too short to carry direction information
/// (squared length under one fixed-point unit) is returned unchanged;
/// otherwise each component is divided by the fixed-point length.
pub open spec fn v_norm(v: Vec3i) -> Vec3i {
    let d = v_dot(v, v);
    if d < 1 {
        v
    } else {
        let len = fsqrt(d);
        Vec3i { x: sdiv(v.x, len), y: sdiv(v.y, len), z: sdiv(v.z, len) }
    }
}

pub proof fn lemma_dot_self_nonneg(v: Vec3i)
    ensures
        0 <= v_dot(v, v),
{
    lemma_square_nonneg(v.x);
    lemma_square_nonneg(v.y);
    lemma_square_nonneg(v.z);
    lemma_tdiv_nonneg(v.x * v.x + v.y * v.y + v.z * v.z, SCALE as int);
}

/// The magnitude of a dot product of vectors bounded by `VEC_LIMIT`.
pub proof fn lemma_dot_fits(a: Vec3i, b: Vec3i)
    requires
        v_bounded(a, VEC_LIMIT as int),
        v_bounded(b, VEC_LIMIT as int),
    ensures
        abs_i(a.x * b.x) <= (VEC_LIMIT as int) * (VEC_LIMIT as int),
        abs_i(a.y * b.y) <= (VEC_LIMIT as int) * (VEC_LIMIT as int),
        abs_i(a.z * b.z) <= (VEC_LIMIT as int) * (VEC_LIMIT as int),
        abs_i(v_dot(a, b)) <= 3 * (DOT_FIT as int),
{
    let vl = VEC_LIMIT as int;
    lemma_abs_mul_bound(a.x, b.x, vl, vl);
    lemma_abs_mul_bound(a.y, b.y, vl, vl);
    lemma_abs_mul_bound(a.z, b.z, vl, vl);
    let s = a.x * b.x + a.y * b.y + a.z * b.z;
    assert(3 * (vl * vl) == (3 * (DOT_FIT as int)) * (SCALE as int)) by (nonlinear_arith)
        requires
            vl == 0x80_0000_0000_0000,
            DOT_FIT == 0x4000_0000_0000_0000_0000_0000,
            SCALE == 65536,
    ;
    lemma_tdiv_bound(s, SCALE as int, 3 * (DOT_FIT as int));
}

/// A dot product of vectors bounded by `ba` and `bb` is bounded by any
/// `c` with `3 * ba * bb <= c * SCALE`.
pub proof fn lemma_dot_range(a: Vec3i, b: Vec3i, ba: int, bb: int, c: int)
    requires
        v_bounded(a, ba),
        v_bounded(b, bb),
        0 <= ba,
        0 <= bb,
        0 <= c,
        3 * (ba * bb) <= c * (SCALE as int),
    ensures
        abs_i(v_dot(a, b)) <= c,
        abs_i(a.x * b.x) <= ba * bb,
        abs_i(a.y * b.y) <= ba * bb,
        abs_i(a.z * b.z) <= ba * bb,
{
    lemma_abs_mul_bound(a.x, b.x, ba, bb);
    lemma_abs_mul_bound(a.y, b.y, ba, bb);
    lemma_abs_mul_bound(a.z, b.z, ba, bb);
    let s = a.x * b.x + a.y * b.y + a.z * b.z;
    lemma_tdiv_bound(s, SCALE as int, c);
}

/// A scaled vector is bounded by any `c` with `bs * bv <= c * SCALE`.
pub proof fn lemma_scale_range(s: int, v: Vec3i, bs: int, bv: int, c: int)
    requires
        abs_i(s) <= bs,
        v_bounded(v, bv),
        0 <= bs,
        0 <= bv,
        0 <= c,
        bs * bv <= c * (SCALE as int),
    ensures
        v_bounded(v_scale(s, v), c),
        abs_i(s * v.x) <= bs * bv,
        abs_i(s * v.y) <= bs * bv,
        abs_i(s * v.z) <= bs * bv,
{
    lemma_abs_mul_bound(s, v.x, bs, bv);
    lemma_abs_mul_bound(s, v.y, bs, bv);
    lemma_abs_mul_bound(s, v.z, bs, bv);
    lemma_tdiv_bound(s * v.x, SCALE as int, c);
    lemma_tdiv_bound(s * v.y, SCALE as int, c);
    lemma_tdiv_bound(s * v.z, SCALE as int, c);
}

/// A cross product of vectors bounded by `ba` and `bb` is bounded by
/// any `c` with `2 * ba * bb <= c * SCALE`.
pub proof fn lemma_cross_range(a: Vec3i, b: Vec3i, ba: int, bb: int, c: int)
    requires
        v_bounded(a, ba),
        v_bounded(b, bb),
        0 <= ba,
        0 <= bb,
        0 <= c,
        2 * (ba * bb) <= c * (SCALE as int),
    ensures
        v_bounded(v_cross(a, b), c),
        abs_i(a.y * b.z) <= ba * bb,
        abs_i(a.z * b.y) <= ba * bb,
        abs_i(a.z * b.x) <= ba * bb,
        abs_i(a.x * b.z) <= ba * bb,
        abs_i(a.x * b.y) <= ba * bb,
        abs_i(a.y * b.x) <= ba * bb,
{
    lemma_abs_mul_bound(a.y, b.z, ba, bb);
    lemma_abs_mul_bound(a.z, b.y, ba, bb);
    lemma_abs_mul_bound(a.z, b.x, ba, bb);
    lemma_abs_mul_bound(a.x, b.z, ba, bb);
    lemma_abs_mul_bound(a.x, b.y, ba, bb);
    lemma_abs_mul_bound(a.y, b.x, ba, bb);
    lemma_tdiv_bound(a.y * b.z - a.z * b.y, SCALE as int, c);
    lemma_tdiv_bound(a.z * b.x - a.x * b.z, SCALE as int, c);
    lemma_tdiv_bound(a.x * b.y - a.y * b.x, SCALE as int, c);
}

impl Vec3 {
    pub fn new(x: Fx, y: Fx, z: Fx) -> (r: Vec3)
        ensures
            r@ == (Vec3i { x: x as int, y: y as int, z: z as int }),
    {
        Vec3 { x, y, z }
    }

    /// Runtime check of the component bound used in the contracts.
    pub fn in_bounds(&self, b: Fx) -> (r: bool)
        requires
            0 <= b,
        ensures
            r == v_bounded(self@, b as int),
    {
        -b <= self.x && self.x <= b && -b <= self.y && self.y <= b && -b <= self.z && self.z <= b
    }

    pub fn plus(&self, o: &Vec3) -> (r: Vec3)
        requires
            v_bounded(self@, VEC_LIMIT as int),
            v_bounded(o@, VEC_LIMIT as int),
        ensures
            r@ == v_add(self@, o@),
    {
        Vec3 { x: self.x + o.x, y: self.y + o.y, z: self.z + o.z }
    }

    pub fn minus(&self, o: &Vec3) -> (r: Vec3)
        requires
            v_bounded(self@, VEC_LIMIT as int),
            v_bounded(o@, VEC_LIMIT as int),
        ensures
            r@ == v_sub(self@, o@),
    {
        Vec3 { x: self.x - o.x, y: self.y - o.y, z: self.z - o.z }
    }

    pub fn scale(&self, s: Fx) -> (r: Vec3)
        requires
            abs_i(s as int) <= VEC_LIMIT as int,
            v_bounded(self@, VEC_LIMIT as int),
        ensures
            r@ == v_scale(s as int, self@),
    {
        proof {
            let vl = VEC_LIMIT as int;
            lemma_abs_mul_bound(s as int, self@.x, vl, vl);
            lemma_abs_mul_bound(s as int, self@.y, vl, vl);
            lemma_abs_mul_bound(s as int, self@.z, vl, vl);
        }
        Vec3 { x: fmul(s, self.x), y: fmul(s, self.y), z: fmul(s, self.z) }
    }

    pub fn dot(&self, o: &Vec3) -> (r: Fx)
        requires
            v_bounded(self@, VEC_LIMIT as int),
            v_bounded(o@, VEC_LIMIT as int),
        ensures
            r as int == v_dot(self@, o@),
    {
        proof {
            lemma_dot_fits(self@, o@);
        }
        let s: i128 = self.x * o.x + self.y * o.y + self.z * o.z;
        div_trunc(s, SCALE)
    }

    pub fn cross(&self, o: &Vec3) -> (r: Vec3)
        requires
            v_bounded(self@, VEC_LIMIT as int),
            v_bounded(o@, VEC_LIMIT as int),
        ensures
            r@ == v_cross(self@, o@),
    {
        proof {
            let vl = VEC_LIMIT as int;
            lemma_abs_mul_bound(self@.y, o@.z, vl, vl);
            lemma_abs_mul_bound(self@.z, o@.y, vl, vl);
            lemma_abs_mul_bound(self@.z, o@.x, vl, vl);
            lemma_abs_mul_bound(self@.x, o@.z, vl, vl);
            lemma_abs_mul_bound(self@.x, o@.y, vl, vl);
            lemma_abs_mul_bound(self@.y, o@.x, vl, vl);
        }
        Vec3 {
            x: div_trunc(self.y * o.z - self.z * o.y, SCALE),
            y: div_trunc(self.z * o.x - self.x * o.z, SCALE),
            z: div_trunc(self.x * o.y - self.y * o.x, SCALE),
        }
    }

    /// Normalize.  The result's components never exceed two whole
    /// units, whatever the input.
    pub fn normalize(&self) -> (r: Vec3)
        requires
            v_bounded(self@, VEC_LIMIT as int),
        ensures
            r@ == v_norm(self@),
            v_bounded(r@, 2 * SCALE as int),
    {
        let d: Fx = self.dot(self);
        proof {
            lemma_dot_self_nonneg(self@);
        }
        if d < 1 {
            proof {
                lemma_short_vector_small(self@);
            }
            *self
        } else {
            proof {
                lemma_dot_fits(self@, self@);
            }
            let len: Fx = sqrt_fx(d);
            proof {
                lemma_norm_bounds(self@, d as int, len as int);
            }
            Vec3 { x: fdiv(self.x, len), y: fdiv(self.y, len), z: fdiv(self.z, len) }
        }
    }
}

/// A vector whose fixed-point squared length truncates to zero has
/// every component under one real unit.
proof fn lemma_short_vector_small(v: Vec3i)
    requires
        v_dot(v, v) < 1,
        v_bounded(v, VEC_LIMIT as int),
    ensures
        v_bounded(v, 255),
{
    let s = v.x * v.x + v.y * v.y + v.z * v.z;
    lemma_square_nonneg(v.x);
    lemma_square_nonneg(v.y);
    lemma_square_nonneg(v.z);
    lemma_tdiv_nonneg(s, SCALE as int);
    lemma_fundamental_div_mod(s, SCALE as int);
    assert(s < SCALE as int);
    lemma_comp_small(v.x, s);
    lemma_comp_small(v.y, s);
    lemma_comp_small(v.z, s);
}

proof fn lemma_comp_small(c: int, s: int)
    requires
        c * c <= s,
        s < 65536,
    ensures
        abs_i(c) <= 255,
{
    let m = abs_i(c);
    lemma_abs_mul(c, c);
    lemma_square_nonneg(c);
    if m > 255 {
        assert(false) by (nonlinear_arith)
            requires
                m >= 256,
                m * m < 65536,
        ;
    }
}

/// Core accuracy bound for normalization: the fixed-point length is at
/// least 256, and at least half of every component's magnitude, so the
/// normalized components stay within two whole units.
proof fn lemma_norm_bounds(v: Vec3i, d: int, len: int)
    requires
        d == v_dot(v, v),
        1 <= d,
        len == fsqrt(d),
        v_bounded(v, VEC_LIMIT as int),
    ensures
        256 <= len,
        abs_i(sdiv(v.x, len)) <= 2 * SCALE as int,
        abs_i(sdiv(v.y, len)) <= 2 * SCALE as int,
        abs_i(sdiv(v.z, len)) <= 2 * SCALE as int,
{
    let s = v.x * v.x + v.y * v.y + v.z * v.z;
    lemma_square_nonneg(v.x);
    lemma_square_nonneg(v.y);
    lemma_square_nonneg(v.z);
    lemma_tdiv_nonneg(s, SCALE as int);
    lemma_fundamental_div_mod(s, SCALE as int);
    assert((SCALE as int) * d <= s);
    assert(s < (SCALE as int) * d + SCALE as int);
    lemma_isqrt_char((d * (SCALE as int)) as nat);
    assert(len * len <= d * (SCALE as int));
    assert(d * (SCALE as int) < (len + 1) * (len + 1));
    if len <= 255 {
        assert((len + 1) * (len + 1) <= 65536) by (nonlinear_arith)
            requires
                0 <= len,
                len <= 255,
        ;
    }
    lemma_norm_comp(v.x, s, len);
    lemma_norm_comp(v.y, s, len);
    lemma_norm_comp(v.z, s, len);
}

proof fn lemma_norm_comp(c: int, s: int, len: int)
    requires
        c * c <= s,
        s < (len + 1) * (len + 1) + 65536,
        256 <= len,
    ensures
        abs_i(sdiv(c, len)) <= 2 * SCALE as int,
{
    let m = abs_i(c);
    lemma_abs_mul(c, c);
    lemma_square_nonneg(c);
    if m > 2 * len {
        assert(false) by (nonlinear_arith)
            requires
                m >= 2 * len + 1,
                m * m <= s,
                s < (len + 1) * (len + 1) + 65536,
                256 <= len,
        ;
    }
    lemma_abs_mul(c, SCALE as int);
    assert(m * (SCALE as int) <= (2 * SCALE as int) * abs_i(len)) by (nonlinear_arith)
        requires
            m <= 2 * len,
            0 <= m,
            256 <= len,
            abs_i(len) == len,
            SCALE == 65536,
    ;
    lemma_tdiv_bound(c * (SCALE as int), len, 2 * SCALE as int);
}

} // verus!
