//! Fixed-point scalar arithmetic.
//!
//! A scalar is an `i128` storing the real value times `SCALE` (65536).
//! Multiplication and division truncate toward zero, mirroring what a
//! hardware float unit does to a product before rounding; the spec
//! functions `smul`, `sdiv` and `fsqrt` state the results exactly over
//! mathematical integers.

use vstd::arithmetic::div_mod::{
    lemma_div_is_ordered, lemma_div_is_strictly_smaller, lemma_div_pos_is_pos,
    lemma_fundamental_div_mod, lemma_div_multiples_vanish,
};
use vstd::prelude::*;

verus! {

/// Fixed-point scalar: the real value times `SCALE`.
pub type Fx = i128;

/// One whole unit: 2^16.
pub const SCALE: i128 = 65536;

/// Offset bias (about 1e-3 of a unit) applied to secondary-ray origins
/// so they do not immediately re-hit the surface they start on.
pub const EPS: i128 = 66;

/// Hits farther than this along a ray (2^24 units) count as misses.
pub const T_MAX: i128 = 0x100_0000_0000;

/// Bound on scene geometry: centers, plane points, camera position.
pub const COORD_LIMIT: i128 = 0x100_0000_0000;

/// Bound on the components of a ray direction.
pub const DIR_LIMIT: i128 = 0x40000;

/// Bound on the origin of a ray handed to the tracer.
pub const TRACE_LIMIT: i128 = 0x1000_0000_0000;

/// Bound on the origin of a ray handed to an intersection test.
pub const ORIGIN_LIMIT: i128 = 0x4000_0000_0000;

/// Bound on the components of any vector fed to the vector operations.
pub const VEC_LIMIT: i128 = 0x80_0000_0000_0000;

/// `VEC_LIMIT * VEC_LIMIT / SCALE`: bound on a dot product of vectors
/// within `VEC_LIMIT`.
pub const DOT_FIT: i128 = 0x4000_0000_0000_0000_0000_0000;

/// Bound on the camera's image-plane distance (2^8 units).
pub const DIST_LIMIT: i128 = 0x100_0000;

/// Bound on the tangent of the camera's half field of view (16 units).
pub const TAN_LIMIT: i128 = 0x10_0000;

/// Bound on the pixel dimensions of the image.
pub const PIX_LIMIT: usize = 0x4000;

/// How far (component-wise, in raw fixed-point units) a hit point can
/// lie from the origin of the ray that produced it.
pub const HIT_STEP: i128 = 0x400_0000_0000;

pub open spec fn abs_i(a: int) -> int {
    if a < 0 {
        -a
    } else {
        a
    }
}

/// Division truncating toward zero, as Rust's `/` on signed integers.
pub open spec fn tdiv(a: int, b: int) -> int {
    if (a < 0) == (b < 0) {
        abs_i(a) / abs_i(b)
    } else {
        -(abs_i(a) / abs_i(b))
    }
}

/// Fixed-point product: `a * b` rescaled by `SCALE`.
pub open spec fn smul(a: int, b: int) -> int {
    tdiv(a * b, SCALE as int)
}

/// Fixed-point quotient: `a / b` rescaled by `SCALE`.
pub open spec fn sdiv(a: int, b: int) -> int {
    tdiv(a * (SCALE as int), b)
}

/// Clamp to the fixed-point interval [0, 1].
pub open spec fn clamp01_spec(a: int) -> int {
    if a < 0 {
        0
    } else if a > SCALE {
        SCALE as int
    } else {
        a
    }
}

/// The integer square root: the largest r with r * r <= n.
pub open spec fn isqrt_spec(n: nat) -> nat
    decreases n,
{
    if n == 0 {
        0
    } else {
        let p = isqrt_spec((n - 1) as nat);
        if (p + 1) * (p + 1) <= n {
            p + 1
        } else {
            p
        }
    }
}

/// Fixed-point square root of a nonnegative scalar.
pub open spec fn fsqrt(a: int) -> int {
    isqrt_spec((a * (SCALE as int)) as nat) as int
}

pub proof fn lemma_abs_mul(a: int, b: int)
    ensures
        abs_i(a * b) == abs_i(a) * abs_i(b),
{
    if a >= 0 && b >= 0 {
        assert(a * b >= 0) by (nonlinear_arith)
            requires
                a >= 0,
                b >= 0,
        ;
    } else if a < 0 && b < 0 {
        assert(a * b >= 0 && (-a) * (-b) == a * b) by (nonlinear_arith)
            requires
                a < 0,
                b < 0,
        ;
    } else if a < 0 {
        assert(a * b <= 0 && (-a) * b == -(a * b)) by (nonlinear_arith)
            requires
                a < 0,
                b >= 0,
        ;
    } else {
        assert(a * b <= 0 && a * (-b) == -(a * b)) by (nonlinear_arith)
            requires
                a >= 0,
                b < 0,
        ;
    }
}

/// |a| <= c * |b| bounds the truncated quotient by c.
pub proof fn lemma_tdiv_bound(a: int, b: int, c: int)
    requires
        b != 0,
        0 <= c,
        abs_i(a) <= c * abs_i(b),
    ensures
        abs_i(tdiv(a, b)) <= c,
{
    let x = abs_i(a);
    let y = abs_i(b);
    lemma_fundamental_div_mod(x, y);
    lemma_div_pos_is_pos(x, y);
    let q = x / y;
    assert(y * q <= x);
    assert(q <= c) by (nonlinear_arith)
        requires
            y >= 1,
            y * q <= x,
            x <= c * y,
            q >= 0,
    ;
}

/// Dividing by a nonzero integer never grows the magnitude.
pub proof fn lemma_tdiv_bound_simple(a: int, b: int, c: int)
    requires
        b != 0,
        0 <= c,
        abs_i(a) <= c,
    ensures
        abs_i(tdiv(a, b)) <= c,
{
    assert(c * abs_i(b) >= c) by (nonlinear_arith)
        requires
            abs_i(b) >= 1,
            c >= 0,
    ;
    lemma_tdiv_bound(a, b, c);
}

/// A quotient of nonnegative values is at least `c` when the dividend
/// is at least `c` times the divisor.
pub proof fn lemma_div_at_least(x: int, d: int, c: int)
    requires
        0 < d,
        0 <= c,
        c * d <= x,
    ensures
        c <= x / d,
{
    lemma_div_is_ordered(c * d, x, d);
    lemma_div_multiples_vanish(c, d);
    assert(c * d == d * c) by (nonlinear_arith);
}

pub proof fn lemma_tdiv_nonneg(a: int, b: int)
    requires
        0 <= a,
        0 < b,
    ensures
        tdiv(a, b) == a / b,
        0 <= tdiv(a, b),
{
    lemma_div_pos_is_pos(a, b);
}

/// Scaling by b then dividing by b is the identity.
pub proof fn lemma_tdiv_mul_cancel(a: int, b: int)
    requires
        0 < b,
    ensures
        tdiv(a * b, b) == a,
{
    lemma_abs_mul(a, b);
    if a >= 0 {
        assert(a * b >= 0 && a * b == b * a) by (nonlinear_arith)
            requires
                a >= 0,
                0 < b,
        ;
        lemma_div_multiples_vanish(a, b);
    } else {
        assert(a * b < 0 && (-a) * b == b * (-a)) by (nonlinear_arith)
            requires
                a < 0,
                0 < b,
        ;
        lemma_div_multiples_vanish(-a, b);
        assert(abs_i(a) * abs_i(b) == b * (-a));
    }
}

pub proof fn lemma_abs_mul_bound(a: int, b: int, ba: int, bb: int)
    requires
        abs_i(a) <= ba,
        abs_i(b) <= bb,
    ensures
        abs_i(a * b) <= ba * bb,
{
    lemma_abs_mul(a, b);
    let x = abs_i(a);
    let y = abs_i(b);
    assert(x * y <= ba * bb) by (nonlinear_arith)
        requires
            0 <= x,
            0 <= y,
            x <= ba,
            y <= bb,
    ;
}

pub proof fn lemma_square_nonneg(a: int)
    ensures
        0 <= a * a,
{
    assert(0 <= a * a) by (nonlinear_arith);
}

/// The recursive definition of `isqrt_spec` meets the square-root
/// characterization.
pub proof fn lemma_isqrt_char(n: nat)
    ensures
        isqrt_spec(n) * isqrt_spec(n) <= n,
        n < (isqrt_spec(n) + 1) * (isqrt_spec(n) + 1),
    decreases n,
{
    let r = isqrt_spec(n);
    if n == 0 {
        assert(r == 0);
        assert(r * r == 0 && (r + 1) * (r + 1) == 1) by (nonlinear_arith)
            requires
                r == 0nat,
        ;
    } else {
        lemma_isqrt_char((n - 1) as nat);
        let p = isqrt_spec((n - 1) as nat);
        assert(p * p <= n - 1);
        assert(n - 1 < (p + 1) * (p + 1));
        if (p + 1) * (p + 1) <= n {
            let s = p + 1;
            assert(r == s);
            assert((s + 1) * (s + 1) == s * s + 2 * s + 1) by (nonlinear_arith);
            assert(r * r <= n);
            assert(n < (r + 1) * (r + 1));
        } else {
            assert(r == p);
            assert(r * r <= n);
            assert(n < (r + 1) * (r + 1));
        }
    }
}

pub proof fn lemma_isqrt_unique(n: nat, r: nat)
    requires
        r * r <= n,
        n < (r + 1) * (r + 1),
    ensures
        r == isqrt_spec(n),
{
    lemma_isqrt_char(n);
    let s = isqrt_spec(n);
    if r < s {
        assert((r + 1) * (r + 1) <= s * s) by (nonlinear_arith)
            requires
                r + 1 <= s,
        ;
    }
    if s < r {
        assert((s + 1) * (s + 1) <= r * r) by (nonlinear_arith)
            requires
                s + 1 <= r,
        ;
    }
}

/// Truncating signed division, via unsigned magnitudes.
pub fn div_trunc(a: i128, b: i128) -> (r: i128)
    requires
        b != 0,
        a != i128::MIN,
        b != i128::MIN,
    ensures
        r as int == tdiv(a as int, b as int),
{
    let ua: u128 = if a < 0 {
        (-a) as u128
    } else {
        a as u128
    };
    let ub: u128 = if b < 0 {
        (-b) as u128
    } else {
        b as u128
    };
    let q: u128 = ua / ub;
    proof {
        assert(ua as int == abs_i(a as int));
        assert(ub as int == abs_i(b as int));
        lemma_div_is_ordered(0, ua as int, ub as int);
        lemma_fundamental_div_mod(ua as int, ub as int);
        assert((ua as int) / (ub as int) <= ua as int) by (nonlinear_arith)
            requires
                ub as int >= 1,
                ua as int >= 0,
                (ub as int) * ((ua as int) / (ub as int)) <= ua as int,
                (ua as int) / (ub as int) >= 0,
        ;
    }
    if (a < 0) != (b < 0) {
        -(q as i128)
    } else {
        q as i128
    }
}

/// Fixed-point multiplication.
pub fn fmul(a: Fx, b: Fx) -> (r: Fx)
    requires
        -(i128::MAX as int) <= (a as int) * (b as int) <= i128::MAX as int,
    ensures
        r as int == smul(a as int, b as int),
{
    let p: i128 = a * b;
    div_trunc(p, SCALE)
}

/// Fixed-point division.
pub fn fdiv(a: Fx, b: Fx) -> (r: Fx)
    requires
        b != 0,
        b != i128::MIN,
        -(i128::MAX as int) <= (a as int) * (SCALE as int) <= i128::MAX as int,
    ensures
        r as int == sdiv(a as int, b as int),
{
    let p: i128 = a * SCALE;
    div_trunc(p, b)
}

/// Integer square root by bisection.
pub fn isqrt_u(n: u128) -> (r: u128)
    requires
        (n as int) < 0x4000_0000_0000_0000_0000_0000_0000_0000,
    ensures
        r as nat == isqrt_spec(n as nat),
        (r as int) * (r as int) <= n as int,
        (n as int) < (r as int + 1) * (r as int + 1),
{
    let mut lo: u128 = 0;
    let mut hi: u128 = 0x8000_0000_0000_0000;
    while hi - lo > 1
        invariant
            lo < hi,
            hi <= 0x8000_0000_0000_0000,
            (lo as int) * (lo as int) <= n as int,
            (n as int) < (hi as int) * (hi as int),
        decreases hi - lo,
    {
        let gap: u128 = hi - lo;
        let half: u128 = gap / 2;
        proof {
            lemma_div_is_ordered(2, gap as int, 2);
            lemma_div_is_strictly_smaller(gap as int, 2);
        }
        let mid: u128 = lo + half;
        proof {
            assert((mid as int) * (mid as int) < 0x4000_0000_0000_0000_0000_0000_0000_0000)
                by (nonlinear_arith)
                requires
                    0 <= mid as int,
                    (mid as int) < 0x8000_0000_0000_0000,
            ;
        }
        if mid * mid <= n {
            lo = mid;
        } else {
            hi = mid;
        }
    }
    proof {
        lemma_isqrt_unique(n as nat, lo as nat);
    }
    lo
}

/// Fixed-point square root of a nonnegative scalar.
pub fn sqrt_fx(a: Fx) -> (r: Fx)
    requires
        0 <= a,
        (a as int) * (SCALE as int) < 0x4000_0000_0000_0000_0000_0000_0000_0000,
    ensures
        r as int == fsqrt(a as int),
        0 <= r,
        (r as int) * (r as int) <= (a as int) * (SCALE as int),
        (a as int) * (SCALE as int) < (r as int + 1) * (r as int + 1),
{
    let p: u128 = (a as u128) * (SCALE as u128);
    let r: u128 = isqrt_u(p);
    proof {
        assert((r as int) < 0x8000_0000_0000_0000_0000_0000_0000_0000) by (nonlinear_arith)
            requires
                0 <= r as int,
                (r as int) * (r as int) < 0x4000_0000_0000_0000_0000_0000_0000_0000,
        ;
    }
    r as i128
}

/// Clamp to the fixed-point interval [0, 1].
pub fn clamp01(a: Fx) -> (r: Fx)
    ensures
        r as int == clamp01_spec(a as int),
{
    if a < 0 {
        0
    } else if a > SCALE {
        SCALE
    } else {
        a
    }
}

} // verus!
