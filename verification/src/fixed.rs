//! Fixed-point scalars, vectors and angles for the deterministic simulation.
//!
//! Lengths and positions are in milli-units, velocities in milli-units per
//! second, times in milliseconds, and angles in milliradians.  Unit vectors
//! carry components scaled by `SCALE`.  Working over integers keeps every
//! tick reproducible bit for bit, which is what an authoritative server
//! needs to stay fair.

use vstd::prelude::*;
use vstd::arithmetic::div_mod::{
    lemma_div_is_ordered, lemma_div_multiples_vanish, lemma_fundamental_div_mod,
    lemma_fundamental_div_mod_converse, lemma_mod_multiples_basic, lemma_small_mod,
};

verus! {

/// Milli-units per world unit; also the scale of unit-vector components.
pub const SCALE: i64 = 1000;

/// One half turn, in milliradians.
pub const PI_MRAD: i64 = 3142;

/// One quarter turn, in milliradians.
pub const HALF_PI_MRAD: i64 = 1571;

/// One full turn, in milliradians.
pub const TAU_MRAD: i64 = 6284;

/// A two-dimensional fixed-point vector.  For track pairs, `x` is the left
/// track and `y` the right track.
#[derive(Debug, Clone, Copy, PartialEq, Eq, Structural)]
pub struct Vec2 {
    pub x: i64,
    pub y: i64,
}

/// Both components within `[-bound, bound]`.
pub open spec fn in_range(v: Vec2, bound: int) -> bool {
    -bound <= v.x <= bound && -bound <= v.y <= bound
}

/// Scalar clamped into `[lo, hi]`.
pub open spec fn spec_clamp(x: int, lo: int, hi: int) -> int {
    if x < lo {
        lo
    } else if x > hi {
        hi
    } else {
        x
    }
}

/// Scalar clamp into a range.
pub fn clamp_i64(x: i64, lo: i64, hi: i64) -> (r: i64)
    requires
        lo <= hi,
    ensures
        r == spec_clamp(x as int, lo as int, hi as int),
{
    if x < lo {
        lo
    } else if x > hi {
        hi
    } else {
        x
    }
}

/// Division that rounds toward zero, the way the hardware divides.
pub open spec fn div_t(a: int, b: int) -> int
    recommends
        b > 0,
{
    if a >= 0 {
        a / b
    } else {
        -((-a) / b)
    }
}

/// Truncating division on machine integers.
pub fn div_trunc(a: i64, b: i64) -> (r: i64)
    requires
        b > 0,
        a > i64::MIN,
    ensures
        r == div_t(a as int, b as int),
{
    if a >= 0 {
        a / b
    } else {
        -((-a) / b)
    }
}

/// `|div_t(a, b)| <= |a| / b <= |a|`, which keeps products of quotients small.
pub proof fn lemma_div_t_bound(a: int, b: int, m: int)
    requires
        b > 0,
        -m <= a <= m,
        0 <= m,
    ensures
        -m <= div_t(a, b) <= m,
{
    if a >= 0 {
        lemma_div_is_ordered(a, m, b);
        lemma_fundamental_div_mod(a, b);
        assert(a / b >= 0) by {
            vstd::arithmetic::div_mod::lemma_div_pos_is_pos(a, b);
        }
        assert(m / b <= m) by {
            vstd::arithmetic::div_mod::lemma_div_nonincreasing(m, b);
        }
    } else {
        lemma_div_is_ordered(-a, m, b);
        assert((-a) / b >= 0) by {
            vstd::arithmetic::div_mod::lemma_div_pos_is_pos(-a, b);
        }
        assert(m / b <= m) by {
            vstd::arithmetic::div_mod::lemma_div_nonincreasing(m, b);
        }
    }
}

/// Dividing a value bounded by `m * b` through `b` stays within `m`.
pub proof fn lemma_div_t_scaled(a: int, b: int, m: int)
    requires
        b > 0,
        0 <= m,
        -(m * b) <= a <= m * b,
    ensures
        -m <= div_t(a, b) <= m,
{
    assert(b * m == m * b) by (nonlinear_arith);
    if a >= 0 {
        lemma_div_is_ordered(a, m * b, b);
        lemma_div_multiples_vanish(m, b);
        assert(a / b >= 0) by {
            vstd::arithmetic::div_mod::lemma_div_pos_is_pos(a, b);
        }
    } else {
        lemma_div_is_ordered(-a, m * b, b);
        lemma_div_multiples_vanish(m, b);
        assert((-a) / b >= 0) by {
            vstd::arithmetic::div_mod::lemma_div_pos_is_pos(-a, b);
        }
    }
}

/// Truncating division for a nonzero divisor of either sign.
pub open spec fn div_ts(a: int, b: int) -> int
    recommends
        b != 0,
{
    if b > 0 {
        div_t(a, b)
    } else {
        -div_t(a, -b)
    }
}

/// Truncating division on machine integers, divisor of either sign.
pub fn div_trunc_s(a: i64, b: i64) -> (r: i64)
    requires
        b != 0,
        a > i64::MIN,
        b > i64::MIN,
    ensures
        r == div_ts(a as int, b as int),
{
    if b > 0 {
        div_trunc(a, b)
    } else {
        -div_trunc(a, -b)
    }
}

/// The quotient is no larger in magnitude than the dividend.
pub proof fn lemma_div_ts_bound(a: int, b: int, m: int)
    requires
        b != 0,
        -m <= a <= m,
        0 <= m,
    ensures
        -m <= div_ts(a, b) <= m,
{
    if b > 0 {
        lemma_div_t_bound(a, b, m);
    } else {
        lemma_div_t_bound(a, -b, m);
    }
}

/// Bounds on factors bound the product.
pub proof fn lemma_mul_bound(a: int, b: int, ma: int, mb: int)
    requires
        -ma <= a <= ma,
        -mb <= b <= mb,
        0 <= ma,
        0 <= mb,
    ensures
        -(ma * mb) <= a * b <= ma * mb,
{
    assert(-(ma * mb) <= a * b <= ma * mb) by (nonlinear_arith)
        requires
            -ma <= a <= ma,
            -mb <= b <= mb,
            0 <= ma,
            0 <= mb,
    ;
}

/// The angle congruent to `a` in `[0, TAU_MRAD)`.
pub fn norm_angle(a: i64) -> (r: i64)
    requires
        a > i64::MIN,
    ensures
        r == (a as int) % (TAU_MRAD as int),
        0 <= r < TAU_MRAD,
{
    if a >= 0 {
        a % TAU_MRAD
    } else {
        let k = (-a) % TAU_MRAD;
        proof {
            let q = (-a) as int / (TAU_MRAD as int);
            lemma_fundamental_div_mod(-(a as int), TAU_MRAD as int);
            if k == 0 {
                assert(a as int == (-q) * (TAU_MRAD as int));
                lemma_mod_multiples_basic(-q, TAU_MRAD as int);
            } else {
                assert(a as int == (-q - 1) * (TAU_MRAD as int) + (TAU_MRAD as int - k));
                lemma_fundamental_div_mod_converse(
                    a as int,
                    TAU_MRAD as int,
                    -q - 1,
                    TAU_MRAD as int - k,
                );
            }
        }
        if k == 0 {
            0
        } else {
            TAU_MRAD - k
        }
    }
}

/// The integer square-root floor, defined by counting up.
pub open spec fn sqrt_floor(x: int) -> int
    decreases
            (if x >= 0 {
                x
            } else {
                0
            }),
{
    if x <= 0 {
        0
    } else {
        let r = sqrt_floor(x - 1);
        if (r + 1) * (r + 1) <= x {
            r + 1
        } else {
            r
        }
    }
}

pub proof fn lemma_sqrt_floor_props(x: int)
    requires
        x >= 0,
    ensures
        0 <= sqrt_floor(x),
        sqrt_floor(x) * sqrt_floor(x) <= x,
        x < (sqrt_floor(x) + 1) * (sqrt_floor(x) + 1),
    decreases x,
{
    if x > 0 {
        lemma_sqrt_floor_props(x - 1);
        let r0 = sqrt_floor(x - 1);
        if (r0 + 1) * (r0 + 1) <= x {
            assert(x < (r0 + 2) * (r0 + 2)) by (nonlinear_arith)
                requires
                    x - 1 < (r0 + 1) * (r0 + 1),
                    r0 >= 0,
            ;
        }
    }
}

/// `sqrt_floor` is the only value whose square brackets `x`.
pub proof fn lemma_sqrt_floor_unique(x: int, r: int)
    requires
        x >= 0,
        0 <= r,
        r * r <= x,
        x < (r + 1) * (r + 1),
    ensures
        r == sqrt_floor(x),
{
    lemma_sqrt_floor_props(x);
    let s = sqrt_floor(x);
    assert(r == s) by (nonlinear_arith)
        requires
            0 <= r,
            0 <= s,
            r * r <= x,
            x < (r + 1) * (r + 1),
            s * s <= x,
            x < (s + 1) * (s + 1),
    ;
}

/// Integer square root by bisection.
pub fn isqrt(x: i64) -> (r: i64)
    requires
        x >= 0,
    ensures
        r == sqrt_floor(x as int),
        0 <= r <= 3037000500i64,
{
    if x == 0 {
        proof {
            lemma_sqrt_floor_unique(0, 0);
        }
        return 0;
    }
    let mut lo: i64 = 0;
    let mut hi: i64 = 3037000500;
    proof {
        assert((3037000500int) * (3037000500int) > i64::MAX as int) by (nonlinear_arith);
    }
    while lo + 1 < hi
        invariant
            0 <= lo < hi <= 3037000500i64,
            (lo as int) * (lo as int) <= x as int,
            (x as int) < (hi as int) * (hi as int),
        decreases hi - lo,
    {
        let mid = lo + (hi - lo) / 2;
        proof {
            assert((mid as int) * (mid as int) <= 3037000500int * 3037000500int)
                by (nonlinear_arith)
                requires
                    0 <= mid <= 3037000500int,
            ;
        }
        let sq = (mid as i128) * (mid as i128);
        if sq <= x as i128 {
            lo = mid;
        } else {
            hi = mid;
        }
    }
    proof {
        lemma_sqrt_floor_unique(x as int, lo as int);
    }
    lo
}

/// Rational sine approximation on a half turn, scaled by `SCALE`.
pub open spec fn sin_half(x: int) -> int
    recommends
        0 <= x <= PI_MRAD,
{
    (16000 * x * (PI_MRAD - x)) / (5 * PI_MRAD * PI_MRAD - 4 * x * (PI_MRAD - x))
}

/// Sine of an angle in `[0, TAU_MRAD)`, scaled by `SCALE`.
pub open spec fn spec_sin(a: int) -> int
    recommends
        0 <= a < TAU_MRAD,
{
    if a <= PI_MRAD {
        sin_half(a)
    } else {
        -sin_half(a - PI_MRAD)
    }
}

/// Cosine of an angle in `[0, TAU_MRAD)`, scaled by `SCALE`.
pub open spec fn spec_cos(a: int) -> int
    recommends
        0 <= a < TAU_MRAD,
{
    spec_sin((a + HALF_PI_MRAD) % (TAU_MRAD as int))
}

fn sin_half_exec(x: i64) -> (r: i64)
    requires
        0 <= x <= PI_MRAD,
    ensures
        r == sin_half(x as int),
        0 <= r <= SCALE,
{
    proof {
        assert(0 <= (x as int) * (PI_MRAD - x as int) && 4 * ((x as int) * (PI_MRAD - x as int))
            <= (PI_MRAD as int) * (PI_MRAD as int)) by (nonlinear_arith)
            requires
                0 <= x <= PI_MRAD,
        ;
    }
    let p = x * (PI_MRAD - x);
    let num = 16000 * p;
    let den = 5 * PI_MRAD * PI_MRAD - 4 * p;
    proof {
        assert(16000 * (x as int) * (PI_MRAD - x as int) == 16000 * ((x as int) * (PI_MRAD
            - x as int))) by (nonlinear_arith);
        assert(4 * (x as int) * (PI_MRAD - x as int) == 4 * ((x as int) * (PI_MRAD
            - x as int))) by (nonlinear_arith);
    }
    let r = num / den;
    proof {
        assert(num as int <= 1000 * (den as int));
        lemma_div_is_ordered(num as int, 1000 * (den as int), den as int);
        lemma_div_multiples_vanish(1000, den as int);
        assert(r >= 0) by {
            vstd::arithmetic::div_mod::lemma_div_pos_is_pos(num as int, den as int);
        }
    }
    r
}

/// Sine, scaled by `SCALE`; never leaves `[-SCALE, SCALE]`.
pub fn sin_mrad(a: i64) -> (r: i64)
    requires
        0 <= a < TAU_MRAD,
    ensures
        r == spec_sin(a as int),
        -SCALE <= r <= SCALE,
{
    if a <= PI_MRAD {
        sin_half_exec(a)
    } else {
        -sin_half_exec(a - PI_MRAD)
    }
}

/// Cosine, scaled by `SCALE`; never leaves `[-SCALE, SCALE]`.
pub fn cos_mrad(a: i64) -> (r: i64)
    requires
        0 <= a < TAU_MRAD,
    ensures
        r == spec_cos(a as int),
        -SCALE <= r <= SCALE,
{
    let b = a + HALF_PI_MRAD;
    let c = if b >= TAU_MRAD {
        b - TAU_MRAD
    } else {
        b
    };
    proof {
        if b >= TAU_MRAD {
            lemma_fundamental_div_mod_converse(b as int, TAU_MRAD as int, 1, b as int
                - TAU_MRAD as int);
        } else {
            lemma_small_mod(b as nat, TAU_MRAD as nat);
        }
    }
    sin_mrad(c)
}

} // verus!
