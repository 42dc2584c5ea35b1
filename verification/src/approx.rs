//! Integer square roots and polynomial approximations of the transcendental
//! curves the engine needs: `2^x`, `log2`, decibel conversions and a
//! quarter-wave sine.  Everything is Q16.16 fixed point on `i64`.

use vstd::prelude::*;

use crate::qmath::ONE;
use crate::qmath::clip;
use crate::qmath::lemma_q_mul_bound;
use crate::qmath::lemma_q_mul_range;
use crate::qmath::lemma_tdiv_sign;
use crate::qmath::q_div;
use crate::qmath::q_mul;
use crate::qmath::spec_clip;
use crate::qmath::spec_q_div;
use crate::qmath::spec_q_mul;

verus! {

/// The integer square root: the largest `r` with `r * r <= x` (0 for
/// non-positive `x`).
pub open spec fn spec_isqrt(x: int) -> int
    decreases x,
{
    if x <= 0 {
        0
    } else {
        let r = spec_isqrt(x - 1);
        if (r + 1) * (r + 1) <= x {
            r + 1
        } else {
            r
        }
    }
}

/// `spec_isqrt` is the floor of the square root.
pub proof fn lemma_isqrt_props(x: int)
    requires
        0 <= x,
    ensures
        0 <= spec_isqrt(x),
        spec_isqrt(x) * spec_isqrt(x) <= x,
        x < (spec_isqrt(x) + 1) * (spec_isqrt(x) + 1),
    decreases x,
{
    if x == 0 {
    } else {
        lemma_isqrt_props(x - 1);
        let r = spec_isqrt(x - 1);
        if (r + 1) * (r + 1) <= x {
            assert(x <= (r + 1) * (r + 1));
            assert((r + 1 + 1) * (r + 1 + 1) > (r + 1) * (r + 1)) by (nonlinear_arith)
                requires
                    r >= 0,
            ;
        }
    }
}

/// Any `r` in the floor-square-root window is the floor square root.
pub proof fn lemma_isqrt_unique(x: int, r: int)
    requires
        0 <= r,
        r * r <= x,
        x < (r + 1) * (r + 1),
    ensures
        r == spec_isqrt(x),
{
    lemma_isqrt_props(x);
    let s = spec_isqrt(x);
    if r < s {
        assert((r + 1) * (r + 1) <= s * s) by (nonlinear_arith)
            requires
                0 <= r + 1 <= s,
        ;
    }
    if s < r {
        assert((s + 1) * (s + 1) <= r * r) by (nonlinear_arith)
            requires
                0 <= s + 1 <= r,
        ;
    }
}

/// The floor square root never exceeds a bound whose square bounds `x`.
pub proof fn lemma_isqrt_le(x: int, b: int)
    requires
        0 <= x <= b * b,
        0 <= b,
    ensures
        spec_isqrt(x) <= b,
{
    lemma_isqrt_props(x);
    let s = spec_isqrt(x);
    if b < s {
        assert((b + 1) * (b + 1) <= s * s) by (nonlinear_arith)
            requires
                0 <= b + 1 <= s,
        ;
        assert(b * b < (b + 1) * (b + 1)) by (nonlinear_arith)
            requires
                0 <= b,
        ;
    }
}

/// The floor square root of anything at least `b * b` is at least `b`.
pub proof fn lemma_isqrt_ge(x: int, b: int)
    requires
        0 <= b,
        b * b <= x,
    ensures
        b <= spec_isqrt(x),
{
    assert(0 <= b * b) by (nonlinear_arith)
        requires
            0 <= b,
    ;
    lemma_isqrt_props(x);
    let s = spec_isqrt(x);
    if s < b {
        assert((s + 1) * (s + 1) <= b * b) by (nonlinear_arith)
            requires
                0 <= s + 1 <= b,
        ;
    }
}

/// `q_sqrt` of a value at least `b * b / ONE` is at least `b`.
pub proof fn lemma_q_sqrt_ge(x: int, b: int)
    requires
        0 <= b,
        b * b <= x * (ONE as int),
    ensures
        b <= spec_q_sqrt(x),
{
    lemma_isqrt_ge(x * (ONE as int), b);
}

/// The integer square root, by binary search.
pub fn isqrt(x: i64) -> (r: i64)
    requires
        0 <= x,
    ensures
        r == spec_isqrt(x as int),
        0 <= r <= 3037000499,
        r * r <= x,
        x < (r + 1) * (r + 1),
{
    let mut lo: i64 = 0;
    let mut hi: i64 = 3037000500;
    proof {
        assert(3037000500int * 3037000500int > i64::MAX as int) by (nonlinear_arith);
    }
    while lo + 1 < hi
        invariant
            0 <= lo < hi <= 3037000500,
            lo * lo <= x,
            (x as int) < hi * hi,
        decreases hi - lo,
    {
        let mid = lo + (hi - lo) / 2;
        proof {
            assert(mid * mid < 0x8000_0000_0000_0000_0000) by (nonlinear_arith)
                requires
                    0 <= mid <= 3037000500,
            ;
        }
        let sq: i128 = (mid as i128) * (mid as i128);
        if sq <= x as i128 {
            lo = mid;
        } else {
            hi = mid;
        }
    }
    proof {
        lemma_isqrt_unique(x as int, lo as int);
    }
    lo
}

/// Largest input `q_sqrt` accepts: `x * ONE` must stay inside `i64`.
pub const QSQRT_IN_MAX: i64 = 140737488355327;

/// The Q16.16 square root: the floor of `sqrt(x * ONE)`, so that the result
/// is again in Q16.16.
pub open spec fn spec_q_sqrt(x: int) -> int {
    spec_isqrt(x * (ONE as int))
}

/// Q16.16 square root of a nonnegative value.
pub fn q_sqrt(x: i64) -> (r: i64)
    requires
        0 <= x <= QSQRT_IN_MAX,
    ensures
        r == spec_q_sqrt(x as int),
        0 <= r,
        x == 0 ==> r == 0,
{
    isqrt(x * 65536)
}

/// `q_sqrt` of a value at most `b * b / ONE` is at most `b`.
pub proof fn lemma_q_sqrt_le(x: int, b: int)
    requires
        0 <= x,
        0 <= b,
        x * (ONE as int) <= b * b,
    ensures
        spec_q_sqrt(x) <= b,
{
    lemma_isqrt_le(x * (ONE as int), b);
}

/// Cubic coefficients for `2^f - 1` on `f` in `[0, 1)`; they sum to exactly
/// `ONE`, so the curve meets 2.0 at the top of the octave.
pub const EXP2_C1: i64 = 45608;

pub const EXP2_C2: i64 = 14742;

pub const EXP2_C3: i64 = 5186;

/// The exponent range `spec_exp2` covers; anything beyond is clamped.
pub const EXP2_ARG_MAX: i64 = 1966080;

/// Largest value `spec_exp2` can return: `2 * ONE * 2^30`.
pub const EXP2_OUT_MAX: i64 = 140737488355328;

/// The fractional-octave curve: `ONE * 2^(f / ONE)` for `f` in `[0, ONE)`.
pub open spec fn spec_exp2_poly(f: int) -> int {
    (ONE as int) + spec_q_mul(
        f,
        EXP2_C1 as int + spec_q_mul(f, EXP2_C2 as int + spec_q_mul(f, EXP2_C3 as int)),
    )
}

/// `ONE * 2^(x / ONE)`: the exponent is clamped to 30 octaves either way,
/// split into whole octaves (exact shifts) and a fractional octave (cubic).
pub open spec fn spec_exp2(x: int) -> int {
    let xc = spec_clip(x, -(EXP2_ARG_MAX as int), EXP2_ARG_MAX as int);
    let n = xc / (ONE as int);
    let f = xc - n * (ONE as int);
    let p = spec_exp2_poly(f);
    if n >= 0 {
        p * (vstd::arithmetic::power2::pow2(n as nat) as int)
    } else {
        p / (vstd::arithmetic::power2::pow2((-n) as nat) as int)
    }
}

/// The fractional-octave curve stays within its octave.
pub proof fn lemma_exp2_poly_range(f: int)
    requires
        0 <= f <= ONE as int,
    ensures
        ONE as int <= spec_exp2_poly(f) <= 2 * (ONE as int),
        f == 0 ==> spec_exp2_poly(f) == ONE as int,
{
    let one = ONE as int;
    lemma_q_mul_range(f, EXP2_C3 as int, one, EXP2_C3 as int);
    let q3 = spec_q_mul(f, EXP2_C3 as int);
    lemma_q_mul_range(f, EXP2_C2 as int + q3, one, (EXP2_C2 + EXP2_C3) as int);
    let q2 = spec_q_mul(f, EXP2_C2 as int + q3);
    lemma_q_mul_range(f, EXP2_C1 as int + q2, one, one);
    if f == 0 {
        crate::qmath::lemma_q_mul_zero(EXP2_C3 as int);
        crate::qmath::lemma_q_mul_zero(EXP2_C2 as int + q3);
        crate::qmath::lemma_q_mul_zero(EXP2_C1 as int + q2);
    }
}

/// Q16.16 power of two: `exp2_q(x)` is `ONE * 2^(x / ONE)`, the exponent
/// clamped to `±EXP2_ARG_MAX`.
pub fn exp2_q(x: i64) -> (r: i64)
    ensures
        r == spec_exp2(x as int),
        0 <= r <= EXP2_OUT_MAX,
        x == 0 ==> r == ONE,
        x <= 0 ==> r <= ONE,
        x >= 0 ==> r >= ONE,
        x <= ONE ==> r <= 2 * ONE,
        x < 4 * ONE ==> r <= 16 * ONE,
{
    let xc = clip(x, -1966080, 1966080);
    let shifted = xc + 1966080;
    let n = shifted / 65536 - 30;
    proof {
        vstd::arithmetic::div_mod::lemma_hoist_over_denominator(xc as int, 30, 65536nat);
    }
    let f = xc - n * 65536;
    proof {
        vstd::arithmetic::div_mod::lemma_fundamental_div_mod(xc as int, 65536);
        vstd::arithmetic::div_mod::lemma_mod_bound(xc as int, 65536);
        vstd::arithmetic::div_mod::lemma_div_of0(65536);
        if xc >= 0 {
            vstd::arithmetic::div_mod::lemma_div_pos_is_pos(xc as int, 65536);
        } else {
            vstd::arithmetic::div_mod::lemma_div_is_ordered(xc as int, 0, 65536);
        }
    }
    let p3 = q_mul(f, 5186);
    let p2 = q_mul(f, 14742 + p3);
    let p1 = q_mul(f, 45608 + p2);
    let p = 65536 + p1;
    proof {
        lemma_exp2_poly_range(f as int);
    }
    if n >= 0 {
        let mut sc: i64 = 1;
        let mut i: i64 = 0;
        proof {
            vstd::arithmetic::power2::lemma2_to64();
        }
        while i < n
            invariant
                0 <= i <= n <= 30,
                sc == vstd::arithmetic::power2::pow2(i as nat),
                1 <= sc,
            decreases n - i,
        {
            proof {
                vstd::arithmetic::power2::lemma2_to64();
                if i < 30 {
                    vstd::arithmetic::power2::lemma_pow2_strictly_increases(i as nat, 30nat);
                }
                vstd::arithmetic::power2::lemma_pow2_unfold((i + 1) as nat);
            }
            sc = sc * 2;
            i = i + 1;
        }
        proof {
            vstd::arithmetic::power2::lemma2_to64();
            if (n as nat) < 30 {
                vstd::arithmetic::power2::lemma_pow2_strictly_increases(n as nat, 30nat);
            }
            crate::qmath::lemma_mul_bound(p as int, sc as int, 131072, 1073741824);
            assert(p * sc >= 65536 * 1) by (nonlinear_arith)
                requires
                    p >= 65536,
                    sc >= 1,
            ;
            if xc <= 65536 {
                vstd::arithmetic::div_mod::lemma_div_is_ordered(xc as int, 65536, 65536);
                vstd::arithmetic::div_mod::lemma_div_multiples_vanish(1, 65536);
                assert(n <= 1);
                assert((p as int) * (sc as int) <= 131072) by (nonlinear_arith)
                    requires
                        0 <= n <= 1,
                        (n == 0 ==> sc == 1) && (n == 1 ==> sc == 2),
                        (n == 1 ==> p as int == 65536) && p <= 131072,
                        1 <= sc,
                ;
            }
            if xc < 262144 {
                vstd::arithmetic::div_mod::lemma_div_is_ordered(xc as int, 262143, 65536);
                assert(262143int / 65536 == 3) by {
                    vstd::arithmetic::div_mod::lemma_fundamental_div_mod_converse(
                        262143,
                        65536,
                        3,
                        65535,
                    );
                }
                assert(n <= 3);
                if n < 3 {
                    vstd::arithmetic::power2::lemma_pow2_strictly_increases(n as nat, 3nat);
                }
                assert((p as int) * (sc as int) <= 1048576) by (nonlinear_arith)
                    requires
                        0 <= p <= 131072,
                        0 <= sc <= 8,
                ;
            }
        }
        p * sc
    } else {
        let m = -n;
        let mut sc: i64 = 1;
        let mut i: i64 = 0;
        proof {
            vstd::arithmetic::power2::lemma2_to64();
        }
        while i < m
            invariant
                0 <= i <= m <= 30,
                sc == vstd::arithmetic::power2::pow2(i as nat),
                1 <= sc,
            decreases m - i,
        {
            proof {
                vstd::arithmetic::power2::lemma2_to64();
                if i < 30 {
                    vstd::arithmetic::power2::lemma_pow2_strictly_increases(i as nat, 30nat);
                }
                vstd::arithmetic::power2::lemma_pow2_unfold((i + 1) as nat);
            }
            sc = sc * 2;
            i = i + 1;
        }
        let r = p / sc;
        proof {
            vstd::arithmetic::power2::lemma2_to64();
            if (m as nat) < 30 {
                vstd::arithmetic::power2::lemma_pow2_strictly_increases(m as nat, 30nat);
            }
            vstd::arithmetic::power2::lemma_pow2_strictly_increases(0nat, m as nat);
            vstd::arithmetic::div_mod::lemma_div_pos_is_pos(p as int, sc as int);
            vstd::arithmetic::div_mod::lemma_div_is_ordered(p as int, 2 * (ONE as int), sc as int);
            assert(2 * (ONE as int) / (sc as int) <= ONE as int) by {
                vstd::arithmetic::div_mod::lemma_div_is_ordered_by_denominator(
                    2 * (ONE as int),
                    2,
                    sc as int,
                );
            }
        }
        r
    }
}

/// Cubic coefficients for `log2(1 + t)` on `t` in `[0, 1]`; they sum to
/// exactly `ONE`, so the curve meets 1.0 at the top of the octave.
pub const LOG2_D1: i64 = 93118;

pub const LOG2_D2: i64 = -37831;

pub const LOG2_D3: i64 = 10249;

/// Largest input `spec_log2` distinguishes (`32767 * ONE`); anything larger
/// is clamped to it, anything below 1 is clamped to 1.
pub const LOG2_IN_MAX: i64 = 2147418112;

/// The in-octave curve: `ONE * log2(1 + t / ONE)` for `t` in `[0, ONE)`.
pub open spec fn spec_log2_poly(t: int) -> int {
    spec_q_mul(
        t,
        LOG2_D1 as int + spec_q_mul(t, LOG2_D2 as int + spec_q_mul(t, LOG2_D3 as int)),
    )
}

/// Normalization upward: double the mantissa into `[ONE, ..)`, counting
/// octaves down.
pub open spec fn spec_norm_up(m: int, e: int) -> (int, int)
    decreases 2 * (ONE as int) - m when 1 <= m
{
    if m >= ONE as int {
        (m, e)
    } else {
        spec_norm_up(2 * m, e - 1)
    }
}

/// Normalization downward: halve the mantissa into `[.., 2 * ONE)`, counting
/// octaves up.
pub open spec fn spec_norm_down(m: int, e: int) -> (int, int)
    decreases m,
{
    if m < 2 * (ONE as int) {
        (m, e)
    } else {
        spec_norm_down(m / 2, e + 1)
    }
}

/// `ONE * log2(x / ONE)`, the input clamped to `[1, LOG2_IN_MAX]`: normalize
/// to a mantissa within one octave, then apply the in-octave cubic.
pub open spec fn spec_log2(x: int) -> int {
    let xc = spec_clip(x, 1, LOG2_IN_MAX as int);
    let up = spec_norm_up(xc, 0);
    let me = spec_norm_down(up.0, up.1);
    me.1 * (ONE as int) + spec_log2_poly(me.0 - (ONE as int))
}

/// The in-octave curve is small and nonnegative.
pub proof fn lemma_log2_poly_range(t: int)
    requires
        0 <= t <= ONE as int,
    ensures
        0 <= spec_log2_poly(t) <= 93118,
        t == 0 ==> spec_log2_poly(t) == 0,
{
    let one = ONE as int;
    lemma_q_mul_range(t, LOG2_D3 as int, one, LOG2_D3 as int);
    let p3 = spec_q_mul(t, LOG2_D3 as int);
    let inner2 = LOG2_D2 as int + p3;
    crate::qmath::lemma_q_mul_bound(t, inner2, one, 37831);
    crate::qmath::lemma_q_mul_sign(t, inner2);
    let p2 = spec_q_mul(t, inner2);
    let inner1 = LOG2_D1 as int + p2;
    lemma_q_mul_range(t, inner1, one, 93118);
    if t == 0 {
        crate::qmath::lemma_q_mul_zero(LOG2_D3 as int);
        crate::qmath::lemma_q_mul_zero(inner2);
        crate::qmath::lemma_q_mul_zero(inner1);
    }
}

/// Q16.16 base-two logarithm of `x` in `[1, LOG2_IN_MAX]`.
pub fn log2_q(x: i64) -> (r: i64)
    requires
        1 <= x <= LOG2_IN_MAX,
    ensures
        r == spec_log2(x as int),
        -1048576 <= r <= 1076158,
        x == ONE ==> r == 0,
{
    let mut m = x;
    let mut e: i64 = 0;
    proof {
        vstd::arithmetic::power2::lemma2_to64();
        assert(x as int * (vstd::arithmetic::power2::pow2(0nat) as int) == x as int)
            by (nonlinear_arith)
            requires
                vstd::arithmetic::power2::pow2(0nat) == 1,
        ;
    }
    while m < 65536
        invariant
            1 <= x <= LOG2_IN_MAX,
            1 <= m <= LOG2_IN_MAX,
            -16 <= e <= 0,
            m == x * (vstd::arithmetic::power2::pow2((-e) as nat) as int),
            spec_norm_up(x as int, 0) == spec_norm_up(m as int, e as int),
        decreases 131072 - m,
    {
        proof {
            vstd::arithmetic::power2::lemma2_to64();
            let k = (-e) as nat;
            let p2 = vstd::arithmetic::power2::pow2(k) as int;
            assert(1 * p2 <= x * p2) by (nonlinear_arith)
                requires
                    1 <= x,
                    0 <= p2,
            ;
            if k >= 16 {
                if k > 16 {
                    vstd::arithmetic::power2::lemma_pow2_strictly_increases(16nat, k);
                }
                assert(false);
            }
            vstd::arithmetic::power2::lemma_pow2_unfold((k + 1) as nat);
            assert(2 * (x * p2) == x * (2 * p2)) by (nonlinear_arith);
            assert(spec_norm_up(m as int, e as int) == spec_norm_up(
                2 * (m as int),
                (e as int) - 1,
            ));
        }
        m = m * 2;
        e = e - 1;
    }
    proof {
        assert(spec_norm_up(m as int, e as int) == (m as int, e as int));
    }
    let ghost m1 = m as int;
    let ghost e1 = e as int;
    proof {
        vstd::arithmetic::power2::lemma2_to64();
        assert(m1 * (vstd::arithmetic::power2::pow2(0) as int) == m1) by (nonlinear_arith)
            requires
                vstd::arithmetic::power2::pow2(0) == 1,
        ;
    }
    while m >= 131072
        invariant
            65536 <= m <= LOG2_IN_MAX,
            e1 <= e <= e1 + 15,
            -16 <= e1 <= 0,
            65536 <= m1 <= LOG2_IN_MAX,
            m * (vstd::arithmetic::power2::pow2((e - e1) as nat) as int) <= m1,
            spec_norm_down(m1, e1) == spec_norm_down(m as int, e as int),
        decreases m,
    {
        proof {
            vstd::arithmetic::power2::lemma2_to64();
            let k = (e - e1) as nat;
            let p2 = vstd::arithmetic::power2::pow2(k) as int;
            vstd::arithmetic::div_mod::lemma_fundamental_div_mod(m as int, 2);
            vstd::arithmetic::div_mod::lemma_mod_bound(m as int, 2);
            vstd::arithmetic::power2::lemma_pow2_unfold((k + 1) as nat);
            let h = (m as int) / 2;
            assert(h * (2 * p2) == (h * 2) * p2) by (nonlinear_arith);
            assert((h * 2) * p2 <= (m as int) * p2) by (nonlinear_arith)
                requires
                    h * 2 <= m as int,
                    0 <= p2,
            ;
            if e >= e1 + 15 {
                let pk = vstd::arithmetic::power2::pow2(15nat) as int;
                if k > 15 {
                    vstd::arithmetic::power2::lemma_pow2_strictly_increases(15nat, k);
                }
                assert(65536 * pk <= (m as int) * p2) by (nonlinear_arith)
                    requires
                        65536 <= m as int,
                        0 <= pk <= p2,
                ;
                assert(false);
            }
            assert(spec_norm_down(m as int, e as int) == spec_norm_down(
                (m as int) / 2,
                (e as int) + 1,
            ));
        }
        m = m / 2;
        e = e + 1;
    }
    proof {
        assert(spec_norm_down(m as int, e as int) == (m as int, e as int));
    }
    let t = m - 65536;
    let p3 = q_mul(t, 10249);
    let p2 = q_mul(t, -37831 + p3);
    let p1 = q_mul(t, 93118 + p2);
    proof {
        lemma_log2_poly_range(t as int);
    }
    e * 65536 + p1
}

/// -100 dB in Q16.16: the floor `gain_to_db` reports for a silent signal.
pub const DB_MIN: i64 = -6553600;

/// `20 * log10(2)` in Q16.16: decibels per octave.
pub const K_DB_PER_OCT: i64 = 394566;

/// `log2(10) / 20` in Q16.16: octaves per decibel.
pub const K_OCT_PER_DB: i64 = 10885;

/// `log2(e)` in Q16.16.
pub const LOG2_E: i64 = 94548;

/// Q16.16 decibels of a linear gain: `20 * log10(g / ONE)`, with `DB_MIN`
/// for anything at or below zero gain.
#[verifier::opaque]
pub open spec fn spec_gain_to_db(g: int) -> int {
    if g < 1 {
        DB_MIN as int
    } else {
        spec_q_mul(spec_log2(g), K_DB_PER_OCT as int)
    }
}

/// Decibels of a linear Q16.16 gain.
pub fn gain_to_db(g: i64) -> (r: i64)
    ensures
        r == spec_gain_to_db(g as int),
        g < 1 ==> r == DB_MIN,
        g == ONE ==> r == 0,
        DB_MIN <= r <= 6707622,
{
    proof {
        reveal(crate::approx::spec_gain_to_db);
    }
    if g < 1 {
        return -6553600;
    }
    proof {
        reveal(crate::approx::spec_gain_to_db);
    }
    let gc = if g > 2147418112 {
        2147418112
    } else {
        g
    };
    let l = log2_q(gc);
    let r = q_mul(l, 394566);
    proof {
        crate::qmath::lemma_mul_bound(l as int, 394566, 1114112, 394566);
        assert(1114112 * 394566 == 6707622 * 65536) by (nonlinear_arith);
        crate::qmath::lemma_tdiv_bound((l as int) * 394566, 65536, 6707622);
        if l < 0 {
            crate::qmath::lemma_mul_bound(l as int, 394566, 1048576, 394566);
            assert(1048576 * 394566 == 6313056 * 65536) by (nonlinear_arith);
            crate::qmath::lemma_tdiv_bound((l as int) * 394566, 65536, 6313056);
        } else {
            crate::qmath::lemma_tdiv_sign((l as int) * 394566, 65536);
            assert((l as int) * 394566 >= 0) by (nonlinear_arith)
                requires
                    l >= 0,
            ;
        }
        if g as int == ONE as int {
            crate::qmath::lemma_q_mul_zero(394566);
        }
    }
    r
}

/// Q16.16 linear gain of a decibel value: `ONE * 10^(db / (20 * ONE))`,
/// floored at the smallest positive fixed-point gain so that a finite
/// attenuation never collapses to exactly zero.
#[verifier::opaque]
pub open spec fn spec_db_to_gain(db: int) -> int {
    let g = spec_exp2(spec_q_mul(db, K_OCT_PER_DB as int));
    if g < 1 {
        1
    } else {
        g
    }
}

/// Linear gain of a Q16.16 decibel value.
pub fn db_to_gain(db: i64) -> (r: i64)
    ensures
        r == spec_db_to_gain(db as int),
        db == 0 ==> r == ONE,
        db <= 0 ==> 1 <= r <= ONE,
        db >= 0 ==> ONE <= r <= EXP2_OUT_MAX,
        1 <= r <= EXP2_OUT_MAX,
        db <= 1572864 ==> r <= 1048576,
{
    let e = q_mul(db, 10885);
    proof {
        reveal(crate::approx::spec_db_to_gain);
        crate::qmath::lemma_q_mul_sign(db as int, 10885);
        if db == 0 {
            crate::qmath::lemma_q_mul_zero(10885);
        }
        if 0 <= db && db <= 1572864 {
            crate::qmath::lemma_mul_bound(db as int, 10885, 1572864, 10885);
            assert(1572864 * 10885 == 261240 * 65536) by (nonlinear_arith);
            crate::qmath::lemma_tdiv_bound((db as int) * 10885, 65536, 261240);
        }
    }
    let g = exp2_q(e);
    if g < 1 {
        1
    } else {
        g
    }
}

/// Quintic coefficients of the quarter-wave sine.
pub const SIN_A: i64 = 102944;

pub const SIN_B: i64 = 42334;

pub const SIN_C: i64 = 5223;

pub const SIN_D: i64 = 307;

/// `ONE * sin(u * pi / 2)` for `u` in `[0, ONE]`, exact at both endpoints
/// and clamped into `[0, ONE]` between them.
pub open spec fn spec_sin_half_pi(u: int) -> int {
    if u <= 0 {
        0
    } else if u >= ONE as int {
        ONE as int
    } else {
        let u2 = spec_q_mul(u, u);
        let p = SIN_A as int - spec_q_mul(
            u2,
            SIN_B as int - spec_q_mul(u2, SIN_C as int - spec_q_mul(u2, SIN_D as int)),
        );
        spec_clip(spec_q_mul(u, p), 0, ONE as int)
    }
}

/// Quarter-wave sine: `sin(u * pi / 2)` in Q16.16.
pub fn sin_half_pi(u: i64) -> (r: i64)
    ensures
        r == spec_sin_half_pi(u as int),
        0 <= r <= ONE,
        u <= 0 ==> r == 0,
        u >= ONE ==> r == ONE,
{
    if u <= 0 {
        return 0;
    }
    if u >= 65536 {
        return 65536;
    }
    let u2 = q_mul(u, u);
    let p = 102944 - q_mul(u2, 42334 - q_mul(u2, 5223 - q_mul(u2, 307)));
    clip(q_mul(u, p), 0, 65536)
}

/// Quarter-wave cosine: `cos(u * pi / 2)` in Q16.16, by reflection.
pub open spec fn spec_cos_half_pi(u: int) -> int {
    spec_sin_half_pi((ONE as int) - u)
}

/// Quarter-wave cosine in Q16.16 for `u` in `[0, ONE]`.
pub fn cos_half_pi(u: i64) -> (r: i64)
    requires
        0 <= u <= ONE,
    ensures
        r == spec_cos_half_pi(u as int),
        0 <= r <= ONE,
        u == 0 ==> r == ONE,
        u == ONE ==> r == 0,
{
    sin_half_pi(65536 - u)
}

/// The one-pole smoothing coefficient for a time constant of `t / ONE`
/// samples: `1 - e^(-1 / t)` in Q16.16, floored at the smallest positive
/// step so a smoother always makes progress, and 1.0 for a time constant
/// under one sample.
#[verifier::opaque]
pub open spec fn spec_alpha(t: int) -> int {
    if t < ONE as int {
        ONE as int
    } else {
        spec_clip((ONE as int) - spec_exp2(-spec_q_div(LOG2_E as int, t)), 1, ONE as int)
    }
}

/// One-pole smoothing coefficient from a Q16.16 time constant in samples.
pub fn alpha_from_samples(t: i64) -> (r: i64)
    ensures
        r == spec_alpha(t as int),
        1 <= r <= ONE,
{
    proof {
        reveal(crate::approx::spec_alpha);
    }
    if t < 65536 {
        return 65536;
    }
    let e = q_div(94548, t);
    proof {
        crate::qmath::lemma_tdiv_sign(94548 * (ONE as int), t as int);
    }
    let g = exp2_q(-e);
    clip(65536 - g, 1, 65536)
}

} // verus!
