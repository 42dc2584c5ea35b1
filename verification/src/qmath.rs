//! Fixed-point arithmetic for the audio engine.
//!
//! Every signal, gain and coefficient in this crate is a Q16.16 fixed-point
//! number: an `i64` holding the real value times `ONE` (65536).  Products are
//! formed in `i128`, scaled back by `ONE` with truncation toward zero, and
//! clamped to `±QCAP` so that no operation can overflow.  Truncation toward
//! zero (rather than flooring) keeps every operation odd-symmetric, which the
//! saturator's odd-symmetry law depends on.

use vstd::prelude::*;

verus! {

/// The fixed-point unit: 1.0 in Q16.16.
pub const ONE: i64 = 65536;

/// Magnitude cap for fixed-point results (2^62); far above any value the
/// engine produces, it only serves to make every operation total.
pub const QCAP: i64 = 4611686018427387904;

/// Truncating division (toward zero), the semantics of Rust's `/` on
/// integers, expressed over mathematical integers.
pub open spec fn tdiv(a: int, b: int) -> int {
    if a >= 0 {
        a / b
    } else {
        -((-a) / b)
    }
}

/// Clamping to a closed interval.
pub open spec fn spec_clip(x: int, lo: int, hi: int) -> int {
    if x < lo {
        lo
    } else if x > hi {
        hi
    } else {
        x
    }
}

/// The Q16.16 product: truncate `a * b / 2^16` toward zero, then clamp.
pub open spec fn spec_q_mul(a: int, b: int) -> int {
    spec_clip(tdiv(a * b, ONE as int), -(QCAP as int), QCAP as int)
}

/// The Q16.16 quotient: truncate `a * 2^16 / b` toward zero, then clamp.
/// A non-positive divisor yields 0; the engine never divides by one.
pub open spec fn spec_q_div(a: int, b: int) -> int {
    if b <= 0 {
        0
    } else {
        spec_clip(tdiv(a * (ONE as int), b), -(QCAP as int), QCAP as int)
    }
}

pub proof fn lemma_mul_bound(a: int, b: int, ma: int, mb: int)
    by (nonlinear_arith)
    requires
        -ma <= a <= ma,
        -mb <= b <= mb,
        0 <= ma,
        0 <= mb,
    ensures
        -(ma * mb) <= a * b <= ma * mb,
{
}

/// For a positive divisor, the quotient of a bounded nonnegative dividend is
/// bounded by the quotient of the bound.
proof fn lemma_div_le(p: int, q: int, d: int)
    requires
        0 <= p <= q,
        0 < d,
    ensures
        0 <= p / d <= q / d,
{
    vstd::arithmetic::div_mod::lemma_div_is_ordered(p, q, d);
    vstd::arithmetic::div_mod::lemma_div_pos_is_pos(p, d);
}

/// Truncating division shrinks magnitude: `|tdiv(p, d)| <= B` whenever
/// `|p| <= B * d`.
pub proof fn lemma_tdiv_bound(p: int, d: int, b: int)
    requires
        0 < d,
        0 <= b,
        -(b * d) <= p <= b * d,
    ensures
        -b <= tdiv(p, d) <= b,
{
    vstd::arithmetic::div_mod::lemma_div_multiples_vanish(b, d);
    assert(b * d == d * b) by (nonlinear_arith);
    if p >= 0 {
        lemma_div_le(p, b * d, d);
    } else {
        lemma_div_le(-p, b * d, d);
    }
}

/// Truncating division is odd in its dividend.
pub proof fn lemma_tdiv_odd(p: int, d: int)
    requires
        0 < d,
    ensures
        tdiv(-p, d) == -tdiv(p, d),
{
    if p == 0 {
        vstd::arithmetic::div_mod::lemma_div_of0(d);
    }
}

/// Dividing an exact multiple recovers the factor.
pub proof fn lemma_tdiv_exact(a: int, d: int)
    requires
        0 < d,
    ensures
        tdiv(a * d, d) == a,
{
    vstd::arithmetic::div_mod::lemma_div_multiples_vanish(a, d);
    assert(a * d == d * a) by (nonlinear_arith);
    if a * d < 0 {
        assert(-(a * d) == (-a) * d) by (nonlinear_arith);
        vstd::arithmetic::div_mod::lemma_div_multiples_vanish(-a, d);
        assert((-a) * d == d * (-a)) by (nonlinear_arith);
    }
}

/// Truncating division keeps the dividend's sign (weakly).
pub proof fn lemma_tdiv_sign(p: int, d: int)
    requires
        0 < d,
    ensures
        p >= 0 ==> tdiv(p, d) >= 0,
        p <= 0 ==> tdiv(p, d) <= 0,
        tdiv(0, d) == 0,
{
    vstd::arithmetic::div_mod::lemma_div_of0(d);
    if p > 0 {
        vstd::arithmetic::div_mod::lemma_div_pos_is_pos(p, d);
    }
    if p < 0 {
        vstd::arithmetic::div_mod::lemma_div_pos_is_pos(-p, d);
    }
}

/// A bound on the Q16.16 product from bounds on its factors.
pub proof fn lemma_q_mul_bound(a: int, b: int, ma: int, mb: int)
    requires
        -ma <= a <= ma,
        -mb <= b <= mb,
        0 <= ma,
        0 <= mb,
    ensures
        -((ma * mb) / (ONE as int)) <= spec_q_mul(a, b) <= (ma * mb) / (ONE as int),
{
    lemma_mul_bound(a, b, ma, mb);
    let c = (ma * mb) / (ONE as int);
    vstd::arithmetic::div_mod::lemma_div_pos_is_pos(ma * mb, ONE as int);
    if a * b >= 0 {
        lemma_div_le(a * b, ma * mb, ONE as int);
    } else {
        lemma_div_le(-(a * b), ma * mb, ONE as int);
    }
}

/// A zero factor gives a zero Q16.16 product.
pub proof fn lemma_q_mul_zero(b: int)
    ensures
        spec_q_mul(0, b) == 0,
        spec_q_mul(b, 0) == 0,
{
    assert(0 * b == 0) by (nonlinear_arith);
    assert(b * 0 == 0) by (nonlinear_arith);
    lemma_tdiv_sign(0, ONE as int);
}

/// A range for the Q16.16 product of nonnegative factors.
pub proof fn lemma_q_mul_range(a: int, b: int, ma: int, mb: int)
    requires
        0 <= a <= ma,
        0 <= b <= mb,
    ensures
        0 <= spec_q_mul(a, b) <= (ma * mb) / (ONE as int),
{
    lemma_q_mul_bound(a, b, ma, mb);
    assert(a * b >= 0) by (nonlinear_arith)
        requires
            a >= 0,
            b >= 0,
    ;
    lemma_tdiv_sign(a * b, ONE as int);
}

/// The sign of a Q16.16 product follows the signs of its factors.
pub proof fn lemma_q_mul_sign(a: int, b: int)
    ensures
        a >= 0 && b >= 0 ==> spec_q_mul(a, b) >= 0,
        a <= 0 && b >= 0 ==> spec_q_mul(a, b) <= 0,
        a >= 0 && b <= 0 ==> spec_q_mul(a, b) <= 0,
        a <= 0 && b <= 0 ==> spec_q_mul(a, b) >= 0,
{
    assert(a >= 0 && b >= 0 ==> a * b >= 0) by (nonlinear_arith);
    assert(a <= 0 && b >= 0 ==> a * b <= 0) by (nonlinear_arith);
    assert(a >= 0 && b <= 0 ==> a * b <= 0) by (nonlinear_arith);
    assert(a <= 0 && b <= 0 ==> a * b >= 0) by (nonlinear_arith);
    lemma_tdiv_sign(a * b, ONE as int);
}

/// A lower bound for truncating division of a nonnegative dividend.
pub proof fn lemma_tdiv_ge(p: int, d: int, c: int)
    requires
        0 < d,
        0 <= c,
        c * d <= p,
    ensures
        c <= tdiv(p, d),
{
    assert(0 <= c * d) by (nonlinear_arith)
        requires
            0 <= c,
            0 < d,
    ;
    vstd::arithmetic::div_mod::lemma_div_is_ordered(c * d, p, d);
    vstd::arithmetic::div_mod::lemma_div_multiples_vanish(c, d);
    assert(c * d == d * c) by (nonlinear_arith);
}

/// Negating a factor negates the Q16.16 product.
pub proof fn lemma_q_mul_neg(a: int, b: int)
    ensures
        spec_q_mul(-a, b) == -spec_q_mul(a, b),
        spec_q_mul(a, -b) == -spec_q_mul(a, b),
{
    assert((-a) * b == -(a * b)) by (nonlinear_arith);
    assert(a * (-b) == -(a * b)) by (nonlinear_arith);
    lemma_tdiv_odd(a * b, ONE as int);
}

/// Scaling by `ONE` and dividing by `ONE` cancel exactly.
pub proof fn lemma_div_mul_cancel(c: int)
    ensures
        (c * (ONE as int)) / (ONE as int) == c,
{
    vstd::arithmetic::div_mod::lemma_div_multiples_vanish(c, ONE as int);
    assert(c * (ONE as int) == (ONE as int) * c) by (nonlinear_arith);
}

/// Dividing by at least `ONE` in Q16.16 cannot grow a value's magnitude.
pub proof fn lemma_q_div_shrink(a: int, b: int, ma: int)
    requires
        ONE as int <= b,
        -ma <= a <= ma,
        0 <= ma,
    ensures
        -ma <= spec_q_div(a, b) <= ma,
{
    assert(-(ma * b) <= a * 65536 <= ma * b) by (nonlinear_arith)
        requires
            -ma <= a <= ma,
            0 <= ma,
            65536 <= b,
    ;
    assert(a * (ONE as int) == a * 65536);
    lemma_tdiv_bound(a * (ONE as int), b, ma);
}

/// Clamp `x` into `[lo, hi]`.
pub fn clip(x: i64, lo: i64, hi: i64) -> (r: i64)
    requires
        lo <= hi,
    ensures
        r == spec_clip(x as int, lo as int, hi as int),
        lo <= r <= hi,
{
    if x < lo {
        lo
    } else if x > hi {
        hi
    } else {
        x
    }
}

/// Q16.16 multiplication, total: the scaled product truncated toward zero,
/// clamped to `±QCAP`.
pub fn q_mul(a: i64, b: i64) -> (r: i64)
    ensures
        r == spec_q_mul(a as int, b as int),
        -QCAP <= r <= QCAP,
{
    proof {
        lemma_mul_bound(
            a as int,
            b as int,
            0x8000_0000_0000_0000,
            0x8000_0000_0000_0000,
        );
    }
    let p: i128 = (a as i128) * (b as i128);
    let q: i128 = p / 65536;
    let r: i128 = if q < -(QCAP as i128) {
        -(QCAP as i128)
    } else if q > QCAP as i128 {
        QCAP as i128
    } else {
        q
    };
    r as i64
}

/// Q16.16 division, total: `a / b` in fixed point for `b > 0`, clamped to
/// `±QCAP`; 0 for a non-positive divisor.
pub fn q_div(a: i64, b: i64) -> (r: i64)
    ensures
        r == spec_q_div(a as int, b as int),
        -QCAP <= r <= QCAP,
{
    if b <= 0 {
        return 0;
    }
    proof {
        lemma_mul_bound(a as int, ONE as int, 0x8000_0000_0000_0000, ONE as int);
    }
    let p: i128 = (a as i128) * 65536;
    let q: i128 = p / (b as i128);
    let r: i128 = if q < -(QCAP as i128) {
        -(QCAP as i128)
    } else if q > QCAP as i128 {
        QCAP as i128
    } else {
        q
    };
    r as i64
}

} // verus!
