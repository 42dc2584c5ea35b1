//! The macro-control formulas of the engine: tilt-shifted crossover
//! frequencies, the cubic saturator, the soft-knee gain computer and the
//! dynamic attack/release time constants.  Everything is Q16.16 fixed point;
//! Amount lives in `[0, ONE]` and Tilt in `[-ONE, ONE]`.

use vstd::prelude::*;

use crate::approx::db_to_gain;
use crate::approx::exp2_q;
use crate::approx::gain_to_db;
use crate::approx::lemma_q_sqrt_ge;
use crate::approx::lemma_q_sqrt_le;
use crate::approx::q_sqrt;
use crate::approx::spec_db_to_gain;
use crate::approx::spec_exp2;
use crate::approx::spec_gain_to_db;
use crate::approx::spec_q_sqrt;
use crate::qmath::ONE;
use crate::qmath::clip;
use crate::qmath::lemma_mul_bound;
use crate::qmath::lemma_q_mul_bound;
use crate::qmath::lemma_q_mul_neg;
use crate::qmath::lemma_q_mul_range;
use crate::qmath::lemma_q_mul_sign;
use crate::qmath::lemma_q_mul_zero;
use crate::qmath::lemma_tdiv_sign;
use crate::qmath::q_mul;
use crate::qmath::spec_clip;
use crate::qmath::spec_q_mul;
use crate::qmath::tdiv;

verus! {

/// How many bands the engine splits the spectrum into.
pub const MAX_BANDS: usize = 5;

/// Tilt at full deflection moves every crossover by four semitones (Q16.16).
pub const TILT_MAX_SHIFT_SEMITONES: i64 = 262144;

/// Ceiling of the reactive EQ's boost: 6 dB in Q16.16.
pub const MAX_COMPENSATION_DB: i64 = 393216;

/// Widest compressor knee, reached at full Amount: 8 dB in Q16.16.
pub const KNEE_MAX_DB: i64 = 524288;

/// Largest sample magnitude the saturator accepts: 2048.0 in Q16.16.
pub const SAT_IN_MAX: i64 = 134217728;

/// Largest frequency the engine handles: 2^24 Hz in Q16.16.
pub const FREQ_MAX: i64 = 1099511627776;

/// `a^(3/2)` for `a` in `[0, ONE]`.
pub open spec fn spec_pow15(a: int) -> int {
    spec_q_mul(a, spec_q_sqrt(a))
}

/// `a^(5/2)` for `a` in `[0, ONE]`.
pub open spec fn spec_pow25(a: int) -> int {
    spec_q_mul(spec_q_mul(a, a), spec_q_sqrt(a))
}

/// `a^(3/4)` for `a` in `[0, ONE]`: the square root of `a^(3/2)`.
pub open spec fn spec_pow075(a: int) -> int {
    spec_q_sqrt(spec_pow15(a))
}

/// `a^(3/2)` in Q16.16.
fn pow15(a: i64) -> (r: i64)
    requires
        0 <= a <= ONE,
    ensures
        r == spec_pow15(a as int),
        0 <= r <= ONE,
        a == 0 ==> r == 0,
{
    let s = q_sqrt(a);
    proof {
        lemma_q_sqrt_le(a as int, ONE as int);
        lemma_q_mul_range(a as int, spec_q_sqrt(a as int), ONE as int, ONE as int);
        crate::qmath::lemma_div_mul_cancel(ONE as int);
        if a == 0 {
            lemma_q_mul_zero(0);
        }
    }
    q_mul(a, s)
}

/// `a^(5/2)` in Q16.16.
fn pow25(a: i64) -> (r: i64)
    requires
        0 <= a <= ONE,
    ensures
        r == spec_pow25(a as int),
        0 <= r <= ONE,
{
    let s = q_sqrt(a);
    let a2 = q_mul(a, a);
    proof {
        lemma_q_sqrt_le(a as int, ONE as int);
        lemma_q_mul_range(a as int, a as int, ONE as int, ONE as int);
        crate::qmath::lemma_div_mul_cancel(ONE as int);
        lemma_q_mul_range(a2 as int, spec_q_sqrt(a as int), ONE as int, ONE as int);
    }
    q_mul(a2, s)
}

/// `a^(3/4)` in Q16.16.
fn pow075(a: i64) -> (r: i64)
    requires
        0 <= a <= ONE,
    ensures
        r == spec_pow075(a as int),
        0 <= r <= ONE,
{
    let p = pow15(a);
    proof {
        lemma_q_sqrt_le(p as int, ONE as int);
    }
    q_sqrt(p)
}

/// A frequency shifted by `tilt * 4` semitones: `base * 2^(tilt / 3)`.
#[verifier::opaque]
pub open spec fn spec_shift_frequency(base: int, tilt: int) -> int {
    spec_q_mul(base, spec_exp2(tdiv(4 * tilt, 12)))
}

/// Shifts `base_freq` (Q16.16 Hz) by `tilt * TILT_MAX_SHIFT_SEMITONES`
/// semitones: up a third of an octave at full positive tilt, down a third at
/// full negative tilt, and exactly `base_freq` at zero.
pub fn shift_frequency(base_freq: i64, tilt: i64) -> (r: i64)
    requires
        0 <= base_freq <= FREQ_MAX,
        -ONE <= tilt <= ONE,
    ensures
        r == spec_shift_frequency(base_freq as int, tilt as int),
        0 <= r <= 2 * base_freq,
        tilt == 0 ==> r == base_freq,
{
    proof {
        reveal(crate::dsp::spec_shift_frequency);
    }
    let oct = (4 * tilt) / 12;
    let sc = exp2_q(oct);
    proof {
        lemma_tdiv_sign(4 * (tilt as int), 12);
        crate::qmath::lemma_tdiv_bound(4 * (tilt as int), 12, 21846);
        lemma_q_mul_range(base_freq as int, sc as int, base_freq as int, 131072);
        assert((base_freq as int) * 131072 == (2 * (base_freq as int)) * 65536)
            by (nonlinear_arith);
        crate::qmath::lemma_div_mul_cancel(2 * (base_freq as int));
        if tilt == 0 {
            crate::qmath::lemma_tdiv_exact(base_freq as int, ONE as int);
        }
    }
    q_mul(base_freq, sc)
}

/// The cubic saturator: a drive of `amount * 0.9 + 0.1` pushes the sample
/// into `drive * x - (drive^2 / 3) * x^3`, a final stage scales by
/// `1 - amount * 0.3` and clamps into `[-1, 1]`.
pub open spec fn spec_saturate(x: int, amount: int) -> int {
    let drive = spec_q_mul(amount, 58982) + 6554;
    let x3 = spec_q_mul(spec_q_mul(x, x), x);
    let d23 = tdiv(spec_q_mul(drive, drive), 3);
    let core = spec_q_mul(drive, x) - spec_q_mul(d23, x3);
    spec_clip(spec_q_mul(core, (ONE as int) - spec_q_mul(amount, 19661)), -(ONE as int), ONE as int)
}

/// The saturator is odd-symmetric in its sample for every drive setting:
/// flipping the sign of the input flips the sign of the output exactly.
pub proof fn lemma_saturate_odd(x: int, amount: int)
    ensures
        spec_saturate(-x, amount) == -spec_saturate(x, amount),
{
    let drive = spec_q_mul(amount, 58982) + 6554;
    let d23 = tdiv(spec_q_mul(drive, drive), 3);
    lemma_q_mul_neg(x, -x);
    lemma_q_mul_neg(x, x);
    let x2 = spec_q_mul(x, x);
    lemma_q_mul_neg(x2, x);
    let x3 = spec_q_mul(x2, x);
    lemma_q_mul_neg(drive, x);
    lemma_q_mul_neg(d23, x3);
    let core = spec_q_mul(drive, x) - spec_q_mul(d23, x3);
    lemma_q_mul_neg(core, (ONE as int) - spec_q_mul(amount, 19661));
}

/// Saturating silence yields silence, at every drive setting.
pub proof fn lemma_saturate_zero(amount: int)
    ensures
        spec_saturate(0, amount) == 0,
{
    let drive = spec_q_mul(amount, 58982) + 6554;
    let d23 = tdiv(spec_q_mul(drive, drive), 3);
    lemma_q_mul_zero(0);
    lemma_q_mul_zero(drive);
    lemma_q_mul_zero(d23);
    lemma_q_mul_zero((ONE as int) - spec_q_mul(amount, 19661));
}

/// Saturate one sample; the result always lands in `[-1, 1]`.
pub fn saturate(sample: i64, amount: i64) -> (r: i64)
    requires
        -SAT_IN_MAX <= sample <= SAT_IN_MAX,
        0 <= amount <= ONE,
    ensures
        r == spec_saturate(sample as int, amount as int),
        -ONE <= r <= ONE,
        sample == 0 ==> r == 0,
{
    let drive = q_mul(amount, 58982) + 6554;
    proof {
        lemma_q_mul_range(amount as int, 58982, ONE as int, 58982);
        crate::qmath::lemma_div_mul_cancel(58982);
        assert((ONE as int) * 58982 == 58982 * 65536) by (nonlinear_arith);
    }
    let x2 = q_mul(sample, sample);
    let x3 = q_mul(x2, sample);
    let d2 = q_mul(drive, drive);
    let d23 = d2 / 3;
    proof {
        lemma_q_mul_bound(sample as int, sample as int, SAT_IN_MAX as int, SAT_IN_MAX as int);
        lemma_q_mul_bound(x2 as int, sample as int, 274877906944, SAT_IN_MAX as int);
        lemma_q_mul_range(drive as int, drive as int, ONE as int, ONE as int);
        crate::qmath::lemma_div_mul_cancel(ONE as int);
        crate::qmath::lemma_tdiv_sign(d2 as int, 3);
        crate::qmath::lemma_tdiv_bound(d2 as int, 3, 21846);
        lemma_q_mul_bound(drive as int, sample as int, ONE as int, SAT_IN_MAX as int);
        lemma_q_mul_bound(d23 as int, x3 as int, 21846, 562949953421312);
    }
    let core = q_mul(drive, sample) - q_mul(d23, x3);
    let post = q_mul(core, 65536 - q_mul(amount, 19661));
    proof {
        if sample == 0 {
            lemma_saturate_zero(amount as int);
        }
    }
    clip(post, -65536, 65536)
}

/// `|tilt|^1.5 * sign(tilt)`: the non-linear tilt response curve.
pub open spec fn spec_tilt_effect(tilt: int) -> int {
    if tilt >= 0 {
        spec_pow15(tilt)
    } else {
        -spec_pow15(-tilt)
    }
}

/// The non-linear tilt response in Q16.16.
pub fn tilt_effect(tilt: i64) -> (r: i64)
    requires
        -ONE <= tilt <= ONE,
    ensures
        r == spec_tilt_effect(tilt as int),
        -ONE <= r <= ONE,
{
    if tilt >= 0 {
        pow15(tilt)
    } else {
        -pow15(-tilt)
    }
}

/// How strongly Tilt biases a band's processing intensity: the low bands are
/// pulled opposite to the high bands, the middle band stays neutral, and the
/// result is clamped into `[0.2, 1.8]`.
pub open spec fn spec_tilt_bias(band_idx: int, tilt: int) -> int {
    let eff = spec_tilt_effect(tilt);
    let raw = if band_idx <= 1 {
        (ONE as int) + spec_q_mul(eff, -52429)
    } else if band_idx == 2 {
        ONE as int
    } else {
        (ONE as int) + spec_q_mul(eff, 52429)
    };
    spec_clip(raw, 13107, 117965)
}

/// The fixed per-band aggression factor: the lowest band is compressed the
/// hardest, the highest the least.
pub open spec fn spec_freq_factor(band_idx: int) -> int {
    if band_idx == 0 {
        98304
    } else if band_idx == 1 {
        78643
    } else if band_idx == 2 {
        65536
    } else if band_idx == 3 {
        52429
    } else if band_idx == 4 {
        32768
    } else {
        ONE as int
    }
}

/// The soft-knee gain computer, all in Q16.16 decibels: a threshold falling
/// with intensity, a ratio and knee growing with Amount, a quadratic knee
/// interpolation, the result clamped to attenuation only and converted to a
/// linear factor.
#[verifier::opaque]
pub open spec fn spec_calculate_target_gr(band_idx: int, amount: int, tilt: int, envelope: int)
    -> int {
    let bias = spec_tilt_bias(band_idx, tilt);
    let ff = spec_freq_factor(band_idx);
    let intensity = spec_q_mul(spec_q_mul(amount, bias), ff);
    let tilt_term = spec_q_mul(spec_q_mul(tilt, -327680), band_idx * 16384 - 32768);
    let threshold = -655360 - 25 * intensity - tilt_term;
    let ratio = 72090 + 15 * spec_pow25(amount);
    let knee = 8 * spec_pow15(amount);
    let input_db = spec_gain_to_db(envelope);
    let omr = (ONE as int) - crate::qmath::spec_q_div(ONE as int, ratio);
    let gr = if input_db < threshold - knee / 2 {
        0
    } else if input_db > threshold + knee / 2 {
        spec_q_mul(threshold - input_db, omr)
    } else if knee <= 0 {
        0
    } else {
        let xk = input_db - (threshold - knee / 2);
        -crate::qmath::spec_q_div(spec_q_mul(omr, spec_q_mul(xk, xk)), 2 * knee)
    };
    let grm = if gr > 0 {
        0
    } else {
        gr
    };
    spec_db_to_gain(grm)
}

/// The target gain-reduction factor for one band: always a genuine
/// attenuation, never zero and never above unity, and exactly unity on a
/// silent envelope.
pub fn calculate_target_gr(band_idx: usize, amount: i64, tilt: i64, envelope: i64) -> (r: i64)
    requires
        band_idx < MAX_BANDS,
        0 <= amount <= ONE,
        -ONE <= tilt <= ONE,
        0 <= envelope,
    ensures
        r == spec_calculate_target_gr(band_idx as int, amount as int, tilt as int, envelope as int),
        0 < r <= ONE,
        envelope == 0 ==> r == ONE,
{
    proof {
        reveal(crate::dsp::spec_calculate_target_gr);
    }
    let tilt_abs = if tilt >= 0 {
        tilt
    } else {
        -tilt
    };
    let eff_mag = pow15(tilt_abs);
    let eff = if tilt >= 0 {
        eff_mag
    } else {
        -eff_mag
    };
    proof {
        lemma_q_mul_bound(eff as int, 52429, ONE as int, 52429);
        lemma_q_mul_neg(eff as int, -52429);
        lemma_q_mul_neg(eff as int, 52429);
        lemma_q_mul_bound(eff as int, -52429, ONE as int, 52429);
    }
    let bias_raw = if band_idx <= 1 {
        65536 + q_mul(eff, -52429)
    } else if band_idx == 2 {
        65536
    } else {
        65536 + q_mul(eff, 52429)
    };
    let bias = clip(bias_raw, 13107, 117965);
    let ff: i64 = if band_idx == 0 {
        98304
    } else if band_idx == 1 {
        78643
    } else if band_idx == 2 {
        65536
    } else if band_idx == 3 {
        52429
    } else {
        32768
    };
    let ab = q_mul(amount, bias);
    let intensity = q_mul(ab, ff);
    proof {
        lemma_q_mul_range(amount as int, bias as int, ONE as int, 131072);
        assert((ONE as int) * 131072 == 131072 * 65536) by (nonlinear_arith);
        crate::qmath::lemma_div_mul_cancel(131072);
        lemma_q_mul_range(ab as int, ff as int, 131072, 98304);
        assert(131072 * 98304 == 196608 * 65536) by (nonlinear_arith);
        crate::qmath::lemma_div_mul_cancel(196608);
    }
    let t5 = q_mul(tilt, -327680);
    let pos = (band_idx as i64) * 16384 - 32768;
    let tilt_term = q_mul(t5, pos);
    proof {
        lemma_q_mul_bound(tilt as int, -327680, ONE as int, 327680);
        crate::qmath::lemma_div_mul_cancel(327680);
        assert((ONE as int) * 327680 == 327680 * 65536) by (nonlinear_arith);
        lemma_q_mul_bound(t5 as int, pos as int, 327680, 32768);
        assert(327680 * 32768 == 163840 * 65536) by (nonlinear_arith);
        crate::qmath::lemma_div_mul_cancel(163840);
    }
    let threshold = -655360 - 25 * intensity - tilt_term;
    let ratio = 72090 + 15 * pow25(amount);
    let knee = 8 * pow15(amount);
    let input_db = gain_to_db(envelope);
    let inv_ratio = crate::qmath::q_div(65536, ratio);
    proof {
        crate::qmath::lemma_tdiv_sign((ONE as int) * (ONE as int), ratio as int);
        crate::qmath::lemma_mul_bound(ONE as int, ONE as int, ONE as int, ONE as int);
        assert((ONE as int) * (ONE as int) <= 59578 * (ratio as int)) by (nonlinear_arith)
            requires
                72090 <= ratio as int,
        ;
        crate::qmath::lemma_tdiv_bound((ONE as int) * (ONE as int), ratio as int, 59578);
    }
    let omr = 65536 - inv_ratio;
    let gr: i64 = if input_db < threshold - knee / 2 {
        0
    } else if input_db > threshold + knee / 2 {
        proof {
            lemma_q_mul_sign((threshold - input_db) as int, omr as int);
        }
        q_mul(threshold - input_db, omr)
    } else if knee <= 0 {
        0
    } else {
        let xk = input_db - (threshold - knee / 2);
        let xk2 = q_mul(xk, xk);
        let num = q_mul(omr, xk2);
        proof {
            lemma_q_mul_range(xk as int, xk as int, 524288, 524288);
            assert(524288 * 524288 == 4194304 * 65536) by (nonlinear_arith);
            crate::qmath::lemma_div_mul_cancel(4194304);
            lemma_q_mul_range(omr as int, xk2 as int, ONE as int, 4194304);
            crate::qmath::lemma_tdiv_sign((num as int) * (ONE as int), 2 * (knee as int));
        }
        -crate::qmath::q_div(num, 2 * knee)
    };
    let grm = if gr > 0 {
        0
    } else {
        gr
    };
    proof {
        if envelope == 0 {
            assert(input_db == crate::approx::DB_MIN);
        }
    }
    db_to_gain(grm)
}

/// Attack and release time constants in Q16.16 samples: both shrink as the
/// band's center frequency rises (`freq_scale = clamp(sqrt(center / 2000),
/// 0.5, 2)`) and as Amount grows (`1 - amount^0.75 * 0.8`), the attack from
/// a 20 ms base and the release from a 300 ms base.
#[verifier::opaque]
pub open spec fn spec_dynamic_time_constants(rate: int, center: int, amount: int) -> (int, int) {
    let fs = spec_clip(spec_q_sqrt(crate::qmath::spec_q_div(center, 131072000)), 32768, 131072);
    let am = (ONE as int) - spec_q_mul(spec_pow075(amount), 52429);
    let sq = spec_q_sqrt(fs);
    let attack_ms = crate::qmath::spec_q_div(20 * am, sq);
    let release_ms = crate::qmath::spec_q_div(300 * am, spec_q_mul(fs, sq));
    (tdiv(rate * attack_ms, 1000), tdiv(rate * release_ms, 1000))
}

/// Dynamic attack and release times for one band, in Q16.16 samples; both
/// are positive whenever the sample rate is.
pub fn calculate_dynamic_time_constants(
    sample_rate: i64,
    band_center_freq: i64,
    _band_idx: usize,
    amount: i64,
) -> (r: (i64, i64))
    requires
        1 <= sample_rate <= 1000000,
        0 <= band_center_freq <= FREQ_MAX,
        0 <= amount <= ONE,
    ensures
        (r.0 as int, r.1 as int) == spec_dynamic_time_constants(
            sample_rate as int,
            band_center_freq as int,
            amount as int,
        ),
        0 < r.0 <= 1853677000,
        0 < r.1 <= 55610281000,
{
    proof {
        reveal(crate::dsp::spec_dynamic_time_constants);
    }
    let ratio_in = crate::qmath::q_div(band_center_freq, 131072000);
    proof {
        crate::qmath::lemma_tdiv_sign((band_center_freq as int) * (ONE as int), 131072000);
        crate::qmath::lemma_mul_bound(band_center_freq as int, ONE as int, FREQ_MAX as int, ONE as int);
        assert((FREQ_MAX as int) * (ONE as int) <= 549755813888 * 131072000) by (nonlinear_arith);
        crate::qmath::lemma_tdiv_bound(
            (band_center_freq as int) * (ONE as int),
            131072000,
            549755813888,
        );
    }
    let fs_raw = q_sqrt(ratio_in);
    proof {
        lemma_q_sqrt_le(ratio_in as int, 189812532);
        assert(549755813888 * 65536 <= 189812532 * 189812532) by (nonlinear_arith);
    }
    let fs = clip(fs_raw, 32768, 131072);
    let am = 65536 - q_mul(pow075(amount), 52429);
    proof {
        lemma_q_mul_range(spec_pow075(amount as int), 52429, ONE as int, 52429);
        crate::qmath::lemma_div_mul_cancel(52429);
        assert((ONE as int) * 52429 == 52429 * 65536) by (nonlinear_arith);
    }
    let sq = q_sqrt(fs);
    proof {
        lemma_q_sqrt_le(fs as int, 92682);
        assert(131072 * 65536 <= 92682 * 92682) by (nonlinear_arith);
        lemma_q_sqrt_ge(fs as int, 46340);
        assert(46340 * 46340 <= 32768 * 65536) by (nonlinear_arith);
    }
    let attack_ms = crate::qmath::q_div(20 * am, sq);
    proof {
        assert(262140 * 65536 >= 185360 * 92682) by (nonlinear_arith);
        assert((20 * (am as int)) * (ONE as int) >= 185360 * (sq as int)) by (nonlinear_arith)
            requires
                20 * (am as int) >= 262140,
                0 < sq as int <= 92682,
        ;
        crate::qmath::lemma_tdiv_ge((20 * (am as int)) * (ONE as int), sq as int, 185360);
        assert((20 * (am as int)) * (ONE as int) <= 1853677 * (sq as int)) by (nonlinear_arith)
            requires
                20 * (am as int) <= 1310720,
                46340 <= sq as int,
        ;
        crate::qmath::lemma_tdiv_bound((20 * (am as int)) * (ONE as int), sq as int, 1853677);
    }
    let fs_sq = q_mul(fs, sq);
    proof {
        assert((fs as int) * (sq as int) >= 32768 * 46340) by (nonlinear_arith)
            requires
                fs as int >= 32768,
                sq as int >= 46340,
        ;
        crate::qmath::lemma_tdiv_ge((fs as int) * (sq as int), ONE as int, 23170);
        assert(23170 * 65536 <= 32768 * 46340) by (nonlinear_arith);
        lemma_q_mul_range(fs as int, sq as int, 131072, 92682);
        assert(131072 * 92682 == 185364 * 65536) by (nonlinear_arith);
        crate::qmath::lemma_div_mul_cancel(185364);
    }
    let release_ms = crate::qmath::q_div(300 * am, fs_sq);
    proof {
        assert(3932100 * 65536 >= 1390205 * 185364) by (nonlinear_arith);
        assert((300 * (am as int)) * (ONE as int) >= 1390205 * (fs_sq as int)) by (nonlinear_arith)
            requires
                300 * (am as int) >= 3932100,
                0 < fs_sq as int <= 185364,
        ;
        crate::qmath::lemma_tdiv_ge((300 * (am as int)) * (ONE as int), fs_sq as int, 1390205);
        assert((300 * (am as int)) * (ONE as int) <= 55610281 * (fs_sq as int)) by (nonlinear_arith)
            requires
                300 * (am as int) <= 19660800,
                23170 <= fs_sq as int,
        ;
        crate::qmath::lemma_tdiv_bound((300 * (am as int)) * (ONE as int), fs_sq as int, 55610281);
    }
    proof {
        crate::qmath::lemma_mul_bound(sample_rate as int, attack_ms as int, 1000000, 1853677);
        crate::qmath::lemma_mul_bound(sample_rate as int, release_ms as int, 1000000, 55610281);
    }
    let attack = (sample_rate * attack_ms) / 1000;
    let release = (sample_rate * release_ms) / 1000;
    proof {
        assert((sample_rate as int) * (attack_ms as int) >= 185360) by (nonlinear_arith)
            requires
                1 <= sample_rate as int,
                185360 <= attack_ms as int,
        ;
        crate::qmath::lemma_tdiv_ge((sample_rate as int) * (attack_ms as int), 1000, 0);
        vstd::arithmetic::div_mod::lemma_div_non_zero((sample_rate as int) * (attack_ms as int), 1000);
        assert((sample_rate as int) * (release_ms as int) >= 1390205) by (nonlinear_arith)
            requires
                1 <= sample_rate as int,
                1390205 <= release_ms as int,
        ;
        vstd::arithmetic::div_mod::lemma_div_non_zero(
            (sample_rate as int) * (release_ms as int),
            1000,
        );
        crate::qmath::lemma_tdiv_bound((sample_rate as int) * (attack_ms as int), 1000, 1853677000);
        assert(1853677000 * 1000 >= 1000000 * 1853677) by (nonlinear_arith);
        crate::qmath::lemma_tdiv_bound(
            (sample_rate as int) * (release_ms as int),
            1000,
            55610281000,
        );
        assert(55610281000 * 1000 >= 1000000 * 55610281) by (nonlinear_arith);
    }
    (attack, release)
}

} // verus!
