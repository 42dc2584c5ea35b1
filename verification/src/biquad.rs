//! Second-order IIR filter sections (biquads) in Q16.16 fixed point:
//! Linkwitz-Riley-aligned lowpass and peaking-EQ coefficient recipes from the
//! classic cookbook formulas, and a transposed-direct-form-2 stereo section.
//!
//! Coefficients and per-channel state are deliberately decoupled: updating a
//! filter's specification never touches its memory, so the signal survives a
//! coefficient change without a click.

use vstd::prelude::*;

use crate::approx::cos_half_pi;
use crate::approx::db_to_gain;
use crate::approx::sin_half_pi;
use crate::approx::spec_cos_half_pi;
use crate::approx::spec_db_to_gain;
use crate::approx::spec_sin_half_pi;
use crate::qmath::ONE;
use crate::qmath::clip;
use crate::qmath::lemma_q_mul_bound;
use crate::qmath::lemma_q_mul_zero;
use crate::qmath::lemma_q_div_shrink;
use crate::qmath::q_div;
use crate::qmath::q_mul;
use crate::qmath::spec_clip;
use crate::qmath::spec_q_div;
use crate::qmath::spec_q_mul;

verus! {

/// Cap on any normalized filter coefficient: 32.0 in Q16.16.
pub const COEF_MAX: i64 = 2097152;

/// Cap on any sample amplitude through a filter: 1024.0 in Q16.16.
pub const AMP_MAX: i64 = 67108864;

/// Cap on filter memory: 16384.0 in Q16.16.
pub const STATE_MAX: i64 = 1073741824;

/// `1 / sqrt(2)` in Q16.16: the Q of a Linkwitz-Riley-aligned section.
pub const FRAC_1_SQRT_2: i64 = 46341;

/// Transposed-direct-form-2 memory for one channel.
#[derive(Clone, Copy)]
pub struct BiquadState {
    pub z1: i64,
    pub z2: i64,
}

impl BiquadState {
    /// Filter memory stays within its headroom cap.
    pub open spec fn wf(self) -> bool {
        &&& -STATE_MAX <= self.z1 <= STATE_MAX
        &&& -STATE_MAX <= self.z2 <= STATE_MAX
    }

    /// Memory at rest.
    pub open spec fn is_zero(self) -> bool {
        self.z1 == 0 && self.z2 == 0
    }
}

impl Default for BiquadState {
    /// Fresh filter memory is silent.
    fn default() -> (r: Self)
        ensures
            r.is_zero(),
            r.wf(),
    {
        BiquadState { z1: 0, z2: 0 }
    }
}

/// Normalized transfer-function taps; recomputed wholesale on any
/// specification change, never interpolated.
#[derive(Clone, Copy)]
pub struct BiquadCoefficients {
    pub b0: i64,
    pub b1: i64,
    pub b2: i64,
    pub a1: i64,
    pub a2: i64,
}

impl BiquadCoefficients {
    /// A blocked filter: every tap zero, so the section passes nothing.
    pub open spec fn is_blocked(self) -> bool {
        self.b0 == 0 && self.b1 == 0 && self.b2 == 0 && self.a1 == 0 && self.a2 == 0
    }

    /// Every tap stays within the coefficient cap.
    pub open spec fn wf(self) -> bool {
        &&& -COEF_MAX <= self.b0 <= COEF_MAX
        &&& -COEF_MAX <= self.b1 <= COEF_MAX
        &&& -COEF_MAX <= self.b2 <= COEF_MAX
        &&& -COEF_MAX <= self.a1 <= COEF_MAX
        &&& -COEF_MAX <= self.a2 <= COEF_MAX
    }
}

impl Default for BiquadCoefficients {
    /// A blocked filter: every tap zero.
    fn default() -> (r: Self)
        ensures
            r.wf(),
            r.is_blocked(),
    {
        BiquadCoefficients { b0: 0, b1: 0, b2: 0, a1: 0, a2: 0 }
    }
}

/// `sin(w0)` for `w0 = 2 * pi * freq / rate`, expressed through the
/// quarter-wave sine with `v = w0 / (pi / 2)` clamped into `[0, 2]`.
pub open spec fn spec_sin_w0(rate: int, freq: int) -> int {
    let v = spec_clip(crate::qmath::tdiv(4 * freq, rate), 0, 2 * (ONE as int));
    if v <= ONE as int {
        spec_sin_half_pi(v)
    } else {
        spec_sin_half_pi(2 * (ONE as int) - v)
    }
}

/// `cos(w0)` for `w0 = 2 * pi * freq / rate`, by quarter-wave reflection.
pub open spec fn spec_cos_w0(rate: int, freq: int) -> int {
    let v = spec_clip(crate::qmath::tdiv(4 * freq, rate), 0, 2 * (ONE as int));
    if v <= ONE as int {
        spec_cos_half_pi(v)
    } else {
        -spec_cos_half_pi(2 * (ONE as int) - v)
    }
}

/// The cookbook Linkwitz-Riley lowpass recipe, normalized by `a0`.
#[verifier::opaque]
pub open spec fn spec_lr_lowpass(rate: int, cutoff: int) -> BiquadCoefficients {
    let sinw = spec_sin_w0(rate, cutoff);
    let cosw = spec_cos_w0(rate, cutoff);
    let alpha = spec_q_mul(sinw, FRAC_1_SQRT_2 as int);
    let b1 = (ONE as int) - cosw;
    let b0 = b1 / 2;
    let a0 = (ONE as int) + alpha;
    BiquadCoefficients {
        b0: spec_q_div(b0, a0) as i64,
        b1: spec_q_div(b1, a0) as i64,
        b2: spec_q_div(b0, a0) as i64,
        a1: spec_q_div(-2 * cosw, a0) as i64,
        a2: spec_q_div((ONE as int) - alpha, a0) as i64,
    }
}

/// The cookbook peaking-EQ recipe, normalized by `a0`; the linear gain is
/// clamped into `[0.1, 16.0]`, the range a `±24 dB` request can reach.
#[verifier::opaque]
pub open spec fn spec_peaking(rate: int, freq: int, q: int, gain_db: int) -> BiquadCoefficients {
    let a_lin = spec_clip(spec_db_to_gain(gain_db), 6554, 1048576);
    let sinw = spec_sin_w0(rate, freq);
    let cosw = spec_cos_w0(rate, freq);
    let alpha = spec_q_div(sinw, 2 * q);
    let a0 = (ONE as int) + spec_q_div(alpha, a_lin);
    BiquadCoefficients {
        b0: spec_q_div((ONE as int) + spec_q_mul(alpha, a_lin), a0) as i64,
        b1: spec_q_div(-2 * cosw, a0) as i64,
        b2: spec_q_div((ONE as int) - spec_q_mul(alpha, a_lin), a0) as i64,
        a1: spec_q_div(-2 * cosw, a0) as i64,
        a2: spec_q_div((ONE as int) - spec_q_div(alpha, a_lin), a0) as i64,
    }
}

/// Computes `sin(w0)` and `cos(w0)` for `w0 = 2 * pi * freq / rate`.
fn sin_cos_w0(rate: i64, freq: i64) -> (r: (i64, i64))
    requires
        1 <= rate,
        0 <= freq <= 1099511627776,
    ensures
        r.0 == spec_sin_w0(rate as int, freq as int),
        r.1 == spec_cos_w0(rate as int, freq as int),
        0 <= r.0 <= ONE,
        -ONE <= r.1 <= ONE,
{
    let raw = (4 * freq) / rate;
    proof {
        crate::qmath::lemma_tdiv_sign(4 * (freq as int), rate as int);
    }
    let v = clip(raw, 0, 131072);
    if v <= 65536 {
        let s = sin_half_pi(v);
        let c = cos_half_pi(v);
        (s, c)
    } else {
        let s = sin_half_pi(131072 - v);
        let c = cos_half_pi(131072 - v);
        (s, -c)
    }
}

impl BiquadCoefficients {
    /// Coefficients for a 2nd-order Linkwitz-Riley lowpass (`Q = 1/sqrt(2)`).
    pub fn calculate_lr_lowpass(sample_rate: i64, cutoff_freq: i64) -> (r: Self)
        requires
            1 <= sample_rate,
            0 <= cutoff_freq <= 1099511627776,
        ensures
            r == spec_lr_lowpass(sample_rate as int, cutoff_freq as int),
            r.wf(),
    {
        proof {
            reveal(crate::biquad::spec_lr_lowpass);
        }
        let (sinw, cosw) = sin_cos_w0(sample_rate, cutoff_freq);
        let alpha = q_mul(sinw, 46341);
        proof {
            crate::qmath::lemma_q_mul_range(sinw as int, 46341, ONE as int, 46341);
        }
        let b1 = 65536 - cosw;
        let b0 = b1 / 2;
        let a0 = 65536 + alpha;
        proof {
            lemma_q_div_shrink(b0 as int, a0 as int, 131072);
            lemma_q_div_shrink(b1 as int, a0 as int, 131072);
            lemma_q_div_shrink(-2 * (cosw as int), a0 as int, 131072);
            lemma_q_div_shrink((ONE as int) - (alpha as int), a0 as int, 131072);
        }
        BiquadCoefficients {
            b0: q_div(b0, a0),
            b1: q_div(b1, a0),
            b2: q_div(b0, a0),
            a1: q_div(-2 * cosw, a0),
            a2: q_div(65536 - alpha, a0),
        }
    }

    /// Coefficients for a peaking EQ from the cookbook recipe; `q` is
    /// expected in `[0.5, 20]` and the gain within `±24 dB`.
    pub fn calculate_peaking(sample_rate: i64, freq: i64, q: i64, gain_db: i64) -> (r: Self)
        requires
            1 <= sample_rate,
            0 <= freq <= 1099511627776,
            32768 <= q <= 1310720,
            -1572864 <= gain_db <= 1572864,
        ensures
            r == spec_peaking(sample_rate as int, freq as int, q as int, gain_db as int),
            r.wf(),
    {
        proof {
            reveal(crate::biquad::spec_peaking);
        }
        let a_lin = clip(db_to_gain(gain_db), 6554, 1048576);
        let (sinw, cosw) = sin_cos_w0(sample_rate, freq);
        let alpha = q_div(sinw, 2 * q);
        proof {
            crate::qmath::lemma_tdiv_sign((sinw as int) * (ONE as int), 2 * (q as int));
            lemma_q_div_shrink(sinw as int, 2 * (q as int), ONE as int);
        }
        let alpha_mul_a = q_mul(alpha, a_lin);
        let alpha_div_a = q_div(alpha, a_lin);
        proof {
            crate::qmath::lemma_q_mul_range(alpha as int, a_lin as int, ONE as int, 1048576);
            crate::qmath::lemma_tdiv_sign((alpha as int) * (ONE as int), a_lin as int);
            crate::qmath::lemma_mul_bound(alpha as int, ONE as int, ONE as int, ONE as int);
            assert((ONE as int) * (ONE as int) <= 655360 * (a_lin as int)) by (nonlinear_arith)
                requires
                    6554 <= a_lin as int,
            ;
            crate::qmath::lemma_tdiv_bound((alpha as int) * (ONE as int), a_lin as int, 655360);
        }
        let a0 = 65536 + alpha_div_a;
        proof {
            lemma_q_div_shrink(65536 + (alpha_mul_a as int), a0 as int, 1114112);
            lemma_q_div_shrink(65536 - (alpha_mul_a as int), a0 as int, 1114112);
            lemma_q_div_shrink(-2 * (cosw as int), a0 as int, 131072);
            lemma_q_div_shrink(65536 - (alpha_div_a as int), a0 as int, 655360);
        }
        BiquadCoefficients {
            b0: q_div(65536 + alpha_mul_a, a0),
            b1: q_div(-2 * cosw, a0),
            b2: q_div(65536 - alpha_mul_a, a0),
            a1: q_div(-2 * cosw, a0),
            a2: q_div(65536 - alpha_div_a, a0),
        }
    }
}

/// One transposed-direct-form-2 step of a single channel: the output and the
/// two new memory taps, each clamped to its headroom cap.
pub open spec fn spec_biquad_step(c: BiquadCoefficients, s: BiquadState, x: int) -> (int,
    BiquadState) {
    let out = spec_clip(spec_q_mul(c.b0 as int, x) + s.z1, -(AMP_MAX as int), AMP_MAX as int);
    let z1 = spec_clip(
        spec_q_mul(c.b1 as int, x) - spec_q_mul(c.a1 as int, out) + s.z2,
        -(STATE_MAX as int),
        STATE_MAX as int,
    );
    let z2 = spec_clip(
        spec_q_mul(c.b2 as int, x) - spec_q_mul(c.a2 as int, out),
        -(STATE_MAX as int),
        STATE_MAX as int,
    );
    (out, BiquadState { z1: z1 as i64, z2: z2 as i64 })
}

/// A silent channel through a resting filter stays silent, whatever the
/// coefficients.
pub proof fn lemma_biquad_step_zero(c: BiquadCoefficients)
    ensures
        spec_biquad_step(c, BiquadState { z1: 0, z2: 0 }, 0).0 == 0,
        spec_biquad_step(c, BiquadState { z1: 0, z2: 0 }, 0).1.is_zero(),
{
    lemma_q_mul_zero(c.b0 as int);
    lemma_q_mul_zero(c.b1 as int);
    lemma_q_mul_zero(c.b2 as int);
    lemma_q_mul_zero(c.a1 as int);
    lemma_q_mul_zero(c.a2 as int);
}

/// A stereo biquad: one coefficient set, independent left and right memory.
#[derive(Clone, Copy)]
pub struct Biquad {
    pub coefs: BiquadCoefficients,
    pub state_l: BiquadState,
    pub state_r: BiquadState,
}

impl Biquad {
    /// Coefficients and both channel memories within their caps.
    pub open spec fn wf(self) -> bool {
        &&& self.coefs.wf()
        &&& self.state_l.wf()
        &&& self.state_r.wf()
    }

    /// Both channel memories at rest.
    pub open spec fn is_reset(self) -> bool {
        self.state_l.is_zero() && self.state_r.is_zero()
    }
}

impl Default for Biquad {
    /// A blocked, silent filter.
    fn default() -> (r: Self)
        ensures
            r.wf(),
            r.is_reset(),
            r.coefs.is_blocked(),
    {
        Biquad {
            coefs: BiquadCoefficients::default(),
            state_l: BiquadState::default(),
            state_r: BiquadState::default(),
        }
    }
}

impl Biquad {
    /// One stereo sample through the section: each channel follows the
    /// transposed-direct-form-2 recurrence exactly and independently.
    pub fn process(&mut self, sample_l: i64, sample_r: i64) -> (r: (i64, i64))
        requires
            old(self).wf(),
            -AMP_MAX <= sample_l <= AMP_MAX,
            -AMP_MAX <= sample_r <= AMP_MAX,
        ensures
            final(self).wf(),
            final(self).coefs == old(self).coefs,
            (r.0 as int, final(self).state_l) == spec_biquad_step(
                old(self).coefs,
                old(self).state_l,
                sample_l as int,
            ),
            (r.1 as int, final(self).state_r) == spec_biquad_step(
                old(self).coefs,
                old(self).state_r,
                sample_r as int,
            ),
            -AMP_MAX <= r.0 <= AMP_MAX,
            -AMP_MAX <= r.1 <= AMP_MAX,
    {
        let c = BiquadCoefficients { ..self.coefs };
        proof {
            lemma_q_mul_bound(c.b0 as int, sample_l as int, COEF_MAX as int, AMP_MAX as int);
            lemma_q_mul_bound(c.b0 as int, sample_r as int, COEF_MAX as int, AMP_MAX as int);
        }
        let out_l = clip(q_mul(self.coefs.b0, sample_l) + self.state_l.z1, -67108864, 67108864);
        let out_r = clip(q_mul(self.coefs.b0, sample_r) + self.state_r.z1, -67108864, 67108864);
        proof {
            lemma_q_mul_bound(c.b1 as int, sample_l as int, COEF_MAX as int, AMP_MAX as int);
            lemma_q_mul_bound(c.b1 as int, sample_r as int, COEF_MAX as int, AMP_MAX as int);
            lemma_q_mul_bound(c.b2 as int, sample_l as int, COEF_MAX as int, AMP_MAX as int);
            lemma_q_mul_bound(c.b2 as int, sample_r as int, COEF_MAX as int, AMP_MAX as int);
            lemma_q_mul_bound(c.a1 as int, out_l as int, COEF_MAX as int, AMP_MAX as int);
            lemma_q_mul_bound(c.a1 as int, out_r as int, COEF_MAX as int, AMP_MAX as int);
            lemma_q_mul_bound(c.a2 as int, out_l as int, COEF_MAX as int, AMP_MAX as int);
            lemma_q_mul_bound(c.a2 as int, out_r as int, COEF_MAX as int, AMP_MAX as int);
        }
        self.state_l = BiquadState {
            z1: clip(
                q_mul(self.coefs.b1, sample_l) - q_mul(self.coefs.a1, out_l) + self.state_l.z2,
                -1073741824,
                1073741824,
            ),
            z2: clip(q_mul(self.coefs.b2, sample_l) - q_mul(self.coefs.a2, out_l), -1073741824, 1073741824),
        };
        self.state_r = BiquadState {
            z1: clip(
                q_mul(self.coefs.b1, sample_r) - q_mul(self.coefs.a1, out_r) + self.state_r.z2,
                -1073741824,
                1073741824,
            ),
            z2: clip(q_mul(self.coefs.b2, sample_r) - q_mul(self.coefs.a2, out_r), -1073741824, 1073741824),
        };
        (out_l, out_r)
    }

    /// Point the section at a new Linkwitz-Riley lowpass; memory survives.
    pub fn update_lr_lowpass(&mut self, sample_rate: i64, cutoff_freq: i64)
        requires
            old(self).wf(),
            1 <= sample_rate,
            0 <= cutoff_freq <= 1099511627776,
        ensures
            final(self).wf(),
            final(self).coefs == spec_lr_lowpass(sample_rate as int, cutoff_freq as int),
            final(self).state_l == old(self).state_l,
            final(self).state_r == old(self).state_r,
    {
        self.coefs = BiquadCoefficients::calculate_lr_lowpass(sample_rate, cutoff_freq);
    }

    /// Point the section at a new peaking-EQ curve; memory survives.
    pub fn update_peaking(&mut self, sample_rate: i64, freq: i64, q: i64, gain_db: i64)
        requires
            old(self).wf(),
            1 <= sample_rate,
            0 <= freq <= 1099511627776,
            32768 <= q <= 1310720,
            -1572864 <= gain_db <= 1572864,
        ensures
            final(self).wf(),
            final(self).coefs == spec_peaking(
                sample_rate as int,
                freq as int,
                q as int,
                gain_db as int,
            ),
            final(self).state_l == old(self).state_l,
            final(self).state_r == old(self).state_r,
    {
        self.coefs = BiquadCoefficients::calculate_peaking(sample_rate, freq, q, gain_db);
    }

    /// Clear both channels' memory; coefficients survive.
    pub fn reset(&mut self)
        ensures
            final(self).is_reset(),
            final(self).coefs == old(self).coefs,
            old(self).coefs.wf() ==> final(self).wf(),
    {
        self.state_l = BiquadState::default();
        self.state_r = BiquadState::default();
    }
}

} // verus!
