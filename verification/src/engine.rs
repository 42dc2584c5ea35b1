//! The engine itself: five processing bands behind four cascaded
//! Linkwitz-Riley crossovers, per-band envelope-driven compression and
//! saturation, a serial compensation EQ recomputed every sample from the
//! gain reduction actually applied, block-level loudness matching and a
//! constant-power dry/wet mix.

use vstd::prelude::*;

use crate::approx::alpha_from_samples;
use crate::approx::spec_alpha;
use crate::biquad::AMP_MAX;
use crate::biquad::Biquad;
use crate::biquad::spec_biquad_step;
use crate::dsp::MAX_BANDS;
use crate::qmath::ONE;
use crate::qmath::clip;
use crate::qmath::lemma_div_mul_cancel;
use crate::qmath::lemma_q_mul_bound;
use crate::qmath::lemma_q_mul_range;
use crate::qmath::lemma_q_mul_sign;
use crate::qmath::lemma_q_mul_zero;
use crate::qmath::q_mul;
use crate::qmath::spec_clip;
use crate::qmath::spec_q_mul;

verus! {

/// Slowest and fastest sample rates the engine accepts; anything outside is
/// clamped, the defensive stance for an invalid host configuration.
pub const MIN_SAMPLE_RATE: i64 = 8000;

pub const MAX_SAMPLE_RATE: i64 = 1000000;

/// Cap on block-power trackers (mean-square power of clamped signals).
pub const TRACK_MAX: i64 = 137438953472;

/// The loudness correction factor is confined to `[1/16, 16]`.
pub const CORR_MIN: i64 = 4096;

pub const CORR_MAX: i64 = 1048576;

/// Largest block length `process_block` accepts.
pub const MAX_BLOCK: usize = 1048576;

/// A one-pole exponential smoother: every step moves `value` a fixed
/// fraction `alpha` of the way toward the target.
#[derive(Clone, Copy)]
pub struct Smoother {
    pub value: i64,
    pub alpha: i64,
}

/// One smoother step: `value + (target - value) * alpha`.
pub open spec fn spec_smoother_step(v: int, t: int, a: int) -> int {
    v + spec_q_mul(t - v, a)
}

/// A smoother step never leaves the interval spanned by its endpoints, and
/// a met target is a fixed point.
pub proof fn lemma_smoother_step_range(v: int, t: int, a: int, lo: int, hi: int)
    requires
        lo <= v <= hi,
        lo <= t <= hi,
        0 <= a <= ONE as int,
    ensures
        lo <= spec_smoother_step(v, t, a) <= hi,
        v <= t ==> v <= spec_smoother_step(v, t, a) <= t,
        t <= v ==> t <= spec_smoother_step(v, t, a) <= v,
        t == v ==> spec_smoother_step(v, t, a) == v,
{
    let d = t - v;
    if d >= 0 {
        lemma_q_mul_range(d, a, d, ONE as int);
        lemma_div_mul_cancel(d);
        assert(d * (ONE as int) == (ONE as int) * d) by (nonlinear_arith);
    } else {
        lemma_q_mul_bound(d, a, -d, ONE as int);
        lemma_q_mul_sign(d, a);
        lemma_div_mul_cancel(-d);
        assert((-d) * (ONE as int) == (ONE as int) * (-d)) by (nonlinear_arith);
    }
    if d == 0 {
        lemma_q_mul_zero(a);
    }
}

impl Smoother {
    /// The smoothing fraction is a genuine fraction and never stalls.
    pub open spec fn wf(self) -> bool {
        1 <= self.alpha <= ONE
    }

    /// Move one step toward `target`.
    pub fn step(&mut self, target: i64)
        requires
            old(self).wf(),
            -TRACK_MAX <= old(self).value <= TRACK_MAX,
            -TRACK_MAX <= target <= TRACK_MAX,
        ensures
            final(self).wf(),
            final(self).alpha == old(self).alpha,
            final(self).value == spec_smoother_step(
                old(self).value as int,
                target as int,
                old(self).alpha as int,
            ),
            -TRACK_MAX <= final(self).value <= TRACK_MAX,
            target == old(self).value ==> final(self).value == old(self).value,
    {
        proof {
            lemma_smoother_step_range(
                self.value as int,
                target as int,
                self.alpha as int,
                -(TRACK_MAX as int),
                TRACK_MAX as int,
            );
        }
        self.value = self.value + q_mul(target - self.value, self.alpha);
    }
}

/// One band's processing state: its slice of the serial compensation EQ,
/// independent left/right envelope followers, and the smoothed
/// gain-reduction factor each channel actually applies.
#[derive(Clone, Copy)]
pub struct ProcessingBand {
    pub compensation_eq: Biquad,
    pub envelope_l: i64,
    pub envelope_r: i64,
    pub applied_gr_smoother_l: Smoother,
    pub applied_gr_smoother_r: Smoother,
}

impl ProcessingBand {
    /// Envelopes are nonnegative powers of clamped signals; applied
    /// gain-reduction factors are genuine attenuations in `(0, 1]`.
    pub open spec fn wf(self) -> bool {
        &&& self.compensation_eq.wf()
        &&& 0 <= self.envelope_l <= ONE
        &&& 0 <= self.envelope_r <= ONE
        &&& self.applied_gr_smoother_l.wf()
        &&& self.applied_gr_smoother_r.wf()
        &&& 0 < self.applied_gr_smoother_l.value <= ONE
        &&& 0 < self.applied_gr_smoother_r.value <= ONE
    }

    /// The neutral state `reset` establishes: silent filter memory, silent
    /// envelopes, unity gain reduction.
    pub open spec fn is_reset(self) -> bool {
        &&& self.compensation_eq.is_reset()
        &&& self.envelope_l == 0
        &&& self.envelope_r == 0
        &&& self.applied_gr_smoother_l.value == ONE
        &&& self.applied_gr_smoother_r.value == ONE
    }

    /// Clear the band: filter memory zeroed, envelopes silent, applied gain
    /// reduction back to unity.  Coefficients and smoothing rates survive.
    pub fn reset(&mut self)
        ensures
            final(self).is_reset(),
            final(self).compensation_eq.coefs == old(self).compensation_eq.coefs,
            final(self).applied_gr_smoother_l.alpha == old(self).applied_gr_smoother_l.alpha,
            final(self).applied_gr_smoother_r.alpha == old(self).applied_gr_smoother_r.alpha,
            old(self).compensation_eq.coefs.wf() && old(self).applied_gr_smoother_l.wf() && old(self).applied_gr_smoother_r.wf() ==> final(self).wf(),
    {
        self.compensation_eq.reset();
        self.envelope_l = 0;
        self.envelope_r = 0;
        self.applied_gr_smoother_l.value = 65536;
        self.applied_gr_smoother_r.value = 65536;
    }
}

impl Default for ProcessingBand {
    /// A freshly constructed band: everything neutral, smoothing at the
    /// fastest rate until a sample rate is known.
    fn default() -> (r: Self)
        ensures
            r.wf(),
            r.is_reset(),
            r.compensation_eq.coefs.is_blocked(),
    {
        ProcessingBand {
            compensation_eq: Biquad::default(),
            envelope_l: 0,
            envelope_r: 0,
            applied_gr_smoother_l: Smoother { value: 65536, alpha: 65536 },
            applied_gr_smoother_r: Smoother { value: 65536, alpha: 65536 },
        }
    }
}

/// The four crossover base frequencies, 150 / 800 / 4000 / 9000 Hz in
/// Q16.16, before any tilt shift.
pub open spec fn spec_base_freq(j: int) -> int {
    if j == 0 {
        9830400
    } else if j == 1 {
        52428800
    } else if j == 2 {
        262144000
    } else {
        589824000
    }
}

/// The crossover base frequency for stage `j`.
pub fn base_crossover_freq(j: usize) -> (r: i64)
    requires
        j < 4,
    ensures
        r == spec_base_freq(j as int),
        0 < r <= crate::dsp::FREQ_MAX,
{
    if j == 0 {
        9830400
    } else if j == 1 {
        52428800
    } else if j == 2 {
        262144000
    } else {
        589824000
    }
}

/// The whole engine: crossovers, bands, loudness trackers and meters.
pub struct ColorFall {
    pub sample_rate: i64,
    pub crossovers: [Biquad; 4],
    pub bands: [ProcessingBand; 5],
    pub dry_rms_tracker: i64,
    pub wet_rms_tracker: i64,
    pub loudness_correction_smoother: Smoother,
    pub gr_meter_smoother: Smoother,
}

impl ColorFall {
    /// Every component within its caps.
    pub open spec fn wf(self) -> bool {
        &&& MIN_SAMPLE_RATE <= self.sample_rate <= MAX_SAMPLE_RATE
        &&& forall|j: int| 0 <= j < 4 ==> (#[trigger] self.crossovers@[j]).wf()
        &&& forall|i: int| 0 <= i < 5 ==> (#[trigger] self.bands@[i]).wf()
        &&& 0 <= self.dry_rms_tracker <= TRACK_MAX
        &&& 0 <= self.wet_rms_tracker <= TRACK_MAX
        &&& self.loudness_correction_smoother.wf()
        &&& CORR_MIN <= self.loudness_correction_smoother.value <= CORR_MAX
        &&& self.gr_meter_smoother.wf()
        &&& crate::approx::DB_MIN <= self.gr_meter_smoother.value <= 0
    }

    /// The state `reset` establishes, and the fixed point of processing
    /// silence: every filter memory and envelope silent, every gain factor
    /// at unity, trackers empty, no gain reduction reported.
    pub open spec fn is_neutral(self) -> bool {
        &&& forall|j: int| 0 <= j < 4 ==> (#[trigger] self.crossovers@[j]).is_reset()
        &&& forall|i: int| 0 <= i < 5 ==> (#[trigger] self.bands@[i]).is_reset()
        &&& self.dry_rms_tracker == 0
        &&& self.wet_rms_tracker == 0
        &&& self.loudness_correction_smoother.value == ONE
        &&& self.gr_meter_smoother.value == 0
    }

    /// Build an engine for `sample_rate` Hz (clamped to the supported
    /// range), fully reset.
    pub fn new(sample_rate: i64) -> (r: Self)
        ensures
            r.wf(),
            r.is_neutral(),
            r.sample_rate == spec_clip(
                sample_rate as int,
                MIN_SAMPLE_RATE as int,
                MAX_SAMPLE_RATE as int,
            ),
            forall|j: int| 0 <= j < 4 ==> (#[trigger] r.crossovers@[j]).coefs.is_blocked(),
            forall|i: int| 0 <= i < 5 ==> (#[trigger] r.bands@[i]).compensation_eq.coefs.is_blocked(),
    {
        let rate = clip(sample_rate, 8000, 1000000);
        let b = Biquad::default();
        let pb = ProcessingBand::default();
        let mut engine = ColorFall {
            sample_rate: rate,
            crossovers: [b, b, b, b],
            bands: [pb, pb, pb, pb, pb],
            dry_rms_tracker: 0,
            wet_rms_tracker: 0,
            loudness_correction_smoother: Smoother { value: 65536, alpha: 65536 },
            gr_meter_smoother: Smoother { value: 0, alpha: 65536 },
        };
        engine.reset();
        engine
    }

    /// Zero all filter memory and smoother state: gain reduction back to
    /// unity, loudness correction back to unity, trackers emptied, and every
    /// smoothing rate rederived from the current sample rate.
    pub fn reset(&mut self)
        requires
            old(self).wf(),
        ensures
            final(self).wf(),
            final(self).is_neutral(),
            final(self).sample_rate == old(self).sample_rate,
            forall|j: int|
                0 <= j < 4 ==> (#[trigger] final(self).crossovers@[j]).coefs == old(self).crossovers@[j].coefs,
            forall|i: int|
                0 <= i < 5 ==> (#[trigger] final(self).bands@[i]).compensation_eq.coefs == old(self).bands@[i].compensation_eq.coefs,
    {
        let rate = self.sample_rate;
        let gr_alpha = alpha_from_samples((rate * 65536) / 1000);
        let loud_alpha = alpha_from_samples((rate * 13107200) / 1000);
        let meter_alpha = alpha_from_samples((rate * 3276800) / 1000);
        proof {
            crate::qmath::lemma_tdiv_sign((rate as int) * 65536, 1000);
            crate::qmath::lemma_tdiv_sign((rate as int) * 13107200, 1000);
            crate::qmath::lemma_tdiv_sign((rate as int) * 3276800, 1000);
        }
        let mut j: usize = 0;
        while j < 4
            invariant
                j <= 4,
                forall|k: int|
                    0 <= k < j ==> (#[trigger] self.crossovers@[k]).is_reset()
                        && self.crossovers@[k].wf() && self.crossovers@[k].coefs == old(self).crossovers@[k].coefs,
                forall|k: int| j <= k < 4 ==> self.crossovers@[k] == old(self).crossovers@[k],
                self.sample_rate == old(self).sample_rate,
                self.bands == old(self).bands,
                self.dry_rms_tracker == old(self).dry_rms_tracker,
                self.wet_rms_tracker == old(self).wet_rms_tracker,
                self.loudness_correction_smoother == old(self).loudness_correction_smoother,
                self.gr_meter_smoother == old(self).gr_meter_smoother,
                old(self).wf(),
            decreases 4 - j,
        {
            let mut c = self.crossovers[j];
            c.reset();
            self.crossovers[j] = c;
            j = j + 1;
        }
        let mut i: usize = 0;
        while i < 5
            invariant
                i <= 5,
                forall|k: int|
                    0 <= k < 4 ==> (#[trigger] self.crossovers@[k]).is_reset()
                        && self.crossovers@[k].wf() && self.crossovers@[k].coefs == old(self).crossovers@[k].coefs,
                forall|k: int|
                    0 <= k < i ==> (#[trigger] self.bands@[k]).is_reset() && self.bands@[k].wf()
                        && self.bands@[k].compensation_eq.coefs == old(self).bands@[k].compensation_eq.coefs,
                forall|k: int| i <= k < 5 ==> self.bands@[k] == old(self).bands@[k],
                self.sample_rate == old(self).sample_rate,
                self.dry_rms_tracker == old(self).dry_rms_tracker,
                self.wet_rms_tracker == old(self).wet_rms_tracker,
                self.loudness_correction_smoother == old(self).loudness_correction_smoother,
                self.gr_meter_smoother == old(self).gr_meter_smoother,
                1 <= gr_alpha <= ONE,
                old(self).wf(),
            decreases 5 - i,
        {
            let mut band = self.bands[i];
            band.applied_gr_smoother_l.alpha = gr_alpha;
            band.applied_gr_smoother_r.alpha = gr_alpha;
            band.reset();
            self.bands[i] = band;
            i = i + 1;
        }
        self.loudness_correction_smoother = Smoother { value: 65536, alpha: loud_alpha };
        self.gr_meter_smoother = Smoother { value: 0, alpha: meter_alpha };
        self.dry_rms_tracker = 0;
        self.wet_rms_tracker = 0;
    }

    /// Adopt a new sample rate (clamped to the supported range); this is a
    /// full reset for the new rate.
    pub fn set_sample_rate(&mut self, rate: i64)
        requires
            old(self).wf(),
        ensures
            final(self).wf(),
            final(self).is_neutral(),
            final(self).sample_rate == spec_clip(
                rate as int,
                MIN_SAMPLE_RATE as int,
                MAX_SAMPLE_RATE as int,
            ),
    {
        self.sample_rate = clip(rate, 8000, 1000000);
        self.reset();
    }

    /// Re-aim all four crossover filters at their tilt-shifted frequencies;
    /// filter memory survives, so this is safe mid-stream.
    pub fn update_crossover_filters(&mut self, tilt: i64)
        requires
            old(self).wf(),
            -ONE <= tilt <= ONE,
        ensures
            final(self).wf(),
            forall|j: int|
                0 <= j < 4 ==> (#[trigger] final(self).crossovers@[j]).coefs
                    == crate::biquad::spec_lr_lowpass(
                    old(self).sample_rate as int,
                    crate::dsp::spec_shift_frequency(spec_base_freq(j), tilt as int),
                ),
            forall|j: int|
                0 <= j < 4 ==> (#[trigger] final(self).crossovers@[j]).state_l == old(self).crossovers@[j].state_l && final(self).crossovers@[j].state_r == old(self).crossovers@[j].state_r,
            final(self).bands == old(self).bands,
            final(self).sample_rate == old(self).sample_rate,
            final(self).dry_rms_tracker == old(self).dry_rms_tracker,
            final(self).wet_rms_tracker == old(self).wet_rms_tracker,
            final(self).loudness_correction_smoother == old(self).loudness_correction_smoother,
            final(self).gr_meter_smoother == old(self).gr_meter_smoother,
    {
        let mut j: usize = 0;
        while j < 4
            invariant
                j <= 4,
                old(self).wf(),
                -ONE <= tilt <= ONE,
                forall|k: int|
                    0 <= k < j ==> (#[trigger] self.crossovers@[k]).coefs
                        == crate::biquad::spec_lr_lowpass(
                        old(self).sample_rate as int,
                        crate::dsp::spec_shift_frequency(spec_base_freq(k), tilt as int),
                    ) && self.crossovers@[k].wf() && self.crossovers@[k].state_l == old(self).crossovers@[k].state_l && self.crossovers@[k].state_r == old(self).crossovers@[k].state_r,
                forall|k: int| j <= k < 4 ==> self.crossovers@[k] == old(self).crossovers@[k],
                self.sample_rate == old(self).sample_rate,
                self.bands == old(self).bands,
                self.dry_rms_tracker == old(self).dry_rms_tracker,
                self.wet_rms_tracker == old(self).wet_rms_tracker,
                self.loudness_correction_smoother == old(self).loudness_correction_smoother,
                self.gr_meter_smoother == old(self).gr_meter_smoother,
            decreases 4 - j,
        {
            let f = crate::dsp::shift_frequency(base_crossover_freq(j), tilt);
            let mut c = self.crossovers[j];
            c.update_lr_lowpass(self.sample_rate, f);
            self.crossovers[j] = c;
            j = j + 1;
        }
    }
}

impl ColorFall {
    /// Split a stereo sample into the five bands, from the highest crossover
    /// down: each stage's complementary highpass (input minus lowpass) is
    /// the band above it, and the final lowpass output is the bottom band.
    /// Summing the five bands always reconstructs the input exactly — the
    /// Linkwitz-Riley recombination property, here an identity of the
    /// splitting arithmetic itself.
    pub fn split_bands(&mut self, sample_l: i64, sample_r: i64) -> (r: ([i64; 5], [i64; 5]))
        requires
            forall|j: int| 0 <= j < 4 ==> (#[trigger] old(self).crossovers@[j]).wf(),
            -AMP_MAX <= sample_l <= AMP_MAX,
            -AMP_MAX <= sample_r <= AMP_MAX,
        ensures
            forall|j: int| 0 <= j < 4 ==> (#[trigger] final(self).crossovers@[j]).wf(),
            forall|j: int|
                0 <= j < 4 ==> (#[trigger] final(self).crossovers@[j]).coefs == old(self).crossovers@[j].coefs,
            final(self).bands == old(self).bands,
            final(self).sample_rate == old(self).sample_rate,
            final(self).dry_rms_tracker == old(self).dry_rms_tracker,
            final(self).wet_rms_tracker == old(self).wet_rms_tracker,
            final(self).loudness_correction_smoother == old(self).loudness_correction_smoother,
            final(self).gr_meter_smoother == old(self).gr_meter_smoother,
            r.0@[0] + r.0@[1] + r.0@[2] + r.0@[3] + r.0@[4] == sample_l,
            r.1@[0] + r.1@[1] + r.1@[2] + r.1@[3] + r.1@[4] == sample_r,
            forall|k: int|
                0 <= k < 5 ==> -2 * AMP_MAX <= #[trigger] r.0@[k] <= 2 * AMP_MAX && -2 * AMP_MAX
                    <= #[trigger] r.1@[k] <= 2 * AMP_MAX,
            ({
                let s3 = spec_biquad_step(
                    old(self).crossovers@[3].coefs,
                    old(self).crossovers@[3].state_l,
                    sample_l as int,
                );
                let s2 = spec_biquad_step(
                    old(self).crossovers@[2].coefs,
                    old(self).crossovers@[2].state_l,
                    s3.0,
                );
                let s1 = spec_biquad_step(
                    old(self).crossovers@[1].coefs,
                    old(self).crossovers@[1].state_l,
                    s2.0,
                );
                let s0 = spec_biquad_step(
                    old(self).crossovers@[0].coefs,
                    old(self).crossovers@[0].state_l,
                    s1.0,
                );
                r.0@[4] as int == sample_l - s3.0 && r.0@[3] as int == s3.0 - s2.0 && r.0@[2] as int
                    == s2.0 - s1.0 && r.0@[1] as int == s1.0 - s0.0 && r.0@[0] as int == s0.0
                    && final(self).crossovers@[3].state_l == s3.1 && final(self).crossovers@[2].state_l == s2.1 && final(self).crossovers@[1].state_l == s1.1
                    && final(self).crossovers@[0].state_l == s0.1
            }),
            ({
                let s3 = spec_biquad_step(
                    old(self).crossovers@[3].coefs,
                    old(self).crossovers@[3].state_r,
                    sample_r as int,
                );
                let s2 = spec_biquad_step(
                    old(self).crossovers@[2].coefs,
                    old(self).crossovers@[2].state_r,
                    s3.0,
                );
                let s1 = spec_biquad_step(
                    old(self).crossovers@[1].coefs,
                    old(self).crossovers@[1].state_r,
                    s2.0,
                );
                let s0 = spec_biquad_step(
                    old(self).crossovers@[0].coefs,
                    old(self).crossovers@[0].state_r,
                    s1.0,
                );
                r.1@[4] as int == sample_r - s3.0 && r.1@[3] as int == s3.0 - s2.0 && r.1@[2] as int
                    == s2.0 - s1.0 && r.1@[1] as int == s1.0 - s0.0 && r.1@[0] as int == s0.0
                    && final(self).crossovers@[3].state_r == s3.1 && final(self).crossovers@[2].state_r == s2.1 && final(self).crossovers@[1].state_r == s1.1
                    && final(self).crossovers@[0].state_r == s0.1
            }),
            (sample_l == 0 && sample_r == 0 && forall|j: int|
                0 <= j < 4 ==> (#[trigger] old(self).crossovers@[j]).is_reset()) ==> ((forall|k: int|
                0 <= k < 5 ==> #[trigger] r.0@[k] == 0 && #[trigger] r.1@[k] == 0) && (forall|j: int|
                0 <= j < 4 ==> (#[trigger] final(self).crossovers@[j]).is_reset())),
    {
        let ghost silent = sample_l == 0 && sample_r == 0 && forall|j: int|
            0 <= j < 4 ==> (#[trigger] old(self).crossovers@[j]).is_reset();
        let mut c3 = self.crossovers[3];
        let (lp3_l, lp3_r) = c3.process(sample_l, sample_r);
        self.crossovers[3] = c3;
        let mut c2 = self.crossovers[2];
        let (lp2_l, lp2_r) = c2.process(lp3_l, lp3_r);
        self.crossovers[2] = c2;
        let mut c1 = self.crossovers[1];
        let (lp1_l, lp1_r) = c1.process(lp2_l, lp2_r);
        self.crossovers[1] = c1;
        let mut c0 = self.crossovers[0];
        let (lp0_l, lp0_r) = c0.process(lp1_l, lp1_r);
        self.crossovers[0] = c0;
        proof {
            if silent {
                crate::biquad::lemma_biquad_step_zero(old(self).crossovers@[3].coefs);
                crate::biquad::lemma_biquad_step_zero(old(self).crossovers@[2].coefs);
                crate::biquad::lemma_biquad_step_zero(old(self).crossovers@[1].coefs);
                crate::biquad::lemma_biquad_step_zero(old(self).crossovers@[0].coefs);
            }
        }
        let bl: [i64; 5] = [
            lp0_l,
            lp1_l - lp0_l,
            lp2_l - lp1_l,
            lp3_l - lp2_l,
            sample_l - lp3_l,
        ];
        let br: [i64; 5] = [
            lp0_r,
            lp1_r - lp0_r,
            lp2_r - lp1_r,
            lp3_r - lp2_r,
            sample_r - lp3_r,
        ];
        (bl, br)
    }
}

/// One channel of a band's dynamics chain: saturate, follow the envelope
/// with the attack or release coefficient, derive the target gain
/// reduction, smooth it, and apply the smoothed factor to the saturated
/// signal.  Returns the new envelope, the new smoothed factor, and the
/// processed sample.
#[verifier::opaque]
pub open spec fn spec_dyn_channel(
    env0: int,
    g0: int,
    g_alpha: int,
    band_idx: int,
    x: int,
    amount: int,
    tilt: int,
    atk: int,
    rel: int,
) -> (int, int, int) {
    let s = crate::dsp::spec_saturate(x, amount);
    let p = spec_q_mul(s, s);
    let a = if p > env0 {
        atk
    } else {
        rel
    };
    let env1 = spec_smoother_step(env0, p, a);
    let t = crate::dsp::spec_calculate_target_gr(
        band_idx,
        amount,
        tilt,
        crate::approx::spec_q_sqrt(env1),
    );
    let g1 = spec_smoother_step(g0, t, g_alpha);
    (env1, g1, spec_q_mul(s, g1))
}

/// The dynamics stage of one band for one stereo sample: independent
/// left/right envelopes and gain computers, the smoothed factor applied to
/// the saturated signal.  The compensation EQ is untouched here.
pub fn process_band_dynamics(
    band: &mut ProcessingBand,
    band_idx: usize,
    in_l: i64,
    in_r: i64,
    amount: i64,
    tilt: i64,
    atk_alpha: i64,
    rel_alpha: i64,
) -> (r: (i64, i64, i64, i64))
    requires
        old(band).wf(),
        band_idx < MAX_BANDS,
        -2 * AMP_MAX <= in_l <= 2 * AMP_MAX,
        -2 * AMP_MAX <= in_r <= 2 * AMP_MAX,
        0 <= amount <= ONE,
        -ONE <= tilt <= ONE,
        1 <= atk_alpha <= ONE,
        1 <= rel_alpha <= ONE,
    ensures
        final(band).wf(),
        final(band).compensation_eq == old(band).compensation_eq,
        final(band).applied_gr_smoother_l.alpha == old(band).applied_gr_smoother_l.alpha,
        final(band).applied_gr_smoother_r.alpha == old(band).applied_gr_smoother_r.alpha,
        (final(band).envelope_l as int, final(band).applied_gr_smoother_l.value as int, r.0 as int)
            == spec_dyn_channel(
            old(band).envelope_l as int,
            old(band).applied_gr_smoother_l.value as int,
            old(band).applied_gr_smoother_l.alpha as int,
            band_idx as int,
            in_l as int,
            amount as int,
            tilt as int,
            atk_alpha as int,
            rel_alpha as int,
        ),
        (final(band).envelope_r as int, final(band).applied_gr_smoother_r.value as int, r.1 as int)
            == spec_dyn_channel(
            old(band).envelope_r as int,
            old(band).applied_gr_smoother_r.value as int,
            old(band).applied_gr_smoother_r.alpha as int,
            band_idx as int,
            in_r as int,
            amount as int,
            tilt as int,
            atk_alpha as int,
            rel_alpha as int,
        ),
        -ONE <= r.0 <= ONE,
        -ONE <= r.1 <= ONE,
        r.2 == final(band).applied_gr_smoother_l.value && 0 < r.2 <= ONE,
        r.3 == final(band).applied_gr_smoother_r.value && 0 < r.3 <= ONE,
        (in_l == 0 && in_r == 0 && old(band).is_reset()) ==> (r.0 == 0 && r.1 == 0 && r.2 == ONE
            && r.3 == ONE && final(band).envelope_l == 0 && final(band).envelope_r == 0
            && final(band).applied_gr_smoother_l.value == ONE
            && final(band).applied_gr_smoother_r.value == ONE),
{
    proof {
        reveal(crate::engine::spec_dyn_channel);
    }
    let sat_l = crate::dsp::saturate(in_l, amount);
    let sat_r = crate::dsp::saturate(in_r, amount);
    let p_l = q_mul(sat_l, sat_l);
    let p_r = q_mul(sat_r, sat_r);
    proof {
        lemma_q_mul_sign(sat_l as int, sat_l as int);
        lemma_q_mul_sign(sat_r as int, sat_r as int);
        lemma_q_mul_bound(sat_l as int, sat_l as int, ONE as int, ONE as int);
        lemma_q_mul_bound(sat_r as int, sat_r as int, ONE as int, ONE as int);
        lemma_div_mul_cancel(ONE as int);
        if in_l == 0 && in_r == 0 {
            lemma_q_mul_zero(0);
        }
    }
    let a_l = if p_l > band.envelope_l {
        atk_alpha
    } else {
        rel_alpha
    };
    let a_r = if p_r > band.envelope_r {
        atk_alpha
    } else {
        rel_alpha
    };
    proof {
        lemma_smoother_step_range(band.envelope_l as int, p_l as int, a_l as int, 0, ONE as int);
        lemma_smoother_step_range(band.envelope_r as int, p_r as int, a_r as int, 0, ONE as int);
    }
    band.envelope_l = band.envelope_l + q_mul(p_l - band.envelope_l, a_l);
    band.envelope_r = band.envelope_r + q_mul(p_r - band.envelope_r, a_r);
    let env_sqrt_l = crate::approx::q_sqrt(band.envelope_l);
    let env_sqrt_r = crate::approx::q_sqrt(band.envelope_r);
    let tgt_l = crate::dsp::calculate_target_gr(band_idx, amount, tilt, env_sqrt_l);
    let tgt_r = crate::dsp::calculate_target_gr(band_idx, amount, tilt, env_sqrt_r);
    proof {
        lemma_smoother_step_range(
            band.applied_gr_smoother_l.value as int,
            tgt_l as int,
            band.applied_gr_smoother_l.alpha as int,
            1,
            ONE as int,
        );
        lemma_smoother_step_range(
            band.applied_gr_smoother_r.value as int,
            tgt_r as int,
            band.applied_gr_smoother_r.alpha as int,
            1,
            ONE as int,
        );
    }
    band.applied_gr_smoother_l.step(tgt_l);
    band.applied_gr_smoother_r.step(tgt_r);
    let g_l = band.applied_gr_smoother_l.value;
    let g_r = band.applied_gr_smoother_r.value;
    let out_l = q_mul(sat_l, g_l);
    let out_r = q_mul(sat_r, g_r);
    proof {
        lemma_q_mul_bound(sat_l as int, g_l as int, ONE as int, ONE as int);
        lemma_q_mul_bound(sat_r as int, g_r as int, ONE as int, ONE as int);
        lemma_div_mul_cancel(ONE as int);
        if in_l == 0 && in_r == 0 && old(band).is_reset() {
            lemma_q_mul_zero(g_l as int);
        }
    }
    (out_l, out_r, g_l, g_r)
}

/// How strongly Tilt shapes a band's compensation EQ, clamped into
/// `[0.4, 1.6]`.
pub open spec fn spec_band_tilt_factor(band_idx: int, tilt: int) -> int {
    let eff = crate::dsp::spec_tilt_effect(tilt);
    let raw = if band_idx <= 1 {
        (ONE as int) + spec_q_mul(eff, -39322)
    } else if band_idx == 2 {
        ONE as int
    } else {
        (ONE as int) + spec_q_mul(eff, 39322)
    };
    spec_clip(raw, 26214, 104858)
}

/// The reactive EQ parameters for one band and one sample: the Q follows
/// Amount and Tilt, and the boost follows the gain reduction actually
/// applied this sample, normalized against a 24 dB reference and scaled by
/// `MAX_COMPENSATION_DB`, Amount and the band's tilt factor.
#[verifier::opaque]
pub open spec fn spec_eq_params(band_idx: int, amount: int, tilt: int, gl: int, gr: int) -> (int,
    int) {
    let avg = (gl + gr) / 2;
    let d = crate::approx::spec_gain_to_db(avg);
    let gr_db_abs = if d >= 0 {
        d
    } else {
        -d
    };
    let btf = spec_band_tilt_factor(band_idx, tilt);
    let comp_raw = spec_q_mul(
        spec_q_mul(crate::qmath::spec_q_div(gr_db_abs, 1572864), crate::dsp::MAX_COMPENSATION_DB as int),
        spec_q_mul(amount, btf),
    );
    let comp = spec_clip(comp_raw, 0, 1572864);
    let qb = 45875 + 8 * spec_q_mul(amount, amount);
    let qt = (ONE as int) + spec_q_mul(tilt, (band_idx - 2) * 26214);
    let qf = spec_clip(spec_q_mul(qb, qt), 32768, 1310720);
    (qf, comp)
}

/// The reactive compensation-EQ stage of one band for one stereo sample:
/// recompute the peaking coefficients from the gain reduction applied this
/// very sample, then run the summed wet signal through the section.
pub fn process_band_eq(
    band: &mut ProcessingBand,
    band_idx: usize,
    wet_l: i64,
    wet_r: i64,
    amount: i64,
    tilt: i64,
    g_l: i64,
    g_r: i64,
    sample_rate: i64,
    center_freq: i64,
) -> (r: (i64, i64))
    requires
        old(band).wf(),
        band_idx < MAX_BANDS,
        -AMP_MAX <= wet_l <= AMP_MAX,
        -AMP_MAX <= wet_r <= AMP_MAX,
        0 <= amount <= ONE,
        -ONE <= tilt <= ONE,
        1 <= g_l <= ONE,
        1 <= g_r <= ONE,
        MIN_SAMPLE_RATE <= sample_rate <= MAX_SAMPLE_RATE,
        0 <= center_freq <= crate::dsp::FREQ_MAX,
    ensures
        final(band).wf(),
        final(band).envelope_l == old(band).envelope_l,
        final(band).envelope_r == old(band).envelope_r,
        final(band).applied_gr_smoother_l == old(band).applied_gr_smoother_l,
        final(band).applied_gr_smoother_r == old(band).applied_gr_smoother_r,
        final(band).compensation_eq.coefs == crate::biquad::spec_peaking(
            sample_rate as int,
            center_freq as int,
            spec_eq_params(band_idx as int, amount as int, tilt as int, g_l as int, g_r as int).0,
            spec_eq_params(band_idx as int, amount as int, tilt as int, g_l as int, g_r as int).1,
        ),
        (r.0 as int, final(band).compensation_eq.state_l) == spec_biquad_step(
            final(band).compensation_eq.coefs,
            old(band).compensation_eq.state_l,
            wet_l as int,
        ),
        (r.1 as int, final(band).compensation_eq.state_r) == spec_biquad_step(
            final(band).compensation_eq.coefs,
            old(band).compensation_eq.state_r,
            wet_r as int,
        ),
        -AMP_MAX <= r.0 <= AMP_MAX,
        -AMP_MAX <= r.1 <= AMP_MAX,
        (wet_l == 0 && wet_r == 0 && old(band).compensation_eq.is_reset()) ==> (r.0 == 0 && r.1
            == 0 && final(band).compensation_eq.is_reset()),
{
    proof {
        reveal(crate::engine::spec_eq_params);
    }
    let avg = (g_l + g_r) / 2;
    let d = crate::approx::gain_to_db(avg);
    let gr_db_abs = if d >= 0 {
        d
    } else {
        -d
    };
    let norm = crate::qmath::q_div(gr_db_abs, 1572864);
    proof {
        crate::qmath::lemma_tdiv_sign((gr_db_abs as int) * (ONE as int), 1572864);
        crate::qmath::lemma_mul_bound(gr_db_abs as int, ONE as int, 6707622, ONE as int);
        assert(6707622 * 65536 <= 279485 * 1572864) by (nonlinear_arith);
        crate::qmath::lemma_tdiv_bound((gr_db_abs as int) * (ONE as int), 1572864, 279485);
    }
    let scaled = q_mul(norm, 393216);
    proof {
        lemma_q_mul_range(norm as int, 393216, 279485, 393216);
        assert(279485 * 393216 == 1676910 * 65536) by (nonlinear_arith);
        lemma_div_mul_cancel(1676910);
    }
    let eff15 = crate::dsp::tilt_effect(tilt);
    proof {
        lemma_q_mul_bound(eff15 as int, 39322, ONE as int, 39322);
        crate::qmath::lemma_q_mul_neg(eff15 as int, -39322);
        crate::qmath::lemma_q_mul_neg(eff15 as int, 39322);
        lemma_q_mul_bound(eff15 as int, -39322, ONE as int, 39322);
    }
    let btf_raw = if band_idx <= 1 {
        65536 + q_mul(eff15, -39322)
    } else if band_idx == 2 {
        65536
    } else {
        65536 + q_mul(eff15, 39322)
    };
    let btf = clip(btf_raw, 26214, 104858);
    let ab = q_mul(amount, btf);
    proof {
        lemma_q_mul_range(amount as int, btf as int, ONE as int, 104858);
        lemma_div_mul_cancel(104858);
        assert((ONE as int) * 104858 == 104858 * 65536) by (nonlinear_arith);
        lemma_q_mul_sign(scaled as int, ab as int);
    }
    let comp = clip(q_mul(scaled, ab), 0, 1572864);
    let aa = q_mul(amount, amount);
    proof {
        lemma_q_mul_range(amount as int, amount as int, ONE as int, ONE as int);
        lemma_div_mul_cancel(ONE as int);
        lemma_q_mul_bound(tilt as int, ((band_idx as int) - 2) * 26214, ONE as int, 52428);
        lemma_div_mul_cancel(52428);
        assert((ONE as int) * 52428 == 52428 * 65536) by (nonlinear_arith);
    }
    let qb = 45875 + 8 * aa;
    let qt = 65536 + q_mul(tilt, ((band_idx as i64) - 2) * 26214);
    let qf = clip(q_mul(qb, qt), 32768, 1310720);
    band.compensation_eq.update_peaking(sample_rate, center_freq, qf, comp);
    let out = band.compensation_eq.process(wet_l, wet_r);
    proof {
        if wet_l == 0 && wet_r == 0 && old(band).compensation_eq.is_reset() {
            crate::biquad::lemma_biquad_step_zero(band.compensation_eq.coefs);
        }
    }
    out
}

/// Every element of the sequence is zero.
pub open spec fn all_zero(s: Seq<i64>) -> bool {
    forall|k: int| 0 <= k < s.len() ==> s[k] == 0
}

/// The first `n` elements of the sequence are zero.
pub open spec fn zero_prefix(s: Seq<i64>, n: int) -> bool {
    forall|k: int| 0 <= k < n ==> s[k] == 0
}

/// The first `n` elements of the two sequences agree.
pub open spec fn prefix_eq(a: Seq<i64>, b: Seq<i64>, n: int) -> bool {
    forall|k: int| 0 <= k < n ==> a[k] == b[k]
}

/// One stereo sample's contribution to a block's power tracker: the mean of
/// the two channels' squared amplitudes.
pub open spec fn spec_sample_power(l: int, r: int) -> int {
    spec_q_mul(spec_q_mul(l, l) + spec_q_mul(r, r), 32768)
}

/// The power of the first `n` stereo samples of a block, accumulated.
pub open spec fn spec_power_sum(l: Seq<i64>, r: Seq<i64>, n: int) -> int
    decreases n,
{
    if n <= 0 {
        0
    } else {
        spec_power_sum(l, r, n - 1) + spec_sample_power(l[n - 1] as int, r[n - 1] as int)
    }
}

/// A band's center frequency: the geometric mean of its lower and upper
/// crossover bounds, via the product of their square roots.
#[verifier::opaque]
pub open spec fn spec_band_center(lower: int, upper: int) -> int {
    spec_q_mul(crate::approx::spec_q_sqrt(lower), crate::approx::spec_q_sqrt(upper))
}

/// The geometric mean of two frequencies (both at most 2^19 Hz in Q16.16).
pub fn band_center(lower: i64, upper: i64) -> (r: i64)
    requires
        0 <= lower <= 34359738368,
        0 <= upper <= 34359738368,
    ensures
        r == spec_band_center(lower as int, upper as int),
        0 <= r <= crate::dsp::FREQ_MAX,
{
    proof {
        reveal(crate::engine::spec_band_center);
    }
    let sl = crate::approx::q_sqrt(lower);
    let su = crate::approx::q_sqrt(upper);
    proof {
        crate::approx::lemma_q_sqrt_le(lower as int, 67108864);
        crate::approx::lemma_q_sqrt_le(upper as int, 67108864);
        assert(34359738368 * 65536 <= 67108864 * 67108864) by (nonlinear_arith);
        lemma_q_mul_range(sl as int, su as int, 67108864, 67108864);
        assert(67108864 * 67108864 == 68719476736 * 65536) by (nonlinear_arith);
        lemma_div_mul_cancel(68719476736);
    }
    q_mul(sl, su)
}

/// Attack and release smoothing coefficients for one band, derived from its
/// tilt-shifted center frequency and Amount.
pub fn band_alphas(sample_rate: i64, center_freq: i64, band_idx: usize, amount: i64) -> (r: (
    i64,
    i64,
))
    requires
        MIN_SAMPLE_RATE <= sample_rate <= MAX_SAMPLE_RATE,
        0 <= center_freq <= crate::dsp::FREQ_MAX,
        0 <= amount <= ONE,
    ensures
        r.0 == spec_alpha(
            crate::dsp::spec_dynamic_time_constants(
                sample_rate as int,
                center_freq as int,
                amount as int,
            ).0,
        ),
        r.1 == spec_alpha(
            crate::dsp::spec_dynamic_time_constants(
                sample_rate as int,
                center_freq as int,
                amount as int,
            ).1,
        ),
        1 <= r.0 <= ONE,
        1 <= r.1 <= ONE,
{
    let (atk, rel) = crate::dsp::calculate_dynamic_time_constants(
        sample_rate,
        center_freq,
        band_idx,
        amount,
    );
    (alpha_from_samples(atk), alpha_from_samples(rel))
}

/// The per-sample slice of the engine's state: the four crossover sections,
/// the five bands and the loudness-correction smoother — exactly what one
/// sample's processing reads and writes.  Trackers and the meter move only
/// at block boundaries and live outside it.
pub struct EngineState {
    pub crossovers: (Biquad, Biquad, Biquad, Biquad),
    pub bands: (ProcessingBand, ProcessingBand, ProcessingBand, ProcessingBand, ProcessingBand),
    pub loud: Smoother,
}

/// The per-sample slice of a whole engine.
pub open spec fn engine_state_of(c: ColorFall) -> EngineState {
    EngineState {
        crossovers: (c.crossovers@[0], c.crossovers@[1], c.crossovers@[2], c.crossovers@[3]),
        bands: (c.bands@[0], c.bands@[1], c.bands@[2], c.bands@[3], c.bands@[4]),
        loud: c.loudness_correction_smoother,
    }
}

/// The parameters a block derives once and holds fixed for every sample.
pub struct BlockParams {
    pub rate: int,
    pub amount: int,
    pub tilt: int,
    pub corr_target: int,
    pub dry_gain: int,
    pub wet_gain: int,
    pub output_gain: int,
    pub centers: (int, int, int, int, int),
    pub atks: (int, int, int, int, int),
    pub rels: (int, int, int, int, int),
}

/// The loudness-correction target from the previous block's trackers: the
/// square root of their ratio, clamped into `[1/16, 16]`, and exactly 1
/// while either tracker is still empty.
#[verifier::opaque]
pub open spec fn spec_corr_target(dry: int, wet: int) -> int {
    if dry >= 1 && wet >= 1 {
        spec_clip(
            crate::approx::spec_q_sqrt(spec_clip(crate::qmath::spec_q_div(dry, wet), 0, 1099511627776)),
            CORR_MIN as int,
            CORR_MAX as int,
        )
    } else {
        ONE as int
    }
}

/// The five band centers for a block: geometric means of the tilt-shifted
/// crossover bounds, with 20 Hz below the bottom band and Nyquist above the
/// top one.
pub open spec fn spec_centers(rate: int, tilt: int) -> (int, int, int, int, int) {
    let s0 = crate::dsp::spec_shift_frequency(spec_base_freq(0), tilt);
    let s1 = crate::dsp::spec_shift_frequency(spec_base_freq(1), tilt);
    let s2 = crate::dsp::spec_shift_frequency(spec_base_freq(2), tilt);
    let s3 = crate::dsp::spec_shift_frequency(spec_base_freq(3), tilt);
    let nyq = (rate / 2) * (ONE as int);
    (
        spec_band_center(1310720, s0),
        spec_band_center(s0, s1),
        spec_band_center(s1, s2),
        spec_band_center(s2, s3),
        spec_band_center(s3, nyq),
    )
}

/// One band's attack smoothing coefficient for a block.
pub open spec fn spec_atk_alpha(rate: int, center: int, amount: int) -> int {
    spec_alpha(crate::dsp::spec_dynamic_time_constants(rate, center, amount).0)
}

/// One band's release smoothing coefficient for a block.
pub open spec fn spec_rel_alpha(rate: int, center: int, amount: int) -> int {
    spec_alpha(crate::dsp::spec_dynamic_time_constants(rate, center, amount).1)
}

/// Everything a block derives from the engine's state and the four macro
/// controls before its first sample.
pub open spec fn spec_block_params(c: ColorFall, amount: int, tilt: int, mix: int, output_db: int)
    -> BlockParams {
    let rate = c.sample_rate as int;
    let cs = spec_centers(rate, tilt);
    BlockParams {
        rate: rate,
        amount: amount,
        tilt: tilt,
        corr_target: spec_corr_target(c.dry_rms_tracker as int, c.wet_rms_tracker as int),
        dry_gain: crate::approx::spec_cos_half_pi(mix),
        wet_gain: crate::approx::spec_sin_half_pi(mix),
        output_gain: crate::approx::spec_db_to_gain(output_db),
        centers: cs,
        atks: (
            spec_atk_alpha(rate, cs.0, amount),
            spec_atk_alpha(rate, cs.1, amount),
            spec_atk_alpha(rate, cs.2, amount),
            spec_atk_alpha(rate, cs.3, amount),
            spec_atk_alpha(rate, cs.4, amount),
        ),
        rels: (
            spec_rel_alpha(rate, cs.0, amount),
            spec_rel_alpha(rate, cs.1, amount),
            spec_rel_alpha(rate, cs.2, amount),
            spec_rel_alpha(rate, cs.3, amount),
            spec_rel_alpha(rate, cs.4, amount),
        ),
    }
}

/// A per-sample slice with the crossovers re-aimed at their tilt-shifted
/// frequencies: the state the block loop starts from.
pub open spec fn spec_block_start(c: ColorFall, tilt: int) -> EngineState {
    let rate = c.sample_rate as int;
    EngineState {
        crossovers: (
            Biquad {
                coefs: crate::biquad::spec_lr_lowpass(rate, crate::dsp::spec_shift_frequency(spec_base_freq(0), tilt)),
                state_l: c.crossovers@[0].state_l,
                state_r: c.crossovers@[0].state_r,
            },
            Biquad {
                coefs: crate::biquad::spec_lr_lowpass(rate, crate::dsp::spec_shift_frequency(spec_base_freq(1), tilt)),
                state_l: c.crossovers@[1].state_l,
                state_r: c.crossovers@[1].state_r,
            },
            Biquad {
                coefs: crate::biquad::spec_lr_lowpass(rate, crate::dsp::spec_shift_frequency(spec_base_freq(2), tilt)),
                state_l: c.crossovers@[2].state_l,
                state_r: c.crossovers@[2].state_r,
            },
            Biquad {
                coefs: crate::biquad::spec_lr_lowpass(rate, crate::dsp::spec_shift_frequency(spec_base_freq(3), tilt)),
                state_l: c.crossovers@[3].state_l,
                state_r: c.crossovers@[3].state_r,
            },
        ),
        bands: (c.bands@[0], c.bands@[1], c.bands@[2], c.bands@[3], c.bands@[4]),
        loud: c.loudness_correction_smoother,
    }
}

/// One band's contribution to the meter this sample: the decibel value of
/// its mean applied factor, counted only as attenuation.
pub open spec fn spec_meter_term(gl: int, gr: int) -> int {
    let d = crate::approx::spec_gain_to_db((gl + gr) / 2);
    if d > 0 {
        0
    } else {
        d
    }
}

/// One stereo sample through the whole chain, as a mathematical function of
/// the per-sample state and the block's parameters: the loudness smoother's
/// step, the crossover split, five bands of dynamics, the serial reactive
/// EQ, the loudness correction and the constant-power mix.  Returns the new
/// state, the two output samples, the dry and wet power contributions and
/// the sample's (non-positive) gain-reduction sum.
pub open spec fn spec_engine_sample(st: EngineState, l: int, r: int, p: BlockParams) -> (
    EngineState,
    int,
    int,
    int,
    int,
    int,
) {
    let dry_p = spec_sample_power(l, r);
    let loud1 = spec_smoother_step(st.loud.value as int, p.corr_target, st.loud.alpha as int);
    let s3l = spec_biquad_step(st.crossovers.3.coefs, st.crossovers.3.state_l, l);
    let s2l = spec_biquad_step(st.crossovers.2.coefs, st.crossovers.2.state_l, s3l.0);
    let s1l = spec_biquad_step(st.crossovers.1.coefs, st.crossovers.1.state_l, s2l.0);
    let s0l = spec_biquad_step(st.crossovers.0.coefs, st.crossovers.0.state_l, s1l.0);
    let s3r = spec_biquad_step(st.crossovers.3.coefs, st.crossovers.3.state_r, r);
    let s2r = spec_biquad_step(st.crossovers.2.coefs, st.crossovers.2.state_r, s3r.0);
    let s1r = spec_biquad_step(st.crossovers.1.coefs, st.crossovers.1.state_r, s2r.0);
    let s0r = spec_biquad_step(st.crossovers.0.coefs, st.crossovers.0.state_r, s1r.0);
    let bl = (s0l.0, s1l.0 - s0l.0, s2l.0 - s1l.0, s3l.0 - s2l.0, l - s3l.0);
    let br = (s0r.0, s1r.0 - s0r.0, s2r.0 - s1r.0, s3r.0 - s2r.0, r - s3r.0);
    let d0l = spec_dyn_channel(
        st.bands.0.envelope_l as int,
        st.bands.0.applied_gr_smoother_l.value as int,
        st.bands.0.applied_gr_smoother_l.alpha as int,
        0,
        bl.0,
        p.amount,
        p.tilt,
        p.atks.0,
        p.rels.0,
    );
    let d0r = spec_dyn_channel(
        st.bands.0.envelope_r as int,
        st.bands.0.applied_gr_smoother_r.value as int,
        st.bands.0.applied_gr_smoother_r.alpha as int,
        0,
        br.0,
        p.amount,
        p.tilt,
        p.atks.0,
        p.rels.0,
    );
    let d1l = spec_dyn_channel(
        st.bands.1.envelope_l as int,
        st.bands.1.applied_gr_smoother_l.value as int,
        st.bands.1.applied_gr_smoother_l.alpha as int,
        1,
        bl.1,
        p.amount,
        p.tilt,
        p.atks.1,
        p.rels.1,
    );
    let d1r = spec_dyn_channel(
        st.bands.1.envelope_r as int,
        st.bands.1.applied_gr_smoother_r.value as int,
        st.bands.1.applied_gr_smoother_r.alpha as int,
        1,
        br.1,
        p.amount,
        p.tilt,
        p.atks.1,
        p.rels.1,
    );
    let d2l = spec_dyn_channel(
        st.bands.2.envelope_l as int,
        st.bands.2.applied_gr_smoother_l.value as int,
        st.bands.2.applied_gr_smoother_l.alpha as int,
        2,
        bl.2,
        p.amount,
        p.tilt,
        p.atks.2,
        p.rels.2,
    );
    let d2r = spec_dyn_channel(
        st.bands.2.envelope_r as int,
        st.bands.2.applied_gr_smoother_r.value as int,
        st.bands.2.applied_gr_smoother_r.alpha as int,
        2,
        br.2,
        p.amount,
        p.tilt,
        p.atks.2,
        p.rels.2,
    );
    let d3l = spec_dyn_channel(
        st.bands.3.envelope_l as int,
        st.bands.3.applied_gr_smoother_l.value as int,
        st.bands.3.applied_gr_smoother_l.alpha as int,
        3,
        bl.3,
        p.amount,
        p.tilt,
        p.atks.3,
        p.rels.3,
    );
    let d3r = spec_dyn_channel(
        st.bands.3.envelope_r as int,
        st.bands.3.applied_gr_smoother_r.value as int,
        st.bands.3.applied_gr_smoother_r.alpha as int,
        3,
        br.3,
        p.amount,
        p.tilt,
        p.atks.3,
        p.rels.3,
    );
    let d4l = spec_dyn_channel(
        st.bands.4.envelope_l as int,
        st.bands.4.applied_gr_smoother_l.value as int,
        st.bands.4.applied_gr_smoother_l.alpha as int,
        4,
        bl.4,
        p.amount,
        p.tilt,
        p.atks.4,
        p.rels.4,
    );
    let d4r = spec_dyn_channel(
        st.bands.4.envelope_r as int,
        st.bands.4.applied_gr_smoother_r.value as int,
        st.bands.4.applied_gr_smoother_r.alpha as int,
        4,
        br.4,
        p.amount,
        p.tilt,
        p.atks.4,
        p.rels.4,
    );
    let wet_l = d0l.2 + d1l.2 + d2l.2 + d3l.2 + d4l.2;
    let wet_r = d0r.2 + d1r.2 + d2r.2 + d3r.2 + d4r.2;
    let gr_s = spec_meter_term(d0l.1, d0r.1) + spec_meter_term(d1l.1, d1r.1) + spec_meter_term(
        d2l.1,
        d2r.1,
    ) + spec_meter_term(d3l.1, d3r.1) + spec_meter_term(d4l.1, d4r.1);
    let prm0 = spec_eq_params(0, p.amount, p.tilt, d0l.1, d0r.1);
    let c0 = crate::biquad::spec_peaking(p.rate, p.centers.0, prm0.0, prm0.1);
    let e0l = spec_biquad_step(c0, st.bands.0.compensation_eq.state_l, wet_l);
    let e0r = spec_biquad_step(c0, st.bands.0.compensation_eq.state_r, wet_r);
    let prm1 = spec_eq_params(1, p.amount, p.tilt, d1l.1, d1r.1);
    let c1 = crate::biquad::spec_peaking(p.rate, p.centers.1, prm1.0, prm1.1);
    let e1l = spec_biquad_step(c1, st.bands.1.compensation_eq.state_l, e0l.0);
    let e1r = spec_biquad_step(c1, st.bands.1.compensation_eq.state_r, e0r.0);
    let prm2 = spec_eq_params(2, p.amount, p.tilt, d2l.1, d2r.1);
    let c2 = crate::biquad::spec_peaking(p.rate, p.centers.2, prm2.0, prm2.1);
    let e2l = spec_biquad_step(c2, st.bands.2.compensation_eq.state_l, e1l.0);
    let e2r = spec_biquad_step(c2, st.bands.2.compensation_eq.state_r, e1r.0);
    let prm3 = spec_eq_params(3, p.amount, p.tilt, d3l.1, d3r.1);
    let c3 = crate::biquad::spec_peaking(p.rate, p.centers.3, prm3.0, prm3.1);
    let e3l = spec_biquad_step(c3, st.bands.3.compensation_eq.state_l, e2l.0);
    let e3r = spec_biquad_step(c3, st.bands.3.compensation_eq.state_r, e2r.0);
    let prm4 = spec_eq_params(4, p.amount, p.tilt, d4l.1, d4r.1);
    let c4 = crate::biquad::spec_peaking(p.rate, p.centers.4, prm4.0, prm4.1);
    let e4l = spec_biquad_step(c4, st.bands.4.compensation_eq.state_l, e3l.0);
    let e4r = spec_biquad_step(c4, st.bands.4.compensation_eq.state_r, e3r.0);
    let wet_p = spec_sample_power(e4l.0, e4r.0);
    let cl = spec_clip(spec_q_mul(e4l.0, loud1), -(AMP_MAX as int), AMP_MAX as int);
    let cr = spec_clip(spec_q_mul(e4r.0, loud1), -(AMP_MAX as int), AMP_MAX as int);
    let out_l = spec_q_mul(spec_q_mul(l, p.dry_gain) + spec_q_mul(cl, p.wet_gain), p.output_gain);
    let out_r = spec_q_mul(spec_q_mul(r, p.dry_gain) + spec_q_mul(cr, p.wet_gain), p.output_gain);
    let nb0 = ProcessingBand {
        compensation_eq: Biquad { coefs: c0, state_l: e0l.1, state_r: e0r.1 },
        envelope_l: d0l.0 as i64,
        envelope_r: d0r.0 as i64,
        applied_gr_smoother_l: Smoother {
            value: d0l.1 as i64,
            alpha: st.bands.0.applied_gr_smoother_l.alpha,
        },
        applied_gr_smoother_r: Smoother {
            value: d0r.1 as i64,
            alpha: st.bands.0.applied_gr_smoother_r.alpha,
        },
    };
    let nb1 = ProcessingBand {
        compensation_eq: Biquad { coefs: c1, state_l: e1l.1, state_r: e1r.1 },
        envelope_l: d1l.0 as i64,
        envelope_r: d1r.0 as i64,
        applied_gr_smoother_l: Smoother {
            value: d1l.1 as i64,
            alpha: st.bands.1.applied_gr_smoother_l.alpha,
        },
        applied_gr_smoother_r: Smoother {
            value: d1r.1 as i64,
            alpha: st.bands.1.applied_gr_smoother_r.alpha,
        },
    };
    let nb2 = ProcessingBand {
        compensation_eq: Biquad { coefs: c2, state_l: e2l.1, state_r: e2r.1 },
        envelope_l: d2l.0 as i64,
        envelope_r: d2r.0 as i64,
        applied_gr_smoother_l: Smoother {
            value: d2l.1 as i64,
            alpha: st.bands.2.applied_gr_smoother_l.alpha,
        },
        applied_gr_smoother_r: Smoother {
            value: d2r.1 as i64,
            alpha: st.bands.2.applied_gr_smoother_r.alpha,
        },
    };
    let nb3 = ProcessingBand {
        compensation_eq: Biquad { coefs: c3, state_l: e3l.1, state_r: e3r.1 },
        envelope_l: d3l.0 as i64,
        envelope_r: d3r.0 as i64,
        applied_gr_smoother_l: Smoother {
            value: d3l.1 as i64,
            alpha: st.bands.3.applied_gr_smoother_l.alpha,
        },
        applied_gr_smoother_r: Smoother {
            value: d3r.1 as i64,
            alpha: st.bands.3.applied_gr_smoother_r.alpha,
        },
    };
    let nb4 = ProcessingBand {
        compensation_eq: Biquad { coefs: c4, state_l: e4l.1, state_r: e4r.1 },
        envelope_l: d4l.0 as i64,
        envelope_r: d4r.0 as i64,
        applied_gr_smoother_l: Smoother {
            value: d4l.1 as i64,
            alpha: st.bands.4.applied_gr_smoother_l.alpha,
        },
        applied_gr_smoother_r: Smoother {
            value: d4r.1 as i64,
            alpha: st.bands.4.applied_gr_smoother_r.alpha,
        },
    };
    let st1 = EngineState {
        crossovers: (
            Biquad { coefs: st.crossovers.0.coefs, state_l: s0l.1, state_r: s0r.1 },
            Biquad { coefs: st.crossovers.1.coefs, state_l: s1l.1, state_r: s1r.1 },
            Biquad { coefs: st.crossovers.2.coefs, state_l: s2l.1, state_r: s2r.1 },
            Biquad { coefs: st.crossovers.3.coefs, state_l: s3l.1, state_r: s3r.1 },
        ),
        bands: (nb0, nb1, nb2, nb3, nb4),
        loud: Smoother { value: loud1 as i64, alpha: st.loud.alpha },
    };
    (st1, out_l, out_r, dry_p, wet_p, gr_s)
}

/// The first `n` samples of a block folded through `spec_engine_sample`:
/// the state after them, the two output prefixes, and the running dry
/// power, wet power and gain-reduction sums.
pub open spec fn spec_engine_run(
    st: EngineState,
    l: Seq<i64>,
    r: Seq<i64>,
    n: int,
    p: BlockParams,
) -> (EngineState, Seq<i64>, Seq<i64>, int, int, int)
    decreases n,
{
    if n <= 0 {
        (st, Seq::empty(), Seq::empty(), 0, 0, 0)
    } else {
        let prev = spec_engine_run(st, l, r, n - 1, p);
        let step = spec_engine_sample(prev.0, l[n - 1] as int, r[n - 1] as int, p);
        (
            step.0,
            prev.1.push(step.1 as i64),
            prev.2.push(step.2 as i64),
            prev.3 + step.3,
            prev.4 + step.4,
            prev.5 + step.5,
        )
    }
}

impl ColorFall {
    /// The parallel dynamics stage of one stereo sample: each band
    /// saturated, tracked and gain-reduced independently, the processed
    /// bands summed back into a wet pair, and the sample's (non-positive)
    /// gain-reduction total for the meter.
    #[verifier::rlimit(100)]
    fn run_band_dynamics(
        &mut self,
        bl: [i64; 5],
        br: [i64; 5],
        amount: i64,
        tilt: i64,
        atks: (i64, i64, i64, i64, i64),
        rels: (i64, i64, i64, i64, i64),
    ) -> (out: (i64, i64, (i64, i64, i64, i64, i64), (i64, i64, i64, i64, i64), i64))
        requires
            forall|i: int| 0 <= i < 5 ==> (#[trigger] old(self).bands@[i]).wf(),
            forall|k: int| 0 <= k < 5 ==> -2 * AMP_MAX <= #[trigger] bl@[k] <= 2 * AMP_MAX,
            forall|k: int| 0 <= k < 5 ==> -2 * AMP_MAX <= #[trigger] br@[k] <= 2 * AMP_MAX,
            0 <= amount <= ONE,
            -ONE <= tilt <= ONE,
            1 <= atks.0 <= ONE && 1 <= atks.1 <= ONE && 1 <= atks.2 <= ONE && 1 <= atks.3 <= ONE
                && 1 <= atks.4 <= ONE,
            1 <= rels.0 <= ONE && 1 <= rels.1 <= ONE && 1 <= rels.2 <= ONE && 1 <= rels.3 <= ONE
                && 1 <= rels.4 <= ONE,
        ensures
            forall|i: int| 0 <= i < 5 ==> (#[trigger] final(self).bands@[i]).wf(),
            forall|i: int|
                0 <= i < 5 ==> (#[trigger] final(self).bands@[i]).compensation_eq == old(self).bands@[i].compensation_eq,
            final(self).crossovers == old(self).crossovers,
            final(self).sample_rate == old(self).sample_rate,
            final(self).dry_rms_tracker == old(self).dry_rms_tracker,
            final(self).wet_rms_tracker == old(self).wet_rms_tracker,
            final(self).loudness_correction_smoother == old(self).loudness_correction_smoother,
            final(self).gr_meter_smoother == old(self).gr_meter_smoother,
            -327680 <= out.0 <= 327680,
            -327680 <= out.1 <= 327680,
            1 <= out.2.0 <= ONE && 1 <= out.2.1 <= ONE && 1 <= out.2.2 <= ONE && 1 <= out.2.3
                <= ONE && 1 <= out.2.4 <= ONE,
            1 <= out.3.0 <= ONE && 1 <= out.3.1 <= ONE && 1 <= out.3.2 <= ONE && 1 <= out.3.3
                <= ONE && 1 <= out.3.4 <= ONE,
            -32768000 <= out.4 <= 0,
            ({
                let d0l = spec_dyn_channel(
                    old(self).bands@[0].envelope_l as int,
                    old(self).bands@[0].applied_gr_smoother_l.value as int,
                    old(self).bands@[0].applied_gr_smoother_l.alpha as int,
                    0,
                    bl@[0] as int,
                    amount as int,
                    tilt as int,
                    atks.0 as int,
                    rels.0 as int,
                );
                let d0r = spec_dyn_channel(
                    old(self).bands@[0].envelope_r as int,
                    old(self).bands@[0].applied_gr_smoother_r.value as int,
                    old(self).bands@[0].applied_gr_smoother_r.alpha as int,
                    0,
                    br@[0] as int,
                    amount as int,
                    tilt as int,
                    atks.0 as int,
                    rels.0 as int,
                );
                let d1l = spec_dyn_channel(
                    old(self).bands@[1].envelope_l as int,
                    old(self).bands@[1].applied_gr_smoother_l.value as int,
                    old(self).bands@[1].applied_gr_smoother_l.alpha as int,
                    1,
                    bl@[1] as int,
                    amount as int,
                    tilt as int,
                    atks.1 as int,
                    rels.1 as int,
                );
                let d1r = spec_dyn_channel(
                    old(self).bands@[1].envelope_r as int,
                    old(self).bands@[1].applied_gr_smoother_r.value as int,
                    old(self).bands@[1].applied_gr_smoother_r.alpha as int,
                    1,
                    br@[1] as int,
                    amount as int,
                    tilt as int,
                    atks.1 as int,
                    rels.1 as int,
                );
                let d2l = spec_dyn_channel(
                    old(self).bands@[2].envelope_l as int,
                    old(self).bands@[2].applied_gr_smoother_l.value as int,
                    old(self).bands@[2].applied_gr_smoother_l.alpha as int,
                    2,
                    bl@[2] as int,
                    amount as int,
                    tilt as int,
                    atks.2 as int,
                    rels.2 as int,
                );
                let d2r = spec_dyn_channel(
                    old(self).bands@[2].envelope_r as int,
                    old(self).bands@[2].applied_gr_smoother_r.value as int,
                    old(self).bands@[2].applied_gr_smoother_r.alpha as int,
                    2,
                    br@[2] as int,
                    amount as int,
                    tilt as int,
                    atks.2 as int,
                    rels.2 as int,
                );
                let d3l = spec_dyn_channel(
                    old(self).bands@[3].envelope_l as int,
                    old(self).bands@[3].applied_gr_smoother_l.value as int,
                    old(self).bands@[3].applied_gr_smoother_l.alpha as int,
                    3,
                    bl@[3] as int,
                    amount as int,
                    tilt as int,
                    atks.3 as int,
                    rels.3 as int,
                );
                let d3r = spec_dyn_channel(
                    old(self).bands@[3].envelope_r as int,
                    old(self).bands@[3].applied_gr_smoother_r.value as int,
                    old(self).bands@[3].applied_gr_smoother_r.alpha as int,
                    3,
                    br@[3] as int,
                    amount as int,
                    tilt as int,
                    atks.3 as int,
                    rels.3 as int,
                );
                let d4l = spec_dyn_channel(
                    old(self).bands@[4].envelope_l as int,
                    old(self).bands@[4].applied_gr_smoother_l.value as int,
                    old(self).bands@[4].applied_gr_smoother_l.alpha as int,
                    4,
                    bl@[4] as int,
                    amount as int,
                    tilt as int,
                    atks.4 as int,
                    rels.4 as int,
                );
                let d4r = spec_dyn_channel(
                    old(self).bands@[4].envelope_r as int,
                    old(self).bands@[4].applied_gr_smoother_r.value as int,
                    old(self).bands@[4].applied_gr_smoother_r.alpha as int,
                    4,
                    br@[4] as int,
                    amount as int,
                    tilt as int,
                    atks.4 as int,
                    rels.4 as int,
                );
                &&& out.0 as int == d0l.2 + d1l.2 + d2l.2 + d3l.2 + d4l.2
                &&& out.1 as int == d0r.2 + d1r.2 + d2r.2 + d3r.2 + d4r.2
                &&& out.2.0 as int == d0l.1
                &&& out.3.0 as int == d0r.1
                &&& out.2.1 as int == d1l.1
                &&& out.3.1 as int == d1r.1
                &&& out.2.2 as int == d2l.1
                &&& out.3.2 as int == d2r.1
                &&& out.2.3 as int == d3l.1
                &&& out.3.3 as int == d3r.1
                &&& out.2.4 as int == d4l.1
                &&& out.3.4 as int == d4r.1
                &&& out.4 as int == spec_meter_term(d0l.1, d0r.1) + spec_meter_term(d1l.1, d1r.1)
                    + spec_meter_term(d2l.1, d2r.1) + spec_meter_term(d3l.1, d3r.1)
                    + spec_meter_term(d4l.1, d4r.1)
                &&& final(self).bands@[0].envelope_l as int == d0l.0
                &&& final(self).bands@[0].envelope_r as int == d0r.0
                &&& final(self).bands@[0].applied_gr_smoother_l.value as int == d0l.1
                &&& final(self).bands@[0].applied_gr_smoother_r.value as int == d0r.1
                &&& final(self).bands@[0].applied_gr_smoother_l.alpha == old(self).bands@[0].applied_gr_smoother_l.alpha
                &&& final(self).bands@[0].applied_gr_smoother_r.alpha == old(self).bands@[0].applied_gr_smoother_r.alpha
                &&& final(self).bands@[1].envelope_l as int == d1l.0
                &&& final(self).bands@[1].envelope_r as int == d1r.0
                &&& final(self).bands@[1].applied_gr_smoother_l.value as int == d1l.1
                &&& final(self).bands@[1].applied_gr_smoother_r.value as int == d1r.1
                &&& final(self).bands@[1].applied_gr_smoother_l.alpha == old(self).bands@[1].applied_gr_smoother_l.alpha
                &&& final(self).bands@[1].applied_gr_smoother_r.alpha == old(self).bands@[1].applied_gr_smoother_r.alpha
                &&& final(self).bands@[2].envelope_l as int == d2l.0
                &&& final(self).bands@[2].envelope_r as int == d2r.0
                &&& final(self).bands@[2].applied_gr_smoother_l.value as int == d2l.1
                &&& final(self).bands@[2].applied_gr_smoother_r.value as int == d2r.1
                &&& final(self).bands@[2].applied_gr_smoother_l.alpha == old(self).bands@[2].applied_gr_smoother_l.alpha
                &&& final(self).bands@[2].applied_gr_smoother_r.alpha == old(self).bands@[2].applied_gr_smoother_r.alpha
                &&& final(self).bands@[3].envelope_l as int == d3l.0
                &&& final(self).bands@[3].envelope_r as int == d3r.0
                &&& final(self).bands@[3].applied_gr_smoother_l.value as int == d3l.1
                &&& final(self).bands@[3].applied_gr_smoother_r.value as int == d3r.1
                &&& final(self).bands@[3].applied_gr_smoother_l.alpha == old(self).bands@[3].applied_gr_smoother_l.alpha
                &&& final(self).bands@[3].applied_gr_smoother_r.alpha == old(self).bands@[3].applied_gr_smoother_r.alpha
                &&& final(self).bands@[4].envelope_l as int == d4l.0
                &&& final(self).bands@[4].envelope_r as int == d4r.0
                &&& final(self).bands@[4].applied_gr_smoother_l.value as int == d4l.1
                &&& final(self).bands@[4].applied_gr_smoother_r.value as int == d4r.1
                &&& final(self).bands@[4].applied_gr_smoother_l.alpha == old(self).bands@[4].applied_gr_smoother_l.alpha
                &&& final(self).bands@[4].applied_gr_smoother_r.alpha == old(self).bands@[4].applied_gr_smoother_r.alpha
            }),
            ((forall|k: int| 0 <= k < 5 ==> #[trigger] bl@[k] == 0 && #[trigger] br@[k] == 0)
                && (forall|i: int| 0 <= i < 5 ==> (#[trigger] old(self).bands@[i]).is_reset()))
                ==> (out.0 == 0 && out.1 == 0 && out.4 == 0 && (forall|i: int|
                0 <= i < 5 ==> (#[trigger] final(self).bands@[i]).is_reset())),
    {
        let mut band = self.bands[0];
        let (o0l, o0r, g0l, g0r) = process_band_dynamics(
            &mut band,
            0,
            bl[0],
            br[0],
            amount,
            tilt,
            atks.0,
            rels.0,
        );
        self.bands[0] = band;
        let mut band = self.bands[1];
        let (o1l, o1r, g1l, g1r) = process_band_dynamics(
            &mut band,
            1,
            bl[1],
            br[1],
            amount,
            tilt,
            atks.1,
            rels.1,
        );
        self.bands[1] = band;
        let mut band = self.bands[2];
        let (o2l, o2r, g2l, g2r) = process_band_dynamics(
            &mut band,
            2,
            bl[2],
            br[2],
            amount,
            tilt,
            atks.2,
            rels.2,
        );
        self.bands[2] = band;
        let mut band = self.bands[3];
        let (o3l, o3r, g3l, g3r) = process_band_dynamics(
            &mut band,
            3,
            bl[3],
            br[3],
            amount,
            tilt,
            atks.3,
            rels.3,
        );
        self.bands[3] = band;
        let mut band = self.bands[4];
        let (o4l, o4r, g4l, g4r) = process_band_dynamics(
            &mut band,
            4,
            bl[4],
            br[4],
            amount,
            tilt,
            atks.4,
            rels.4,
        );
        self.bands[4] = band;
        let wet_l = o0l + o1l + o2l + o3l + o4l;
        let wet_r = o0r + o1r + o2r + o3r + o4r;
        let d0 = crate::approx::gain_to_db((g0l + g0r) / 2);
        let m0 = if d0 > 0 {
            0
        } else {
            d0
        };
        let d1 = crate::approx::gain_to_db((g1l + g1r) / 2);
        let m1 = if d1 > 0 {
            0
        } else {
            d1
        };
        let d2 = crate::approx::gain_to_db((g2l + g2r) / 2);
        let m2 = if d2 > 0 {
            0
        } else {
            d2
        };
        let d3 = crate::approx::gain_to_db((g3l + g3r) / 2);
        let m3 = if d3 > 0 {
            0
        } else {
            d3
        };
        let d4 = crate::approx::gain_to_db((g4l + g4r) / 2);
        let m4 = if d4 > 0 {
            0
        } else {
            d4
        };
        (
            wet_l,
            wet_r,
            (g0l, g1l, g2l, g3l, g4l),
            (g0r, g1r, g2r, g3r, g4r),
            m0 + m1 + m2 + m3 + m4,
        )
    }

    /// The serial reactive-EQ stage of one stereo sample: the summed wet
    /// pair runs through all five bands' compensation filters in order,
    /// each re-aimed from the gain reduction its band applied this sample.
    #[verifier::rlimit(100)]
    fn run_band_eq(
        &mut self,
        wet_l: i64,
        wet_r: i64,
        amount: i64,
        tilt: i64,
        gains_l: (i64, i64, i64, i64, i64),
        gains_r: (i64, i64, i64, i64, i64),
        centers: (i64, i64, i64, i64, i64),
    ) -> (out: (i64, i64))
        requires
            MIN_SAMPLE_RATE <= old(self).sample_rate <= MAX_SAMPLE_RATE,
            forall|i: int| 0 <= i < 5 ==> (#[trigger] old(self).bands@[i]).wf(),
            -327680 <= wet_l <= 327680,
            -327680 <= wet_r <= 327680,
            0 <= amount <= ONE,
            -ONE <= tilt <= ONE,
            1 <= gains_l.0 <= ONE && 1 <= gains_l.1 <= ONE && 1 <= gains_l.2 <= ONE && 1
                <= gains_l.3 <= ONE && 1 <= gains_l.4 <= ONE,
            1 <= gains_r.0 <= ONE && 1 <= gains_r.1 <= ONE && 1 <= gains_r.2 <= ONE && 1
                <= gains_r.3 <= ONE && 1 <= gains_r.4 <= ONE,
            0 <= centers.0 <= crate::dsp::FREQ_MAX,
            0 <= centers.1 <= crate::dsp::FREQ_MAX,
            0 <= centers.2 <= crate::dsp::FREQ_MAX,
            0 <= centers.3 <= crate::dsp::FREQ_MAX,
            0 <= centers.4 <= crate::dsp::FREQ_MAX,
        ensures
            forall|i: int| 0 <= i < 5 ==> (#[trigger] final(self).bands@[i]).wf(),
            forall|i: int|
                0 <= i < 5 ==> (#[trigger] final(self).bands@[i]).envelope_l == old(self).bands@[i].envelope_l && final(self).bands@[i].envelope_r == old(self).bands@[i].envelope_r && final(self).bands@[i].applied_gr_smoother_l == old(self).bands@[i].applied_gr_smoother_l && final(self).bands@[i].applied_gr_smoother_r
                    == old(self).bands@[i].applied_gr_smoother_r,
            final(self).crossovers == old(self).crossovers,
            final(self).sample_rate == old(self).sample_rate,
            final(self).dry_rms_tracker == old(self).dry_rms_tracker,
            final(self).wet_rms_tracker == old(self).wet_rms_tracker,
            final(self).loudness_correction_smoother == old(self).loudness_correction_smoother,
            final(self).gr_meter_smoother == old(self).gr_meter_smoother,
            -AMP_MAX <= out.0 <= AMP_MAX,
            -AMP_MAX <= out.1 <= AMP_MAX,
            ({
                let q0 = spec_eq_params(
                    0,
                    amount as int,
                    tilt as int,
                    gains_l.0 as int,
                    gains_r.0 as int,
                );
                let c0 = crate::biquad::spec_peaking(
                    old(self).sample_rate as int,
                    centers.0 as int,
                    q0.0,
                    q0.1,
                );
                let e0l = spec_biquad_step(c0, old(self).bands@[0].compensation_eq.state_l, wet_l as int);
                let e0r = spec_biquad_step(c0, old(self).bands@[0].compensation_eq.state_r, wet_r as int);
                let q1 = spec_eq_params(
                    1,
                    amount as int,
                    tilt as int,
                    gains_l.1 as int,
                    gains_r.1 as int,
                );
                let c1 = crate::biquad::spec_peaking(
                    old(self).sample_rate as int,
                    centers.1 as int,
                    q1.0,
                    q1.1,
                );
                let e1l = spec_biquad_step(c1, old(self).bands@[1].compensation_eq.state_l, e0l.0);
                let e1r = spec_biquad_step(c1, old(self).bands@[1].compensation_eq.state_r, e0r.0);
                let q2 = spec_eq_params(
                    2,
                    amount as int,
                    tilt as int,
                    gains_l.2 as int,
                    gains_r.2 as int,
                );
                let c2 = crate::biquad::spec_peaking(
                    old(self).sample_rate as int,
                    centers.2 as int,
                    q2.0,
                    q2.1,
                );
                let e2l = spec_biquad_step(c2, old(self).bands@[2].compensation_eq.state_l, e1l.0);
                let e2r = spec_biquad_step(c2, old(self).bands@[2].compensation_eq.state_r, e1r.0);
                let q3 = spec_eq_params(
                    3,
                    amount as int,
                    tilt as int,
                    gains_l.3 as int,
                    gains_r.3 as int,
                );
                let c3 = crate::biquad::spec_peaking(
                    old(self).sample_rate as int,
                    centers.3 as int,
                    q3.0,
                    q3.1,
                );
                let e3l = spec_biquad_step(c3, old(self).bands@[3].compensation_eq.state_l, e2l.0);
                let e3r = spec_biquad_step(c3, old(self).bands@[3].compensation_eq.state_r, e2r.0);
                let q4 = spec_eq_params(
                    4,
                    amount as int,
                    tilt as int,
                    gains_l.4 as int,
                    gains_r.4 as int,
                );
                let c4 = crate::biquad::spec_peaking(
                    old(self).sample_rate as int,
                    centers.4 as int,
                    q4.0,
                    q4.1,
                );
                let e4l = spec_biquad_step(c4, old(self).bands@[4].compensation_eq.state_l, e3l.0);
                let e4r = spec_biquad_step(c4, old(self).bands@[4].compensation_eq.state_r, e3r.0);
                &&& final(self).bands@[0].compensation_eq == (Biquad {
                    coefs: c0,
                    state_l: e0l.1,
                    state_r: e0r.1,
                })
                &&& final(self).bands@[1].compensation_eq == (Biquad {
                    coefs: c1,
                    state_l: e1l.1,
                    state_r: e1r.1,
                })
                &&& final(self).bands@[2].compensation_eq == (Biquad {
                    coefs: c2,
                    state_l: e2l.1,
                    state_r: e2r.1,
                })
                &&& final(self).bands@[3].compensation_eq == (Biquad {
                    coefs: c3,
                    state_l: e3l.1,
                    state_r: e3r.1,
                })
                &&& final(self).bands@[4].compensation_eq == (Biquad {
                    coefs: c4,
                    state_l: e4l.1,
                    state_r: e4r.1,
                })
                &&& out.0 as int == e4l.0
                &&& out.1 as int == e4r.0
            }),
            (wet_l == 0 && wet_r == 0 && (forall|i: int|
                0 <= i < 5 ==> (#[trigger] old(self).bands@[i]).compensation_eq.is_reset()))
                ==> (out.0 == 0 && out.1 == 0 && (forall|i: int|
                0 <= i < 5 ==> (#[trigger] final(self).bands@[i]).compensation_eq.is_reset())),
    {
        let rate = self.sample_rate;
        let mut band = self.bands[0];
        let (wl1, wr1) = process_band_eq(
            &mut band,
            0,
            wet_l,
            wet_r,
            amount,
            tilt,
            gains_l.0,
            gains_r.0,
            rate,
            centers.0,
        );
        self.bands[0] = band;
        let mut band = self.bands[1];
        let (wl2, wr2) = process_band_eq(
            &mut band,
            1,
            wl1,
            wr1,
            amount,
            tilt,
            gains_l.1,
            gains_r.1,
            rate,
            centers.1,
        );
        self.bands[1] = band;
        let mut band = self.bands[2];
        let (wl3, wr3) = process_band_eq(
            &mut band,
            2,
            wl2,
            wr2,
            amount,
            tilt,
            gains_l.2,
            gains_r.2,
            rate,
            centers.2,
        );
        self.bands[2] = band;
        let mut band = self.bands[3];
        let (wl4, wr4) = process_band_eq(
            &mut band,
            3,
            wl3,
            wr3,
            amount,
            tilt,
            gains_l.3,
            gains_r.3,
            rate,
            centers.3,
        );
        self.bands[3] = band;
        let mut band = self.bands[4];
        let (wl5, wr5) = process_band_eq(
            &mut band,
            4,
            wl4,
            wr4,
            amount,
            tilt,
            gains_l.4,
            gains_r.4,
            rate,
            centers.4,
        );
        self.bands[4] = band;
        (wl5, wr5)
    }

    /// One stereo sample through the whole chain: dry-power tracking, the
    /// loudness smoother's step, the band split, the parallel dynamics, the
    /// serial reactive EQ, the loudness correction, and the constant-power
    /// mix with the output trim.  The wet power is tracked before the
    /// correction is applied, so the correction target computed from it is
    /// exactly the gain that matches the wet level to the dry level, and
    /// the loudness loop converges.  Returns the output pair, the dry and
    /// wet power contributions, and this sample's (non-positive)
    /// gain-reduction sum.
    #[verifier::rlimit(100)]
    fn process_one_sample(
        &mut self,
        l: i64,
        r: i64,
        amount: i64,
        tilt: i64,
        corr_target: i64,
        dry_gain: i64,
        wet_gain: i64,
        output_gain: i64,
        centers: (i64, i64, i64, i64, i64),
        atks: (i64, i64, i64, i64, i64),
        rels: (i64, i64, i64, i64, i64),
    ) -> (out: (i64, i64, i64, i64, i64))
        requires
            MIN_SAMPLE_RATE <= old(self).sample_rate <= MAX_SAMPLE_RATE,
            forall|j: int| 0 <= j < 4 ==> (#[trigger] old(self).crossovers@[j]).wf(),
            forall|i: int| 0 <= i < 5 ==> (#[trigger] old(self).bands@[i]).wf(),
            old(self).loudness_correction_smoother.wf(),
            CORR_MIN <= old(self).loudness_correction_smoother.value <= CORR_MAX,
            -AMP_MAX <= l <= AMP_MAX,
            -AMP_MAX <= r <= AMP_MAX,
            0 <= amount <= ONE,
            -ONE <= tilt <= ONE,
            CORR_MIN <= corr_target <= CORR_MAX,
            0 <= dry_gain <= ONE,
            0 <= wet_gain <= ONE,
            1 <= output_gain <= 1048576,
            0 <= centers.0 <= crate::dsp::FREQ_MAX,
            0 <= centers.1 <= crate::dsp::FREQ_MAX,
            0 <= centers.2 <= crate::dsp::FREQ_MAX,
            0 <= centers.3 <= crate::dsp::FREQ_MAX,
            0 <= centers.4 <= crate::dsp::FREQ_MAX,
            1 <= atks.0 <= ONE && 1 <= atks.1 <= ONE && 1 <= atks.2 <= ONE && 1 <= atks.3 <= ONE
                && 1 <= atks.4 <= ONE,
            1 <= rels.0 <= ONE && 1 <= rels.1 <= ONE && 1 <= rels.2 <= ONE && 1 <= rels.3 <= ONE
                && 1 <= rels.4 <= ONE,
        ensures
            forall|j: int| 0 <= j < 4 ==> (#[trigger] final(self).crossovers@[j]).wf(),
            forall|i: int| 0 <= i < 5 ==> (#[trigger] final(self).bands@[i]).wf(),
            final(self).sample_rate == old(self).sample_rate,
            final(self).dry_rms_tracker == old(self).dry_rms_tracker,
            final(self).wet_rms_tracker == old(self).wet_rms_tracker,
            final(self).gr_meter_smoother == old(self).gr_meter_smoother,
            final(self).loudness_correction_smoother.wf(),
            final(self).loudness_correction_smoother.alpha == old(self).loudness_correction_smoother.alpha,
            CORR_MIN <= final(self).loudness_correction_smoother.value <= CORR_MAX,
            -2147483648 <= out.0 <= 2147483648,
            -2147483648 <= out.1 <= 2147483648,
            0 <= out.2 <= 68719476736,
            0 <= out.3 <= 68719476736,
            out.2 == spec_sample_power(l as int, r as int),
            -32768000 <= out.4 <= 0,
            ({
                let bp = (BlockParams {
                    rate: old(self).sample_rate as int,
                    amount: amount as int,
                    tilt: tilt as int,
                    corr_target: corr_target as int,
                    dry_gain: dry_gain as int,
                    wet_gain: wet_gain as int,
                    output_gain: output_gain as int,
                    centers: (
                        centers.0 as int,
                        centers.1 as int,
                        centers.2 as int,
                        centers.3 as int,
                        centers.4 as int,
                    ),
                    atks: (
                        atks.0 as int,
                        atks.1 as int,
                        atks.2 as int,
                        atks.3 as int,
                        atks.4 as int,
                    ),
                    rels: (
                        rels.0 as int,
                        rels.1 as int,
                        rels.2 as int,
                        rels.3 as int,
                        rels.4 as int,
                    ),
                });
                let step = spec_engine_sample(engine_state_of(*old(self)), l as int, r as int, bp);
                &&& engine_state_of(*final(self)) == step.0
                &&& out.0 as int == step.1
                &&& out.1 as int == step.2
                &&& out.2 as int == step.3
                &&& out.3 as int == step.4
                &&& out.4 as int == step.5
            }),

            (dry_gain == ONE && wet_gain == 0 && output_gain == ONE) ==> (out.0 == l && out.1
                == r),
            (l == 0 && r == 0 && corr_target == ONE && (forall|j: int|
                0 <= j < 4 ==> (#[trigger] old(self).crossovers@[j]).is_reset()) && (forall|i: int|
                0 <= i < 5 ==> (#[trigger] old(self).bands@[i]).is_reset()) && old(self).loudness_correction_smoother.value == ONE) ==> (out.0 == 0 && out.1 == 0 && out.2
                == 0 && out.3 == 0 && out.4 == 0 && (forall|j: int|
                0 <= j < 4 ==> (#[trigger] final(self).crossovers@[j]).is_reset()) && (forall|i: int|
                0 <= i < 5 ==> (#[trigger] final(self).bands@[i]).is_reset()) && final(self).loudness_correction_smoother.value == ONE),
    {
        let ghost quiet = l == 0 && r == 0 && corr_target == ONE && (forall|j: int|
            0 <= j < 4 ==> (#[trigger] old(self).crossovers@[j]).is_reset()) && (forall|i: int|
            0 <= i < 5 ==> (#[trigger] old(self).bands@[i]).is_reset()) && old(self).loudness_correction_smoother.value == ONE;
        let pl = q_mul(l, l);
        let pr = q_mul(r, r);
        proof {
            lemma_q_mul_sign(l as int, l as int);
            lemma_q_mul_sign(r as int, r as int);
            lemma_q_mul_bound(l as int, l as int, AMP_MAX as int, AMP_MAX as int);
            lemma_q_mul_bound(r as int, r as int, AMP_MAX as int, AMP_MAX as int);
            assert(67108864 * 67108864 == 68719476736 * 65536) by (nonlinear_arith);
            lemma_div_mul_cancel(68719476736);
            lemma_q_mul_range((pl + pr) as int, 32768, 137438953472, 32768);
            assert(137438953472 * 32768 == 68719476736 * 65536) by (nonlinear_arith);
            if quiet {
                lemma_q_mul_zero(0);
                lemma_q_mul_zero(32768);
            }
        }
        let dry_p = q_mul(pl + pr, 32768);
        proof {
            lemma_smoother_step_range(
                self.loudness_correction_smoother.value as int,
                corr_target as int,
                self.loudness_correction_smoother.alpha as int,
                CORR_MIN as int,
                CORR_MAX as int,
            );
        }
        self.loudness_correction_smoother.step(corr_target);
        let corr = self.loudness_correction_smoother.value;
        let (bl, br) = self.split_bands(l, r);
        let dyn_out = self.run_band_dynamics(bl, br, amount, tilt, atks, rels);
        let wet_l = dyn_out.0;
        let wet_r = dyn_out.1;
        let gains_l = dyn_out.2;
        let gains_r = dyn_out.3;
        let gr_s = dyn_out.4;
        let eq_out = self.run_band_eq(wet_l, wet_r, amount, tilt, gains_l, gains_r, centers);
        let wl5 = eq_out.0;
        let wr5 = eq_out.1;
        proof {
            if quiet {
                lemma_q_mul_zero(corr as int);
            }
        }
        let ql = q_mul(wl5, wl5);
        let qr = q_mul(wr5, wr5);
        proof {
            lemma_q_mul_sign(wl5 as int, wl5 as int);
            lemma_q_mul_sign(wr5 as int, wr5 as int);
            lemma_q_mul_bound(wl5 as int, wl5 as int, AMP_MAX as int, AMP_MAX as int);
            lemma_q_mul_bound(wr5 as int, wr5 as int, AMP_MAX as int, AMP_MAX as int);
            assert(67108864 * 67108864 == 68719476736 * 65536) by (nonlinear_arith);
            lemma_div_mul_cancel(68719476736);
            lemma_q_mul_range((ql + qr) as int, 32768, 137438953472, 32768);
            assert(137438953472 * 32768 == 68719476736 * 65536) by (nonlinear_arith);
            if quiet {
                lemma_q_mul_zero(0);
                lemma_q_mul_zero(32768);
            }
        }
        let wet_p = q_mul(ql + qr, 32768);
        let cl = clip(q_mul(wl5, corr), -67108864, 67108864);
        let cr = clip(q_mul(wr5, corr), -67108864, 67108864);
        let dl = q_mul(l, dry_gain);
        let dr = q_mul(r, dry_gain);
        let el = q_mul(cl, wet_gain);
        let er = q_mul(cr, wet_gain);
        proof {
            lemma_q_mul_bound(l as int, dry_gain as int, AMP_MAX as int, ONE as int);
            lemma_q_mul_bound(r as int, dry_gain as int, AMP_MAX as int, ONE as int);
            lemma_q_mul_bound(cl as int, wet_gain as int, AMP_MAX as int, ONE as int);
            lemma_q_mul_bound(cr as int, wet_gain as int, AMP_MAX as int, ONE as int);
            lemma_div_mul_cancel(67108864);
            lemma_q_mul_bound((dl + el) as int, output_gain as int, 134217728, 1048576);
            lemma_q_mul_bound((dr + er) as int, output_gain as int, 134217728, 1048576);
            assert(134217728 * 1048576 == 2147483648 * 65536) by (nonlinear_arith);
            lemma_div_mul_cancel(2147483648);
            if quiet {
                lemma_q_mul_zero(dry_gain as int);
                lemma_q_mul_zero(wet_gain as int);
                lemma_q_mul_zero(output_gain as int);
            }
            if dry_gain == 65536 && wet_gain == 0 && output_gain == 65536 {
                crate::qmath::lemma_tdiv_exact(l as int, ONE as int);
                crate::qmath::lemma_tdiv_exact(r as int, ONE as int);
                lemma_q_mul_zero(cl as int);
                lemma_q_mul_zero(cr as int);
            }
        }
        let out_l = q_mul(dl + el, output_gain);
        let out_r = q_mul(dr + er, output_gain);
        (out_l, out_r, dry_p, wet_p, gr_s)
    }

    /// Process one stereo block in place and return the smoothed aggregate
    /// gain reduction in Q16.16 decibels (always at most zero).
    ///
    /// Per block: the crossovers move to their tilt-shifted frequencies,
    /// each band's center frequency and time constants are rederived, and
    /// the loudness-correction target is computed from the previous block's
    /// dry and wet power (one block of latency, for stability).  Per sample:
    /// split into five bands, saturate and compress each, re-sum, run the
    /// serial reactive EQ, apply the smoothed loudness correction, and blend
    /// dry against wet with the constant-power law before the output trim.
    ///
    /// A fully reset engine fed silence produces exactly silence, reports
    /// exactly zero gain reduction, and stays reset.
    #[verifier::loop_isolation(false)]
    #[verifier::rlimit(100)]
    pub fn process_block(
        &mut self,
        samples_l: &mut Vec<i64>,
        samples_r: &mut Vec<i64>,
        amount: i64,
        tilt: i64,
        mix: i64,
        output_db: i64,
    ) -> (gr_db: i64)
        requires
            old(self).wf(),
            old(samples_l)@.len() == old(samples_r)@.len(),
            old(samples_l)@.len() <= MAX_BLOCK,
            forall|k: int|
                0 <= k < old(samples_l)@.len() ==> -AMP_MAX <= #[trigger] old(samples_l)@[k]
                    <= AMP_MAX,
            forall|k: int|
                0 <= k < old(samples_r)@.len() ==> -AMP_MAX <= #[trigger] old(samples_r)@[k]
                    <= AMP_MAX,
            0 <= amount <= ONE,
            -ONE <= tilt <= ONE,
            0 <= mix <= ONE,
            -1572864 <= output_db <= 1572864,
        ensures
            final(self).wf(),
            final(self).sample_rate == old(self).sample_rate,
            final(samples_l)@.len() == old(samples_l)@.len(),
            final(samples_r)@.len() == old(samples_r)@.len(),
            forall|k: int|
                0 <= k < final(samples_l)@.len() ==> -2147483648 <= #[trigger] final(samples_l)@[k]
                    <= 2147483648,
            forall|k: int|
                0 <= k < final(samples_r)@.len() ==> -2147483648 <= #[trigger] final(samples_r)@[k]
                    <= 2147483648,
            crate::approx::DB_MIN <= gr_db <= 0,
            gr_db == final(self).gr_meter_smoother.value,
            old(samples_l)@.len() > 0 ==> final(self).dry_rms_tracker == crate::qmath::tdiv(
                spec_power_sum(old(samples_l)@, old(samples_r)@, old(samples_l)@.len() as int),
                old(samples_l)@.len() as int,
            ),
            old(samples_l)@.len() == 0 ==> final(self).dry_rms_tracker == old(self).dry_rms_tracker && final(self).wet_rms_tracker == old(self).wet_rms_tracker && final(self).gr_meter_smoother == old(self).gr_meter_smoother,
            ({
                let bp = spec_block_params(
                    *old(self),
                    amount as int,
                    tilt as int,
                    mix as int,
                    output_db as int,
                );
                let run = spec_engine_run(
                    spec_block_start(*old(self), tilt as int),
                    old(samples_l)@,
                    old(samples_r)@,
                    old(samples_l)@.len() as int,
                    bp,
                );
                let len = old(samples_l)@.len() as int;
                &&& final(samples_l)@ == run.1
                &&& final(samples_r)@ == run.2
                &&& engine_state_of(*final(self)) == run.0
                &&& len > 0 ==> final(self).dry_rms_tracker as int == crate::qmath::tdiv(
                    run.3,
                    len,
                ) && final(self).wet_rms_tracker as int == crate::qmath::tdiv(run.4, len) && final(self).gr_meter_smoother.value as int == spec_smoother_step(
                    old(self).gr_meter_smoother.value as int,
                    spec_clip(crate::qmath::tdiv(run.5, len), crate::approx::DB_MIN as int, 0),
                    old(self).gr_meter_smoother.alpha as int,
                )
            }),
            (mix == 0 && output_db == 0) ==> prefix_eq(
                final(samples_l)@,
                old(samples_l)@,
                final(samples_l)@.len() as int,
            ) && prefix_eq(final(samples_r)@, old(samples_r)@, final(samples_r)@.len() as int),
            (old(self).is_neutral() && all_zero(old(samples_l)@) && all_zero(old(samples_r)@))
                ==> (final(self).is_neutral() && gr_db == 0 && all_zero(final(samples_l)@)
                && all_zero(final(samples_r)@)),
    {
        let ghost silent = old(self).is_neutral() && all_zero(old(samples_l)@) && all_zero(
            old(samples_r)@,
        );
        let len = samples_l.len();
        self.update_crossover_filters(tilt);
        let rate = self.sample_rate;
        let s0 = crate::dsp::shift_frequency(base_crossover_freq(0), tilt);
        let s1 = crate::dsp::shift_frequency(base_crossover_freq(1), tilt);
        let s2 = crate::dsp::shift_frequency(base_crossover_freq(2), tilt);
        let s3 = crate::dsp::shift_frequency(base_crossover_freq(3), tilt);
        let nyq = (rate / 2) * 65536;
        let c0 = band_center(1310720, s0);
        let c1 = band_center(s0, s1);
        let c2 = band_center(s1, s2);
        let c3 = band_center(s2, s3);
        let c4 = band_center(s3, nyq);
        let (atk0, rel0) = band_alphas(rate, c0, 0, amount);
        let (atk1, rel1) = band_alphas(rate, c1, 1, amount);
        let (atk2, rel2) = band_alphas(rate, c2, 2, amount);
        let (atk3, rel3) = band_alphas(rate, c3, 3, amount);
        let (atk4, rel4) = band_alphas(rate, c4, 4, amount);
        proof {
            reveal(crate::engine::spec_corr_target);
        }
        let corr_target = if self.dry_rms_tracker >= 1 && self.wet_rms_tracker >= 1 {
            let ratio = clip(
                crate::qmath::q_div(self.dry_rms_tracker, self.wet_rms_tracker),
                0,
                1099511627776,
            );
            clip(crate::approx::q_sqrt(ratio), 4096, 1048576)
        } else {
            65536
        };
        let dry_gain = crate::approx::cos_half_pi(mix);
        let wet_gain = crate::approx::sin_half_pi(mix);
        let output_gain = crate::approx::db_to_gain(output_db);
        let ghost bp = spec_block_params(
            *old(self),
            amount as int,
            tilt as int,
            mix as int,
            output_db as int,
        );
        let ghost st0 = spec_block_start(*old(self), tilt as int);
        proof {
            assert(bp == (BlockParams {
                rate: old(self).sample_rate as int,
                amount: amount as int,
                tilt: tilt as int,
                corr_target: corr_target as int,
                dry_gain: dry_gain as int,
                wet_gain: wet_gain as int,
                output_gain: output_gain as int,
                centers: (c0 as int, c1 as int, c2 as int, c3 as int, c4 as int),
                atks: (atk0 as int, atk1 as int, atk2 as int, atk3 as int, atk4 as int),
                rels: (rel0 as int, rel1 as int, rel2 as int, rel3 as int, rel4 as int),
            }));
            assert(engine_state_of(*self) == st0);
            assert(samples_l@.subrange(0, 0) =~= Seq::<i64>::empty());
            assert(samples_r@.subrange(0, 0) =~= Seq::<i64>::empty());
        }
        let mut in_sum: i64 = 0;
        let mut wet_sum: i64 = 0;
        let mut gr_sum: i64 = 0;
        let mut n: usize = 0;
        while n < len
            invariant
                n <= len,
                samples_l@.len() == len,
                samples_r@.len() == len,
                forall|k: int| n <= k < len ==> samples_l@[k] == old(samples_l)@[k],
                forall|k: int| n <= k < len ==> samples_r@[k] == old(samples_r)@[k],
                forall|k: int|
                    0 <= k < n ==> -2147483648 <= #[trigger] samples_l@[k] <= 2147483648,
                forall|k: int|
                    0 <= k < n ==> -2147483648 <= #[trigger] samples_r@[k] <= 2147483648,
                forall|j: int| 0 <= j < 4 ==> (#[trigger] self.crossovers@[j]).wf(),
                forall|i: int| 0 <= i < 5 ==> (#[trigger] self.bands@[i]).wf(),
                self.sample_rate == old(self).sample_rate,
                self.dry_rms_tracker == old(self).dry_rms_tracker,
                self.wet_rms_tracker == old(self).wet_rms_tracker,
                self.gr_meter_smoother == old(self).gr_meter_smoother,
                self.loudness_correction_smoother.wf(),
                self.loudness_correction_smoother.alpha == old(self).loudness_correction_smoother.alpha,
                CORR_MIN <= self.loudness_correction_smoother.value <= CORR_MAX,
                0 <= in_sum <= (n as int) * 68719476736,
                in_sum == spec_power_sum(old(samples_l)@, old(samples_r)@, n as int),
                0 <= wet_sum <= (n as int) * 68719476736,
                (mix == 0 && output_db == 0) ==> prefix_eq(samples_l@, old(samples_l)@, n as int)
                    && prefix_eq(samples_r@, old(samples_r)@, n as int),
                -((n as int) * 32768000) <= gr_sum <= 0,
                ({
                    let run = spec_engine_run(
                        st0,
                        old(samples_l)@,
                        old(samples_r)@,
                        n as int,
                        bp,
                    );
                    &&& engine_state_of(*self) == run.0
                    &&& samples_l@.subrange(0, n as int) == run.1
                    &&& samples_r@.subrange(0, n as int) == run.2
                    &&& in_sum == run.3
                    &&& wet_sum == run.4
                    &&& gr_sum == run.5
                }),
                silent ==> ((forall|j: int|
                    0 <= j < 4 ==> (#[trigger] self.crossovers@[j]).is_reset()) && (forall|i: int|
                    0 <= i < 5 ==> (#[trigger] self.bands@[i]).is_reset())
                    && self.loudness_correction_smoother.value == ONE && in_sum == 0 && wet_sum
                    == 0 && gr_sum == 0 && zero_prefix(samples_l@, n as int) && zero_prefix(
                    samples_r@,
                    n as int,
                )),
            decreases len - n,
        {
            let l = samples_l[n];
            let r = samples_r[n];
            let (out_l, out_r, dry_p, wet_p, gr_s) = self.process_one_sample(
                l,
                r,
                amount,
                tilt,
                corr_target,
                dry_gain,
                wet_gain,
                output_gain,
                (c0, c1, c2, c3, c4),
                (atk0, atk1, atk2, atk3, atk4),
                (rel0, rel1, rel2, rel3, rel4),
            );
            in_sum = in_sum + dry_p;
            wet_sum = wet_sum + wet_p;
            gr_sum = gr_sum + gr_s;
            proof {
                if mix == 0 && output_db == 0 {
                    assert(out_l == l && out_r == r);
                }
            }
            samples_l[n] = out_l;
            samples_r[n] = out_r;
            proof {
                let run_n = spec_engine_run(st0, old(samples_l)@, old(samples_r)@, n as int, bp);
                let step = spec_engine_sample(
                    run_n.0,
                    old(samples_l)@[n as int] as int,
                    old(samples_r)@[n as int] as int,
                    bp,
                );
                assert(samples_l@.subrange(0, n as int + 1) =~= run_n.1.push(step.1 as i64));
                assert(samples_r@.subrange(0, n as int + 1) =~= run_n.2.push(step.2 as i64));
            }
            n = n + 1;
        }
        proof {
            assert(samples_l@.subrange(0, len as int) =~= samples_l@);
            assert(samples_r@.subrange(0, len as int) =~= samples_r@);
        }
        if len > 0 {
            let li = len as i64;
            proof {
                vstd::arithmetic::div_mod::lemma_div_pos_is_pos(in_sum as int, li as int);
                vstd::arithmetic::div_mod::lemma_div_pos_is_pos(wet_sum as int, li as int);
                vstd::arithmetic::div_mod::lemma_div_is_ordered(
                    in_sum as int,
                    (li as int) * 68719476736,
                    li as int,
                );
                vstd::arithmetic::div_mod::lemma_div_is_ordered(
                    wet_sum as int,
                    (li as int) * 68719476736,
                    li as int,
                );
                vstd::arithmetic::div_mod::lemma_div_multiples_vanish(68719476736, li as int);
                vstd::arithmetic::div_mod::lemma_div_of0(li as int);
                if gr_sum < 0 {
                    vstd::arithmetic::div_mod::lemma_div_pos_is_pos(-(gr_sum as int), li as int);
                }
            }
            self.dry_rms_tracker = in_sum / li;
            self.wet_rms_tracker = wet_sum / li;
            let avg_gr = gr_sum / li;
            let tgt = clip(avg_gr, -6553600, 0);
            proof {
                lemma_smoother_step_range(
                    self.gr_meter_smoother.value as int,
                    tgt as int,
                    self.gr_meter_smoother.alpha as int,
                    crate::approx::DB_MIN as int,
                    0,
                );
            }
            self.gr_meter_smoother.step(tgt);
        }
        self.gr_meter_smoother.value
    }
}

} // verus!
