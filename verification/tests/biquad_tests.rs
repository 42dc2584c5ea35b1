//! Tests of the biquad sections: cookbook coefficients, the
//! transposed-direct-form-2 recurrence, and long-run boundedness.

use colorfall::biquad::AMP_MAX;
use colorfall::biquad::Biquad;
use colorfall::biquad::BiquadCoefficients;

const ONE: i64 = 65536;

#[test]
fn lr_lowpass_coefficients_known_values() {
    let c = BiquadCoefficients::calculate_lr_lowpass(44100, 1000 * ONE);
    assert_eq!(c.b0, 303);
    assert_eq!(c.b1, 607);
    assert_eq!(c.b2, 303);
    assert_eq!(c.a1, -117900);
    assert_eq!(c.a2, 53578);
}

#[test]
fn peaking_coefficients_known_values() {
    let c = BiquadCoefficients::calculate_peaking(44100, 1000 * ONE, ONE, 6 * ONE);
    assert_eq!(c.b0, 72247);
    assert_eq!(c.b1, -125280);
    assert_eq!(c.b2, 54322);
    assert_eq!(c.a1, -125280);
    assert_eq!(c.a2, 61034);
}

#[test]
fn lowpass_passes_dc_and_attenuates_nyquist() {
    // drive the filter with a constant; it must settle near unity gain
    let mut f = Biquad::default();
    f.update_lr_lowpass(44100, 1000 * ONE);
    let mut last = (0i64, 0i64);
    for _ in 0..20000 {
        last = f.process(ONE / 2, ONE / 2);
    }
    let dc = last.0 as f64 / (ONE / 2) as f64;
    assert!((dc - 1.0).abs() < 0.02, "dc gain {dc}");
    // alternate at the sample rate's half; the lowpass must crush it
    f.reset();
    let mut peak: i64 = 0;
    let mut x = ONE / 2;
    for k in 0..20000 {
        let (l, _) = f.process(x, x);
        if k > 10000 && l.abs() > peak {
            peak = l.abs();
        }
        x = -x;
    }
    assert!(peak < ONE / 50, "nyquist leak {peak}");
}

#[test]
fn process_recurrence_first_sample() {
    // with zero state the first output is exactly b0 * x (truncated)
    let mut f = Biquad::default();
    f.update_lr_lowpass(48000, 2000 * ONE);
    let c = BiquadCoefficients::calculate_lr_lowpass(48000, 2000 * ONE);
    let x = 3 * ONE / 2;
    let (l, r) = f.process(x, x);
    let expected = (c.b0 as i128 * x as i128 / 65536) as i64;
    assert_eq!(l, expected);
    assert_eq!(r, expected);
}

#[test]
fn channels_are_independent() {
    let mut f = Biquad::default();
    f.update_lr_lowpass(44100, 500 * ONE);
    let (_, r) = f.process(ONE, 0);
    assert_eq!(r, 0);
    let (_, r2) = f.process(ONE / 2, 0);
    assert_eq!(r2, 0);
}

#[test]
fn state_survives_coefficient_update() {
    let mut f = Biquad::default();
    f.update_lr_lowpass(44100, 500 * ONE);
    for _ in 0..100 {
        f.process(ONE / 2, -(ONE / 2));
    }
    // retune mid-stream: the very next output must not restart from silence
    f.update_lr_lowpass(44100, 5000 * ONE);
    let (l, r) = f.process(0, 0);
    assert!(l != 0 || r != 0, "memory was lost on retune");
}

#[test]
fn reset_clears_memory() {
    let mut f = Biquad::default();
    f.update_lr_lowpass(44100, 500 * ONE);
    for _ in 0..100 {
        f.process(ONE / 2, ONE / 2);
    }
    f.reset();
    let (l, r) = f.process(0, 0);
    assert_eq!(l, 0);
    assert_eq!(r, 0);
}

#[test]
fn process_stays_bounded_over_a_million_noise_samples() {
    // a linear congruential generator gives unit-amplitude noise; the
    // filter output must stay inside its headroom cap at every step
    let mut f = Biquad::default();
    f.update_lr_lowpass(44100, 9000 * ONE);
    let mut state: u64 = 0x12345678;
    for _ in 0..1_000_000u32 {
        state = state.wrapping_mul(6364136223846793005).wrapping_add(1442695040888963407);
        let x = ((state >> 33) as i64 % (2 * ONE + 1)) - ONE;
        let (l, r) = f.process(x, x);
        assert!(l.abs() <= AMP_MAX && r.abs() <= AMP_MAX);
    }
}

#[test]
fn peaking_stays_bounded_over_a_million_noise_samples() {
    let mut f = Biquad::default();
    f.update_peaking(44100, 4000 * ONE, 10 * ONE, 6 * ONE);
    let mut state: u64 = 0xdeadbeef;
    for _ in 0..1_000_000u32 {
        state = state.wrapping_mul(6364136223846793005).wrapping_add(1442695040888963407);
        let x = ((state >> 33) as i64 % (2 * ONE + 1)) - ONE;
        let (l, r) = f.process(x, x);
        assert!(l.abs() <= AMP_MAX && r.abs() <= AMP_MAX);
    }
}
