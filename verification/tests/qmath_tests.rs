//! Tests of the fixed-point primitives and curve approximations.

use colorfall::approx::alpha_from_samples;
use colorfall::approx::cos_half_pi;
use colorfall::approx::db_to_gain;
use colorfall::approx::exp2_q;
use colorfall::approx::gain_to_db;
use colorfall::approx::isqrt;
use colorfall::approx::q_sqrt;
use colorfall::approx::sin_half_pi;
use colorfall::qmath::clip;
use colorfall::qmath::q_div;
use colorfall::qmath::q_mul;

const ONE: i64 = 65536;

#[test]
fn clip_limits_and_passes_through() {
    assert_eq!(clip(5, 0, 10), 5);
    assert_eq!(clip(-3, 0, 10), 0);
    assert_eq!(clip(42, 0, 10), 10);
    assert_eq!(clip(-100, -50, 50), -50);
}

#[test]
fn q_mul_matches_fixed_point_product() {
    assert_eq!(q_mul(ONE, ONE), ONE);
    assert_eq!(q_mul(ONE / 2, ONE / 2), ONE / 4);
    assert_eq!(q_mul(3 * ONE, -2 * ONE), -6 * ONE);
    assert_eq!(q_mul(0, 123456), 0);
}

#[test]
fn q_mul_truncates_toward_zero_symmetrically() {
    // 0.5 * 3/65536 = 1.5/65536, truncated to 1/65536 on both signs
    assert_eq!(q_mul(ONE / 2, 3), 1);
    assert_eq!(q_mul(-(ONE / 2), 3), -1);
    assert_eq!(q_mul(ONE / 2, -3), -1);
}

#[test]
fn q_div_matches_fixed_point_quotient() {
    assert_eq!(q_div(ONE, 2 * ONE), ONE / 2);
    assert_eq!(q_div(-ONE, 2 * ONE), -(ONE / 2));
    assert_eq!(q_div(3 * ONE, ONE), 3 * ONE);
    // a non-positive divisor yields zero by definition
    assert_eq!(q_div(ONE, 0), 0);
    assert_eq!(q_div(ONE, -5), 0);
}

#[test]
fn isqrt_exact_values() {
    assert_eq!(isqrt(0), 0);
    assert_eq!(isqrt(1), 1);
    assert_eq!(isqrt(3), 1);
    assert_eq!(isqrt(4), 2);
    assert_eq!(isqrt(999999), 999);
    assert_eq!(isqrt(1000000), 1000);
    assert_eq!(isqrt(i64::MAX), 3037000499);
}

#[test]
fn q_sqrt_exact_on_perfect_squares() {
    assert_eq!(q_sqrt(0), 0);
    assert_eq!(q_sqrt(ONE), ONE);
    assert_eq!(q_sqrt(4 * ONE), 2 * ONE);
    assert_eq!(q_sqrt(ONE / 4), ONE / 2);
}

#[test]
fn exp2_octaves_are_exact() {
    assert_eq!(exp2_q(0), ONE);
    assert_eq!(exp2_q(ONE), 2 * ONE);
    assert_eq!(exp2_q(-ONE), ONE / 2);
    assert_eq!(exp2_q(3 * ONE), 8 * ONE);
}

#[test]
fn exp2_fractional_close_to_ideal() {
    // 2^0.5 = 1.41421...; the cubic stays within about 0.02 % here
    let r = exp2_q(ONE / 2);
    let ideal = 92682; // round(sqrt(2) * 65536)
    assert!((r - ideal).abs() < 40, "exp2(0.5) = {r}");
}

#[test]
fn gain_db_round_trip_at_reference_points() {
    assert_eq!(gain_to_db(ONE), 0);
    assert_eq!(db_to_gain(0), ONE);
    // -6.02 dB is half gain
    let d = gain_to_db(ONE / 2);
    assert_eq!(d, -394566);
    let g = db_to_gain(-393216); // -6 dB
    assert!((g - 32846).abs() <= 2, "db_to_gain(-6 dB) = {g}");
}

#[test]
fn gain_to_db_floors_silence() {
    assert_eq!(gain_to_db(0), -6553600);
    assert_eq!(gain_to_db(-7), -6553600);
}

#[test]
fn db_to_gain_never_reaches_zero() {
    assert!(db_to_gain(-6553600) >= 1);
    assert!(db_to_gain(i64::MIN / 4) >= 1);
}

#[test]
fn quarter_wave_sine_endpoints_exact() {
    assert_eq!(sin_half_pi(0), 0);
    assert_eq!(sin_half_pi(ONE), ONE);
    assert_eq!(cos_half_pi(0), ONE);
    assert_eq!(cos_half_pi(ONE), 0);
}

#[test]
fn quarter_wave_sine_midpoint() {
    // sin(pi/4) = cos(pi/4) = 0.70711
    assert_eq!(sin_half_pi(ONE / 2), 46341);
    assert_eq!(cos_half_pi(ONE / 2), 46341);
}

#[test]
fn constant_power_mix_preserves_energy_within_tolerance() {
    // cos^2 + sin^2 stays near one across the whole crossfade
    let mut u: i64 = 0;
    while u <= ONE {
        let c = cos_half_pi(u) as f64 / 65536.0;
        let s = sin_half_pi(u) as f64 / 65536.0;
        let e = c * c + s * s;
        assert!((e - 1.0).abs() < 0.01, "energy {e} at {u}");
        u += 4096;
    }
}

#[test]
fn smoothing_alpha_behaviour() {
    // below one sample the smoother is instantaneous
    assert_eq!(alpha_from_samples(0), ONE);
    assert_eq!(alpha_from_samples(ONE - 1), ONE);
    // a one-sample time constant gives 1 - e^-1 = 0.63212
    let a = alpha_from_samples(ONE);
    assert!((a - 41427).abs() <= 4, "alpha(1) = {a}");
    // long time constants give small but positive steps
    let slow = alpha_from_samples(10000 * ONE);
    assert!(slow >= 1 && slow < 100, "alpha(10000) = {slow}");
}
