//! Tests of the macro-control formulas: frequency shifting, saturation and
//! the soft-knee gain computer.

use colorfall::dsp::calculate_dynamic_time_constants;
use colorfall::dsp::calculate_target_gr;
use colorfall::dsp::saturate;
use colorfall::dsp::shift_frequency;

const ONE: i64 = 65536;

#[test]
fn shift_frequency_full_tilt_up_is_four_semitones() {
    // 1000 Hz shifted by +4 semitones: 1000 * 2^(4/12) = 1259.921 Hz
    let r = shift_frequency(1000 * ONE, ONE);
    let ideal = 82570186.0; // 1000 * 2^(1/3) * 65536
    let rel = (r as f64 - ideal).abs() / ideal;
    assert!(rel < 0.001, "shift up: {r}");
}

#[test]
fn shift_frequency_full_tilt_down_is_four_semitones() {
    // 1000 Hz shifted by -4 semitones: 1000 * 2^(-4/12) = 793.700 Hz
    let r = shift_frequency(1000 * ONE, -ONE);
    let ideal = 52015958.0; // 1000 * 2^(-1/3) * 65536
    let rel = (r as f64 - ideal).abs() / ideal;
    assert!(rel < 0.001, "shift down: {r}");
}

#[test]
fn shift_frequency_zero_tilt_is_identity() {
    assert_eq!(shift_frequency(1000 * ONE, 0), 1000 * ONE);
    assert_eq!(shift_frequency(150 * ONE, 0), 150 * ONE);
    assert_eq!(shift_frequency(9000 * ONE, 0), 9000 * ONE);
}

#[test]
fn saturate_known_values() {
    // x = 0.5 at full Amount: drive 1.0, out = (0.5 - 0.125/3) * 0.7
    assert_eq!(saturate(ONE / 2, ONE), 21026);
    assert_eq!(saturate(ONE, ONE / 2), 25021);
    // gentle drive at Amount = 0 still shapes the signal
    assert_eq!(saturate(200000, 0), 13806);
}

#[test]
fn saturate_is_odd_symmetric() {
    let samples = [1, 7, 12345, ONE / 3, ONE / 2, ONE, 2 * ONE, 100 * ONE];
    let amounts = [0, 13107, ONE / 2, 52429, ONE];
    for &x in samples.iter() {
        for &a in amounts.iter() {
            assert_eq!(saturate(-x, a), -saturate(x, a), "x={x} a={a}");
        }
    }
}

#[test]
fn saturate_zero_and_bounds() {
    assert_eq!(saturate(0, 0), 0);
    assert_eq!(saturate(0, ONE), 0);
    for &x in [-(100 * ONE), -ONE, -1, 1, ONE, 100 * ONE].iter() {
        for &a in [0, ONE / 4, ONE].iter() {
            let r = saturate(x, a);
            assert!(-ONE <= r && r <= ONE, "saturate({x},{a}) = {r}");
        }
    }
}

#[test]
fn gain_reduction_factor_stays_in_unit_interval() {
    let envelopes = [0, 1, 100, ONE / 16, ONE / 2, ONE, 100 * ONE, 1 << 40];
    let tilts = [-ONE, -ONE / 2, 0, ONE / 2, ONE];
    let amounts = [0, ONE / 4, ONE / 2, ONE];
    for band in 0..5usize {
        for &a in amounts.iter() {
            for &t in tilts.iter() {
                for &e in envelopes.iter() {
                    let r = calculate_target_gr(band, a, t, e);
                    assert!(0 < r && r <= ONE, "gr({band},{a},{t},{e}) = {r}");
                }
            }
        }
    }
}

#[test]
fn gain_reduction_known_values() {
    // full Amount, no tilt, 0 dBFS envelope on the lowest band squashes hard
    assert_eq!(calculate_target_gr(0, ONE, 0, ONE), 388);
    // half Amount, half-scale envelope on the middle band
    assert_eq!(calculate_target_gr(2, ONE / 2, 0, ONE / 2), 16298);
    // tilt fully down relieves the top band less than its freq factor alone
    assert_eq!(calculate_target_gr(4, ONE, -ONE, ONE), 12974);
}

#[test]
fn gain_reduction_is_unity_on_silence() {
    for band in 0..5usize {
        assert_eq!(calculate_target_gr(band, ONE, 13107, 0), ONE);
        assert_eq!(calculate_target_gr(band, 0, -13107, 0), ONE);
    }
}

#[test]
fn gain_reduction_is_unity_below_threshold() {
    // a -90 dB envelope lies far below every threshold
    let tiny = 2; // about -90 dB in Q16.16
    for band in 0..5usize {
        assert_eq!(calculate_target_gr(band, ONE / 2, 0, tiny), ONE);
    }
}

#[test]
fn time_constants_known_values_and_ordering() {
    // 2000 Hz center at 44.1 kHz, half Amount
    let (atk, rel) = calculate_dynamic_time_constants(44100, 2000 * ONE, 2, ONE / 2);
    assert_eq!(atk, 30308166);
    assert_eq!(rel, 454622490);
    // release is always slower than attack
    for &c in [100 * ONE, 1000 * ONE, 10000 * ONE].iter() {
        for &a in [0, ONE / 2, ONE].iter() {
            let (at, re) = calculate_dynamic_time_constants(48000, c, 0, a);
            assert!(at > 0 && re > at, "center {c} amount {a}");
        }
    }
}

#[test]
fn time_constants_shrink_with_amount_and_frequency() {
    let (a_low, r_low) = calculate_dynamic_time_constants(44100, 100 * ONE, 0, 0);
    let (a_high, r_high) = calculate_dynamic_time_constants(44100, 8000 * ONE, 4, 0);
    assert!(a_high < a_low && r_high < r_low);
    let (a_soft, r_soft) = calculate_dynamic_time_constants(44100, 1000 * ONE, 2, 0);
    let (a_hard, r_hard) = calculate_dynamic_time_constants(44100, 1000 * ONE, 2, ONE);
    assert!(a_hard < a_soft && r_hard < r_soft);
}
