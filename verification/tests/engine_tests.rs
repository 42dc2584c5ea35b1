//! Tests of the whole engine: band-split reconstruction, the silence fixed
//! point, loudness-correction convergence and the full-drive sine scenario.

use colorfall::engine::ColorFall;

const ONE: i64 = 65536;

fn sine_block(freq: f64, rate: f64, start: usize, len: usize, amp: f64) -> Vec<i64> {
    (0..len)
        .map(|k| {
            let t = (start + k) as f64 / rate;
            (f64::sin(2.0 * std::f64::consts::PI * freq * t) * amp * 65536.0).round() as i64
        })
        .collect()
}

fn rms(s: &[i64]) -> f64 {
    let p: f64 = s.iter().map(|&x| {
        let v = x as f64 / 65536.0;
        v * v
    }).sum::<f64>() / s.len() as f64;
    p.sqrt()
}

#[test]
fn split_bands_reconstructs_the_input_exactly() {
    let mut eng = ColorFall::new(44100);
    eng.update_crossover_filters(13107);
    let mut state: u64 = 42;
    for _ in 0..2000u32 {
        state = state.wrapping_mul(6364136223846793005).wrapping_add(1442695040888963407);
        let l = ((state >> 33) as i64 % (2 * ONE + 1)) - ONE;
        let r = ((state >> 13) as i64 % (2 * ONE + 1)) - ONE;
        let (bl, br) = eng.split_bands(l, r);
        assert_eq!(bl[0] + bl[1] + bl[2] + bl[3] + bl[4], l);
        assert_eq!(br[0] + br[1] + br[2] + br[3] + br[4], r);
    }
}

#[test]
fn reset_then_silence_yields_silence_and_zero_gain_reduction() {
    let mut eng = ColorFall::new(48000);
    // disturb the engine with a loud block first
    let mut l = vec![ONE; 512];
    let mut r = vec![-ONE; 512];
    eng.process_block(&mut l, &mut r, ONE, ONE / 4, ONE, 0);
    eng.reset();
    let mut sl = vec![0i64; 512];
    let mut sr = vec![0i64; 512];
    let gr = eng.process_block(&mut sl, &mut sr, ONE / 4, 13107, 49152, 2 * ONE);
    assert_eq!(gr, 0);
    assert!(sl.iter().all(|&x| x == 0));
    assert!(sr.iter().all(|&x| x == 0));
}

#[test]
fn set_sample_rate_resets_the_stream() {
    let mut eng = ColorFall::new(44100);
    let mut l = vec![ONE / 2; 256];
    let mut r = vec![ONE / 2; 256];
    eng.process_block(&mut l, &mut r, ONE, 0, ONE, 0);
    eng.set_sample_rate(96000);
    let mut sl = vec![0i64; 256];
    let mut sr = vec![0i64; 256];
    let gr = eng.process_block(&mut sl, &mut sr, ONE, 0, ONE, 0);
    assert_eq!(gr, 0);
    assert!(sl.iter().all(|&x| x == 0));
}

#[test]
fn meter_reports_attenuation_only() {
    let mut eng = ColorFall::new(44100);
    for b in 0..20 {
        let mut l = sine_block(250.0, 44100.0, b * 441, 441, 1.0);
        let mut r = l.clone();
        let gr = eng.process_block(&mut l, &mut r, ONE, -ONE / 2, ONE / 2, -3 * ONE);
        assert!(gr <= 0 && gr >= -100 * ONE);
    }
}

#[test]
fn full_drive_sine_reduces_gain_and_matches_loudness() {
    // 0 dBFS 1 kHz sine, Amount 1, Tilt 0, Mix 1, Output 0 dB: after about
    // a second the meter shows genuine gain reduction and the output RMS
    // sits within 1 dB of the input RMS
    let rate = 44100usize;
    let block = 441usize;
    let mut eng = ColorFall::new(rate as i64);
    let mut gr: i64 = 0;
    let mut last = Vec::new();
    for b in 0..120 {
        let mut l = sine_block(1000.0, rate as f64, b * block, block, 1.0);
        let mut r = l.clone();
        gr = eng.process_block(&mut l, &mut r, ONE, 0, ONE, 0);
        last = l;
    }
    assert!(gr < -ONE, "expected over 1 dB of gain reduction, meter at {gr}");
    let in_rms = 0.5f64.sqrt();
    let out_rms = rms(&last);
    let ratio_db = 20.0 * (out_rms / in_rms).log10();
    assert!(ratio_db.abs() <= 1.0, "loudness mismatch {ratio_db} dB");
}

#[test]
fn loudness_correction_converges_on_a_steady_signal() {
    // a constant-amplitude sine held for five seconds at fixed Amount and
    // Tilt drives the output RMS to within half a decibel of the input RMS
    let rate = 22050usize;
    let block = 441usize;
    let mut eng = ColorFall::new(rate as i64);
    let amount = 26214; // 0.4
    let mut last = Vec::new();
    for b in 0..250 {
        let mut l = sine_block(440.0, rate as f64, b * block, block, 0.5);
        let mut r = l.clone();
        eng.process_block(&mut l, &mut r, amount, 0, ONE, 0);
        last = l;
    }
    let in_rms = 0.5 * 0.5f64.sqrt();
    let out_rms = rms(&last);
    let ratio_db = 20.0 * (out_rms / in_rms).log10();
    assert!(ratio_db.abs() <= 0.5, "loudness mismatch {ratio_db} dB");
}

#[test]
fn dry_mix_with_unity_output_is_transparent() {
    // Mix 0 at unity output gain takes the dry path untouched: the
    // constant-power law is exact at its endpoints
    let mut eng = ColorFall::new(44100);
    let mut l = sine_block(500.0, 44100.0, 0, 441, 0.8);
    let orig = l.clone();
    let mut r = l.clone();
    eng.process_block(&mut l, &mut r, ONE, 0, 0, 0);
    assert_eq!(l, orig);
}

#[test]
fn empty_block_is_a_no_op() {
    let mut eng = ColorFall::new(44100);
    let mut l: Vec<i64> = Vec::new();
    let mut r: Vec<i64> = Vec::new();
    let gr = eng.process_block(&mut l, &mut r, ONE, 0, ONE, 0);
    assert_eq!(gr, 0);
    assert!(l.is_empty() && r.is_empty());
}
