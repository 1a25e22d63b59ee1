use deckmix::eq::{EqBand, EqProcessor};
use deckmix::crossfade::{xfade_gain_a, xfade_gain_b};
use deckmix::UNIT;

fn sine_buffer(freq_hz: f64, frames: usize) -> Vec<i64> {
    let mut v = Vec::with_capacity(frames * 2);
    for i in 0..frames {
        let s = (2.0 * std::f64::consts::PI * freq_hz * (i as f64) / 44100.0).sin() * 0.5;
        let q = (s * 1_000_000.0) as i64;
        v.push(q);
        v.push(q);
    }
    v
}

fn rms(buf: &[i64]) -> f64 {
    if buf.is_empty() {
        return 0.0;
    }
    let sum: f64 = buf.iter().map(|&s| (s as f64) * (s as f64)).sum();
    (sum / buf.len() as f64).sqrt()
}

#[test]
fn test_eq_bypass_is_identity() {
    let mut eq = EqProcessor::new();
    let mut buffer = sine_buffer(440.0, 256);
    let original = buffer.clone();
    eq.process(&mut buffer, 256);
    assert_eq!(buffer, original);
}

#[test]
fn test_eq_all_cuts_is_silence() {
    let mut eq = EqProcessor::new();
    eq.set_cut(EqBand::Low, true);
    eq.set_cut(EqBand::Mid, true);
    eq.set_cut(EqBand::High, true);
    let mut buffer = sine_buffer(440.0, 256);
    eq.process(&mut buffer, 256);
    assert!(buffer.iter().all(|&s| s == 0));
}

#[test]
fn test_eq_cut_state_roundtrip() {
    let mut eq = EqProcessor::new();
    eq.set_cut(EqBand::Mid, true);
    let s = eq.get_cut_state();
    assert!(!s.low && s.mid && !s.high);
    eq.set_cut(EqBand::Mid, false);
    let s = eq.get_cut_state();
    assert!(!s.low && !s.mid && !s.high);
}

#[test]
fn test_eq_low_cut_removes_bass_sine() {
    // a 100 Hz sine sits in the low band: cutting it leaves little energy
    let frames_per_chunk = 2048;
    let chunks = 4;
    let mut eq = EqProcessor::new();
    eq.set_cut(EqBand::Low, true);

    let mut tail_rms = 0.0;
    let mut uncut_tail_rms = 0.0;
    for pass in 0..2 {
        let cut = pass == 0;
        let mut eq = EqProcessor::new();
        eq.set_cut(EqBand::Low, cut);
        let mut collected: Vec<i64> = Vec::new();
        for c in 0..chunks {
            let mut buffer = sine_buffer(100.0, frames_per_chunk);
            // keep the phase continuous across chunks
            for (i, s) in buffer.iter_mut().enumerate() {
                let frame = c * frames_per_chunk + i / 2;
                let v = (2.0 * std::f64::consts::PI * 100.0 * (frame as f64) / 44100.0).sin()
                    * 0.5;
                *s = (v * 1_000_000.0) as i64;
            }
            eq.process(&mut buffer, frames_per_chunk);
            collected.extend_from_slice(&buffer);
        }
        // skip the first 50 ms (2205 frames) of settling
        let settled = &collected[2 * 2205..];
        if cut {
            tail_rms = rms(settled);
        } else {
            uncut_tail_rms = rms(settled);
        }
    }
    assert!(uncut_tail_rms > 100_000.0, "uncut rms {uncut_tail_rms}");
    assert!(
        tail_rms <= 0.10 * uncut_tail_rms,
        "cut rms {tail_rms} vs uncut {uncut_tail_rms}"
    );
}

#[test]
fn test_constant_power_endpoints() {
    assert_eq!(xfade_gain_a(0), UNIT);
    assert_eq!(xfade_gain_b(0), 0);
    assert_eq!(xfade_gain_a(UNIT), 0);
    assert_eq!(xfade_gain_b(UNIT), UNIT);
}

#[test]
fn test_constant_power_sums_to_one() {
    for &p in &[0i64, 100_000, 250_000, 500_000, 750_000, 900_000, 1_000_000] {
        let ga = xfade_gain_a(p) as f64 / 1_000_000.0;
        let gb = xfade_gain_b(p) as f64 / 1_000_000.0;
        let power = ga * ga + gb * gb;
        assert!((power - 1.0).abs() < 0.001, "p={p} power={power}");
    }
}
