use deckmix::beat::{BeatDetector, CONFIDENCE_MAX, octave_fold_down, octave_fold_up};

/// The spectral front end runs upstream of the library; for a click
/// track, a plain energy-flux curve over the usual frame and hop is an
/// onset curve of the same shape.
fn energy_flux_odf(audio: &[f32]) -> Vec<i64> {
    let frame = 2048usize;
    let hop = 512usize;
    if audio.len() < frame {
        return Vec::new();
    }
    let num_frames = (audio.len() - frame) / hop;
    let mut prev = 0.0f32;
    let mut odf = Vec::with_capacity(num_frames);
    for i in 0..num_frames {
        let start = i * hop;
        let energy: f32 = audio[start..start + frame].iter().map(|s| s * s).sum();
        let energy = energy.sqrt();
        let flux = (energy - prev).max(0.0);
        odf.push(flux);
        prev = energy;
    }
    let max = odf.iter().cloned().fold(0.0f32, f32::max);
    odf.iter()
        .map(|&v| if max > 0.0 { ((v / max) as f64 * 1_000_000.0) as i64 } else { 0 })
        .collect()
}

fn click_track(bpm: f32, seconds: usize) -> Vec<f32> {
    let sample_rate = 44100.0f32;
    let beat_interval = (60.0 / bpm * sample_rate) as usize;
    let duration_samples = 44100 * seconds;
    let mut audio = vec![0.0f32; duration_samples];
    let mut pos = 0;
    while pos < duration_samples {
        for i in 0..100 {
            if pos + i < duration_samples {
                audio[pos + i] = 0.8 * (-(i as f32) / 50.0).exp();
            }
        }
        pos += beat_interval;
    }
    audio
}

#[test]
fn test_beat_detector_creation() {
    let detector = BeatDetector::new(44100);
    assert_eq!(detector.sample_rate, 44100);
}

#[test]
fn test_detect_with_click_track() {
    let detector = BeatDetector::new(44100);
    let audio = click_track(120.0, 30);
    let odf = energy_flux_odf(&audio);
    let odfs = vec![odf];
    let result = detector.detect_from_odfs(&odfs, audio.len());
    assert!(result.is_some());
    let result = result.unwrap();
    let bpm = result.bpm_centi as f64 / 100.0;
    assert!(
        (bpm - 120.0).abs() < 5.0,
        "Expected BPM ~120, got {}",
        bpm
    );
    assert!(
        result.beats_ms.len() >= 55,
        "expected at least 55 grid beats, got {}",
        result.beats_ms.len()
    );
    assert!(0 <= result.confidence_micro && result.confidence_micro <= CONFIDENCE_MAX);
}

#[test]
fn test_grid_spacing_is_exact() {
    let detector = BeatDetector::new(44100);
    // 120 beats per minute: one beat every 500 ms over half a minute
    let grid = detector.generate_beat_grid(0, 500, 30_000);
    assert_eq!(grid.len(), 60);
    for w in grid.windows(2) {
        assert_eq!(w[1] - w[0], 500);
    }
    assert_eq!(grid[0], 0);
    assert!(*grid.last().unwrap() < 30_000);
}

#[test]
fn test_grid_phase_offset() {
    let detector = BeatDetector::new(44100);
    let grid = detector.generate_beat_grid(120, 500, 2_000);
    assert_eq!(grid, vec![120, 620, 1120, 1620]);
}

#[test]
fn test_confidence_perfect_alignment() {
    let detector = BeatDetector::new(44100);
    let grid = detector.generate_beat_grid(0, 500, 10_000);
    let detected = grid.clone();
    let c = detector.calculate_grid_confidence(&detected, &grid);
    assert_eq!(c, CONFIDENCE_MAX);
}

#[test]
fn test_confidence_total_misalignment() {
    let detector = BeatDetector::new(44100);
    let grid = detector.generate_beat_grid(0, 500, 10_000);
    // every detected beat sits a quarter second from any grid line
    let detected: Vec<i64> = grid.iter().map(|&b| b + 250).collect();
    let c = detector.calculate_grid_confidence(&detected, &grid);
    assert_eq!(c, 0);
}

#[test]
fn test_confidence_empty_inputs() {
    let detector = BeatDetector::new(44100);
    let grid = detector.generate_beat_grid(0, 500, 10_000);
    assert_eq!(detector.calculate_grid_confidence(&Vec::new(), &grid), 0);
    assert_eq!(detector.calculate_grid_confidence(&grid, &Vec::new()), 0);
}

#[test]
fn test_octave_folding() {
    assert_eq!(octave_fold_up(4000, 8000), 8000);
    assert_eq!(octave_fold_up(2100, 8000), 8400);
    assert_eq!(octave_fold_up(9000, 8000), 9000);
    assert_eq!(octave_fold_down(34_000, 17_000), 17_000);
    assert_eq!(octave_fold_down(36_000, 17_000), 9000);
    assert_eq!(octave_fold_down(12_000, 17_000), 12_000);
}

#[test]
fn test_short_track_gives_nothing() {
    let detector = BeatDetector::new(44100);
    let odfs = vec![vec![0i64; 10]];
    assert!(detector.detect_from_odfs(&odfs, 44_100).is_none());
}
