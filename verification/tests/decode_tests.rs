use deckmix::decode::{detect_bpm, detect_structure, refine_bpm, resample_to_engine};

fn click_track_fixed(bpm: f64, seconds: usize) -> Vec<i64> {
    let sample_rate = 44100.0f64;
    let beat_interval = (60.0 / bpm * sample_rate) as usize;
    let duration_samples = 44100 * seconds;
    let mut audio = vec![0i64; duration_samples];
    let mut pos = 0;
    while pos < duration_samples {
        for i in 0..100 {
            if pos + i < duration_samples {
                let v = 0.8 * (-(i as f64) / 50.0).exp();
                audio[pos + i] = (v * 1_000_000.0) as i64;
            }
        }
        pos += beat_interval;
    }
    audio
}

#[test]
fn test_resample_identity() {
    let samples = vec![100, -200, 300, -400, 500, -600, 1_500_000, -1_500_000];
    let (pcm, mono) = resample_to_engine(&samples, 2, 44_100, 44_100, 2);
    // the out-of-scale pair is clamped to full scale
    assert_eq!(pcm, vec![100, -200, 300, -400, 500, -600, 1_000_000, -1_000_000]);
    assert_eq!(mono, vec![-50, -50, -50, 0]);
}

#[test]
fn test_resample_mono_to_stereo() {
    let samples = vec![100, 200, 300, 400];
    let (pcm, mono) = resample_to_engine(&samples, 1, 44_100, 44_100, 2);
    assert_eq!(pcm, vec![100, 100, 200, 200, 300, 300, 400, 400]);
    assert_eq!(mono, vec![100, 200, 300, 400]);
}

#[test]
fn test_resample_halves_rate() {
    let samples = vec![10, 20, 30, 40, 50, 60, 70, 80];
    let (pcm, mono) = resample_to_engine(&samples, 1, 16_000, 8_000, 1);
    // every second source frame survives
    assert_eq!(pcm, vec![10, 30, 50, 70]);
    assert_eq!(mono, vec![10, 30, 50, 70]);
}

#[test]
fn test_refine_bpm_folds_and_rounds() {
    // under 80 doubles
    assert_eq!(refine_bpm(7000), 14_000);
    // over 170 halves
    assert_eq!(refine_bpm(25_000), 12_500);
    // rounding to whole beats per minute
    assert_eq!(refine_bpm(12_345), 12_300);
    assert_eq!(refine_bpm(12_355), 12_400);
    assert_eq!(refine_bpm(12_000), 12_000);
}

#[test]
fn test_detect_bpm_click_track() {
    let mono = click_track_fixed(120.0, 30);
    let bpm = detect_bpm(&mono, 44_100).expect("a click track has a tempo");
    assert!(
        (bpm as i64 - 12_000).abs() <= 300,
        "expected about 120 beats per minute, got {bpm}"
    );
}

#[test]
fn test_structure_sections_are_ordered() {
    // a minute of audio: quiet opening, loud middle, quiet ending
    let frames = 44_100 * 60;
    let mut mono = vec![0i64; frames];
    for (i, s) in mono.iter_mut().enumerate() {
        let t = i as f64 / 44_100.0;
        let level = if t < 15.0 {
            0.05
        } else if t < 45.0 {
            0.5
        } else {
            0.05
        };
        let v = (2.0 * std::f64::consts::PI * 220.0 * t).sin() * level;
        *s = (v * 1_000_000.0) as i64;
    }
    let structure = detect_structure(&mono, 44_100, 12_000, vec![0, 500, 1000]);
    assert_eq!(structure.bpm_centi, 12_000);
    assert_eq!(structure.intro.start_ms, 0);
    assert_eq!(structure.intro.end_ms, structure.main.start_ms);
    assert_eq!(structure.main.end_ms, structure.outro.start_ms);
    assert!(structure.main.end_ms >= structure.main.start_ms);
    assert!(structure.intro.beats >= 0);
    for w in structure.hot_cues.windows(2) {
        assert!(w[0] <= w[1], "hot cues must ascend");
    }
    assert_eq!(structure.beats, vec![0, 500, 1000]);
}
