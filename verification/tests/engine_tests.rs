use deckmix::engine::{AudioEngine, UpdateReason, FRAMES_PER_CHUNK};
use deckmix::eq::EqBand;
use deckmix::UNIT;

fn zeros_seconds(seconds: usize) -> Vec<i64> {
    vec![0i64; 44_100 * seconds * 2]
}

fn constant_pcm(value: i64, seconds: usize) -> Vec<i64> {
    vec![value; 44_100 * seconds * 2]
}

fn sine_pcm(freq_hz: f64, seconds: usize) -> Vec<i64> {
    let frames = 44_100 * seconds;
    let mut v = Vec::with_capacity(frames * 2);
    for i in 0..frames {
        let s = (2.0 * std::f64::consts::PI * freq_hz * (i as f64) / 44100.0).sin() * 0.5;
        let q = (s * 1_000_000.0) as i64;
        v.push(q);
        v.push(q);
    }
    v
}

fn rms(buf: &[i64]) -> f64 {
    let sum: f64 = buf.iter().map(|&s| (s as f64) * (s as f64)).sum();
    (sum / buf.len() as f64).sqrt()
}

#[test]
fn test_zeros_play_silent_and_position_advances() {
    let mut e = AudioEngine::new(44_100);
    e.load_track(1, zeros_seconds(10), None, None);
    e.play(1);
    let mut emitted_frames = 0usize;
    while emitted_frames < 44_100 {
        let out = e.process_chunk();
        assert!(out.iter().all(|&s| s == 0), "zero track must give zero output");
        emitted_frames += FRAMES_PER_CHUNK;
    }
    let state = e.get_state();
    let pos_ms = state.deck_a_position_ms.expect("position for a loaded deck");
    assert!(
        (pos_ms - 1000).abs() <= 50,
        "position after one second of audio was {pos_ms} ms"
    );
    assert!(state.deck_a_playing);
}

#[test]
fn test_crossfade_completes_and_swaps_decks() {
    let mut e = AudioEngine::new(44_100);
    e.load_track(1, zeros_seconds(10), None, None);
    e.play(1);
    assert!(e.deck_a.playing);
    e.start_crossfade(Some(1_000_000), 2000);
    // two seconds is just over 43 chunks; one extra chunk of slack
    for _ in 0..44 {
        let _ = e.process_chunk();
    }
    let state = e.get_state();
    assert_eq!(state.crossfader_position, 1_000_000);
    assert!(!state.is_crossfading);
    assert!(!state.deck_a_playing, "deck A must stop after fading out");
    assert!(state.deck_b_playing, "deck B must be started by the fade");
}

#[test]
fn test_crossfader_half_attenuates_by_constant_power() {
    // one deck through the centred fader keeps √2/2 of its level
    let mut full = AudioEngine::new(44_100);
    full.load_track(1, sine_pcm(440.0, 5), None, None);
    full.play(1);
    let mut r_full = Vec::new();
    for _ in 0..20 {
        r_full.extend(full.process_chunk());
    }

    let mut half = AudioEngine::new(44_100);
    half.load_track(1, sine_pcm(440.0, 5), None, None);
    half.play(1);
    half.set_crossfader_position(500_000);
    let mut r_half = Vec::new();
    for _ in 0..20 {
        r_half.extend(half.process_chunk());
    }

    let ratio = rms(&r_half) / rms(&r_full);
    let expected = (2.0f64).sqrt() / 2.0;
    assert!(
        (ratio - expected).abs() < 0.02,
        "attenuation ratio {ratio}, expected {expected}"
    );
}

#[test]
fn test_both_decks_at_half_keep_power() {
    // uncorrelated equal-level decks through the centre sum to full power
    let mut solo = AudioEngine::new(44_100);
    solo.load_track(1, sine_pcm(440.0, 5), None, None);
    solo.play(1);
    let mut r_solo = Vec::new();
    for _ in 0..20 {
        r_solo.extend(solo.process_chunk());
    }

    let mut e = AudioEngine::new(44_100);
    e.load_track(1, sine_pcm(440.0, 5), None, None);
    e.load_track(2, sine_pcm(880.0, 5), None, None);
    e.play(1);
    e.play(2);
    e.set_crossfader_position(500_000);
    let mut r_mix = Vec::new();
    for _ in 0..20 {
        r_mix.extend(e.process_chunk());
    }

    let ratio = rms(&r_mix) / rms(&r_solo);
    assert!((ratio - 1.0).abs() < 0.05, "power ratio {ratio}");
}

#[test]
fn test_seek_sets_position_fraction() {
    let mut e = AudioEngine::new(44_100);
    e.load_track(1, zeros_seconds(10), None, None);
    e.seek(1, 500_000);
    assert_eq!(e.deck_a.position, 220_500);
    let state = e.get_state();
    assert_eq!(state.deck_a_position_ms, Some(5000));
    assert_eq!(state.update_reason, UpdateReason::Seek);
}

#[test]
fn test_seek_clamps_out_of_range() {
    let mut e = AudioEngine::new(44_100);
    e.load_track(1, zeros_seconds(10), None, None);
    e.seek(1, 2_000_000);
    assert_eq!(e.deck_a.position, 441_000);
    e.seek(1, -5);
    assert_eq!(e.deck_a.position, 0);
}

#[test]
fn test_loop_keeps_position_inside_region() {
    let mut e = AudioEngine::new(44_100);
    e.load_track(1, zeros_seconds(10), None, None);
    // loop over the first second of the track
    e.set_loop(1, 0, 100_000, true);
    assert!(e.deck_a.loop_enabled);
    e.play(1);
    for _ in 0..40 {
        let _ = e.process_chunk();
        assert!(
            e.deck_a.position < e.deck_a.loop_end,
            "position {} escaped loop end {}",
            e.deck_a.position,
            e.deck_a.loop_end
        );
    }
    assert!(e.deck_a.playing, "looping deck keeps playing");
}

#[test]
fn test_clear_loop() {
    let mut e = AudioEngine::new(44_100);
    e.load_track(1, zeros_seconds(10), None, None);
    e.set_loop(1, 100_000, 200_000, true);
    assert!(e.deck_a.loop_enabled);
    e.clear_loop(1);
    assert!(!e.deck_a.loop_enabled);
    assert_eq!(e.deck_a.loop_start, 0);
    assert_eq!(e.deck_a.loop_end, 0);
}

#[test]
fn test_beat_loop_jumps_into_region() {
    let mut e = AudioEngine::new(44_100);
    e.load_track(1, zeros_seconds(10), None, None);
    e.set_beat_loop(1, 2000, 3000);
    assert!(e.deck_a.loop_enabled);
    assert_eq!(e.deck_a.loop_start, 88_200);
    assert_eq!(e.deck_a.loop_end, 132_300);
    // the deck was at frame zero, outside the loop, so it jumps in
    assert_eq!(e.deck_a.position, 88_200);
}

#[test]
fn test_master_tempo_recomputes_rates() {
    let mut e = AudioEngine::new(44_100);
    // track at 100 beats per minute, master at the default 130
    e.load_track(1, zeros_seconds(10), Some(10_000), None);
    assert_eq!(e.deck_a.rate_ppm, 1_300_000);
    e.set_master_tempo(30_000);
    // the ratio of 3 clamps to double speed
    assert_eq!(e.deck_a.rate_ppm, 2_000_000);
    // out-of-range tempos are ignored
    e.set_master_tempo(0);
    assert_eq!(e.master_tempo_centi, 30_000);
    e.set_master_tempo(40_000);
    assert_eq!(e.master_tempo_centi, 30_000);
}

#[test]
fn test_deck_gain_perceptual_square() {
    let mut e = AudioEngine::new(44_100);
    e.set_deck_gain(1, 500_000);
    assert_eq!(e.deck_a.gain, 250_000);
    e.set_deck_gain(2, 2_000_000);
    assert_eq!(e.deck_b.gain, 1_000_000);
    e.set_deck_gain(1, -3);
    assert_eq!(e.deck_a.gain, 0);
}

#[test]
fn test_play_without_track_stays_stopped() {
    let mut e = AudioEngine::new(44_100);
    e.play(1);
    assert!(!e.deck_a.playing);
    e.load_track(1, zeros_seconds(1), None, None);
    e.play(1);
    assert!(e.deck_a.playing);
    // any selector other than 1 is deck B
    e.load_track(7, zeros_seconds(1), None, None);
    e.play(7);
    assert!(e.deck_b.playing);
}

#[test]
fn test_stop_cancels_crossfade() {
    let mut e = AudioEngine::new(44_100);
    e.load_track(1, zeros_seconds(2), None, None);
    e.play(1);
    e.start_crossfade(None, 5000);
    assert!(e.crossfade.active);
    e.stop(1);
    assert!(!e.crossfade.active);
    assert!(!e.deck_a.playing);
}

#[test]
fn test_eq_cut_via_engine() {
    let mut e = AudioEngine::new(44_100);
    e.set_eq_cut(1, EqBand::High, true);
    let s = e.get_eq_cut_state(1);
    assert!(!s.low && !s.mid && s.high);
    let s_b = e.get_eq_cut_state(2);
    assert!(!s_b.low && !s_b.mid && !s_b.high);
}

#[test]
fn test_mic_talkover_replaces_silent_music() {
    let mut e = AudioEngine::new(44_100);
    e.load_track(1, zeros_seconds(2), None, None);
    e.play(1);
    e.set_mic_enabled(true);
    e.set_mic_gain(2_000_000);
    e.set_talkover_ducking(1_000_000);
    // half-scale mono input, duplicated to stereo by the capture path
    let mic_block = vec![500_000i64; 8_000];
    e.mic_capture(&mic_block, 1, 44_100);
    let out = e.process_chunk();
    // music fully ducked, microphone at double gain: exactly full... half
    // scale times two is full scale
    assert!(out.iter().all(|&s| s == 1_000_000), "talkover output");
    let state = e.get_state();
    assert!(state.mic_enabled);
    assert_eq!(state.mic_peak, 500_000);
}

#[test]
fn test_mic_starved_leaves_music_untouched() {
    let mut e = AudioEngine::new(44_100);
    e.load_track(1, constant_pcm(400_000, 2), None, None);
    e.play(1);
    e.set_mic_enabled(true);
    e.set_talkover_ducking(1_000_000);
    // fewer than one chunk of microphone samples: nothing is applied
    let mic_block = vec![500_000i64; 100];
    e.mic_capture(&mic_block, 1, 44_100);
    let out = e.process_chunk();
    assert!(out.iter().any(|&s| s != 0), "music must pass through");
}

#[test]
fn test_cue_routing_on_four_channels() {
    let mut e = AudioEngine::new(44_100);
    e.load_track(1, constant_pcm(500_000, 2), None, None);
    e.play(1);
    e.set_channel_config(2, 3, 0, 1);
    assert_eq!(e.channel_config.output_channels, 4);
    e.set_deck_cue_enabled(1, true);
    // full B on the fader: the main bus is silent, the cue still taps deck A
    e.set_crossfader_position(1_000_000);
    let out = e.process_chunk();
    assert_eq!(out.len(), FRAMES_PER_CHUNK * 4);
    for f in 0..FRAMES_PER_CHUNK {
        assert_eq!(out[f * 4], 500_000, "cue left carries deck A pre-mix");
        assert_eq!(out[f * 4 + 1], 500_000, "cue right carries deck A pre-mix");
        assert_eq!(out[f * 4 + 2], 0, "main left is silent at full B");
        assert_eq!(out[f * 4 + 3], 0, "main right is silent at full B");
    }
    assert!(out.iter().all(|&s| -UNIT <= s && s <= UNIT));
}

#[test]
fn test_peak_hold_rides_and_decays() {
    let mut e = AudioEngine::new(44_100);
    e.load_track(1, constant_pcm(500_000, 1), None, None);
    e.play(1);
    let _ = e.process_chunk();
    assert_eq!(e.levels.deck_a_peak, 500_000);
    assert_eq!(e.levels.deck_a_peak_hold, 500_000);
    e.stop(1);
    // silence holds the peak for a second and a half, then decays
    let mut last_hold = e.levels.deck_a_peak_hold;
    let mut decayed = false;
    for _ in 0..80 {
        let _ = e.process_chunk();
        let hold = e.levels.deck_a_peak_hold;
        assert!(hold <= last_hold, "peak hold never rises in silence");
        assert!(hold >= e.levels.deck_a_peak, "hold stays above the live peak");
        if hold < 500_000 {
            decayed = true;
        }
        last_hold = hold;
    }
    assert!(decayed, "peak hold must decay after the hold time");
    assert!(last_hold < 400_000, "decay must make progress");
}

#[test]
fn test_queue_pump_and_pop() {
    let mut e = AudioEngine::new(44_100);
    assert_eq!(e.pop_output_sample(), 0, "an empty queue yields silence");
    e.pump_chunk();
    let filled = e.output_queue.len();
    assert_eq!(filled, FRAMES_PER_CHUNK * 2);
    let _ = e.pop_output_sample();
    assert_eq!(e.output_queue.len(), filled - 1);
}

#[test]
fn test_close_stops_everything() {
    let mut e = AudioEngine::new(44_100);
    e.load_track(1, zeros_seconds(1), None, None);
    e.play(1);
    e.pump_chunk();
    e.close();
    assert!(!e.running);
    assert!(!e.deck_a.playing && !e.deck_b.playing);
    assert_eq!(e.output_queue.len(), 0);
}

#[test]
fn test_device_config_clamps_mapping() {
    let mut e = AudioEngine::new(44_100);
    e.apply_device_config(2, Some(vec![0, 5]), Some(vec![-1, 1]));
    assert_eq!(e.channel_config.output_channels, 2);
    assert_eq!(e.channel_config.main_left, Some(0));
    assert_eq!(e.channel_config.main_right, None, "index 5 is out of range");
    assert_eq!(e.channel_config.cue_left, None);
    assert_eq!(e.channel_config.cue_right, Some(1));
    assert_eq!(e.output_queue.len(), 0);
}

#[test]
fn test_track_id_and_reason_in_state() {
    let mut e = AudioEngine::new(44_100);
    e.load_track(1, zeros_seconds(1), Some(12_800), Some("abc".to_string()));
    let state = e.get_state();
    assert_eq!(state.deck_a_track_id.as_deref(), Some("abc"));
    assert_eq!(state.update_reason, UpdateReason::Load);
    assert_eq!(state.master_tempo_centi, 13_000);
    // processing a chunk clears the pending reason
    let _ = e.process_chunk();
    let state = e.get_state();
    assert_eq!(state.update_reason, UpdateReason::Periodic);
}
