use deckmix::meter::hold_update;
use deckmix::mic::MicrophoneState;
use deckmix::queue::SampleQueue;
use deckmix::ring::RingBuffer;
use deckmix::stretch::stretch_chunk;

#[test]
fn test_stretch_identity_at_normal_speed() {
    let pcm: Vec<i64> = (0..40).collect();
    let mut out = vec![0i64; 8];
    let consumed = stretch_chunk(&pcm, 3, 1_000_000, 4, &mut out);
    assert_eq!(consumed, 4);
    assert_eq!(out, vec![6, 7, 8, 9, 10, 11, 12, 13]);
}

#[test]
fn test_stretch_double_speed_skips_frames() {
    let pcm: Vec<i64> = (0..40).collect();
    let mut out = vec![0i64; 8];
    let consumed = stretch_chunk(&pcm, 0, 2_000_000, 4, &mut out);
    assert_eq!(consumed, 8);
    assert_eq!(out, vec![0, 1, 4, 5, 8, 9, 12, 13]);
}

#[test]
fn test_stretch_zero_fills_past_track_end() {
    let pcm: Vec<i64> = vec![7, 8, 9, 10];
    let mut out = vec![1i64; 8];
    let consumed = stretch_chunk(&pcm, 1, 1_000_000, 4, &mut out);
    assert_eq!(consumed, 1);
    assert_eq!(out, vec![9, 10, 0, 0, 0, 0, 0, 0]);
}

#[test]
fn test_hold_update_rises_and_holds() {
    // a louder peak takes over immediately
    let (hold, age) = hold_update(400_000, 100_000, 700, 46);
    assert_eq!(hold, 400_000);
    assert_eq!(age, 0);
    // below the held value the age grows and the hold stays
    let (hold, age) = hold_update(100_000, 400_000, 700, 46);
    assert_eq!(hold, 400_000);
    assert_eq!(age, 746);
}

#[test]
fn test_hold_update_decays_after_hold_time() {
    let (hold, _) = hold_update(0, 400_000, 1500, 46);
    assert!(hold < 400_000, "past the hold time the value decays");
    assert!(hold > 380_000, "one chunk decays only slightly");
}

#[test]
fn test_mic_ingest_bounds_ring() {
    let mut mic = MicrophoneState::new();
    // four-channel input: only the first channel is kept, twice
    let block = vec![100, 1, 2, 3, 200, 1, 2, 3, 300, 1, 2, 3];
    mic.mic_ingest(&block, 4, 4);
    // three stereo frames appended, bounded to the newest four samples
    let kept: Vec<i64> = mic.input_buffer.iter().cloned().collect();
    assert_eq!(kept, vec![200, 200, 300, 300]);
    // smoothed peak: nine parts old (zero), one part new (300)
    assert_eq!(mic.peak, 30);
}

#[test]
fn test_queue_is_fifo_with_silent_underrun() {
    let mut q = SampleQueue::new(8);
    assert!(q.needs_fill());
    q.push_chunk(&vec![5, 6, 7]);
    assert_eq!(q.len(), 3);
    assert_eq!(q.pop_sample(), 5);
    assert_eq!(q.pop_sample(), 6);
    assert_eq!(q.pop_sample(), 7);
    assert_eq!(q.pop_sample(), 0);
    q.push_chunk(&vec![9]);
    q.clear();
    assert_eq!(q.len(), 0);
}

#[test]
fn test_ring_buffer_roundtrip() {
    let mut ring = RingBuffer::new();
    assert_eq!(ring.read(), (0, 0));
    ring.write(11, 12);
    ring.write(21, 22);
    assert_eq!(ring.read(), (11, 12));
    assert_eq!(ring.read(), (21, 22));
    // caught up again: silence
    assert_eq!(ring.read(), (0, 0));
}
