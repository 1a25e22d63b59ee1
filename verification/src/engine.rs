//! The mixing engine: two decks, crossfader, microphone, router, meters
//! and the sample queue, with the per-chunk processing round and the
//! control operations the host calls.
//!
//! A deck selector of 1 means deck A; every other value means deck B.

use vstd::prelude::*;

use crate::crossfade::{
    CrossfadeDirection, CrossfadeState, wf_xfade, xfade_after, xfade_completion, xfade_gain_a,
    xfade_gain_b, spec_gain_sq_a, spec_gain_sq_b,
};
use crate::deck::{
    DeckState, wf_deck, deck_total_frames, deck_chunk_seq, advanced_position, raw_chunk,
    spec_playback_rate, calculate_playback_rate, clamp_ppm,
};
use crate::eq::{EqBand, EqCutState, eq_state_after};
use crate::fixed::{
    UNIT, apply_gain, tdiv, spec_isqrt, spec_clamp_unit, lemma_mul_bounds_abs, lemma_tdiv_abs_le,
};
use crate::meter::{
    LevelMeterState, wf_meter, calculate_peak, update_peak_hold, peak_of, hold_next,
    hold_age_next, PEAK_LIMIT,
};
use crate::mic::{MicrophoneState, wf_mic, talkover_mix, MIX_LIMIT};
use crate::queue::{SampleQueue, wf_queue, CHUNK_SAMPLES_MAX};
use crate::router::{ChannelConfig, wf_config, map_channels, route_at};

verus! {

/// The fixed engine rate.
pub const DEFAULT_SAMPLE_RATE: u32 = 44_100;

/// Frames per processing chunk.
pub const FRAMES_PER_CHUNK: usize = 2048;

/// Why a state update was emitted.
#[derive(Clone, Copy, Debug, PartialEq, Eq)]
pub enum UpdateReason {
    Periodic,
    Load,
    Play,
    Stop,
    Seek,
}

/// A deck's loop region as fractions of the track, for state updates.
#[derive(Clone, Copy)]
pub struct LoopState {
    pub enabled: bool,
    pub start_ppm: i64,
    pub end_ppm: i64,
}

/// The snapshot published to the host.
pub struct AudioEngineStateUpdate {
    pub deck_a_position_ms: Option<i64>,
    pub deck_b_position_ms: Option<i64>,
    pub deck_a_playing: bool,
    pub deck_b_playing: bool,
    pub crossfader_position: i64,
    pub is_crossfading: bool,
    pub deck_a_peak: i64,
    pub deck_b_peak: i64,
    pub deck_a_peak_hold: i64,
    pub deck_b_peak_hold: i64,
    pub master_tempo_centi: u32,
    pub deck_a_track_id: Option<String>,
    pub deck_b_track_id: Option<String>,
    pub deck_a_gain: i64,
    pub deck_b_gain: i64,
    pub deck_a_cue_enabled: bool,
    pub deck_b_cue_enabled: bool,
    pub deck_a_eq_cut: EqCutState,
    pub deck_b_eq_cut: EqCutState,
    pub deck_a_loop: LoopState,
    pub deck_b_loop: LoopState,
    pub mic_available: bool,
    pub mic_enabled: bool,
    pub mic_peak: i64,
    pub update_reason: UpdateReason,
}

/// What the host asks for when it picks an output device.
pub struct DeviceConfig {
    pub device_id: Option<String>,
    pub main_channels: Option<Vec<i32>>,
    pub cue_channels: Option<Vec<i32>>,
}

/// The whole engine state.
pub struct AudioEngine {
    pub deck_a: DeckState,
    pub deck_b: DeckState,
    pub crossfade: CrossfadeState,
    pub levels: LevelMeterState,
    pub channel_config: ChannelConfig,
    pub microphone: MicrophoneState,
    /// Master tempo in hundredths of a beat per minute.
    pub master_tempo_centi: u32,
    pub running: bool,
    pub mic_available: bool,
    pub output_queue: SampleQueue,
    pub update_reason: Option<UpdateReason>,
    pub sample_rate: u32,
}

pub open spec fn wf_engine(e: AudioEngine) -> bool {
    &&& wf_deck(e.deck_a)
    &&& wf_deck(e.deck_b)
    &&& wf_xfade(e.crossfade)
    &&& wf_meter(e.levels)
    &&& wf_config(e.channel_config)
    &&& wf_mic(e.microphone)
    &&& wf_queue(e.output_queue)
    &&& 1 <= e.master_tempo_centi <= 30_000
    &&& 8000 <= e.sample_rate <= 192_000
}

/// The deck selector names deck A exactly when it is 1.
pub open spec fn selects_deck_a(deck: u32) -> bool {
    deck == 1
}

pub open spec fn same_decks(a: AudioEngine, b: AudioEngine) -> bool {
    a.deck_a == b.deck_a && a.deck_b == b.deck_b
}

pub open spec fn same_xfade(a: AudioEngine, b: AudioEngine) -> bool {
    a.crossfade == b.crossfade
}

pub open spec fn same_levels(a: AudioEngine, b: AudioEngine) -> bool {
    a.levels == b.levels
}

pub open spec fn same_config(a: AudioEngine, b: AudioEngine) -> bool {
    a.channel_config == b.channel_config
}

pub open spec fn same_mic(a: AudioEngine, b: AudioEngine) -> bool {
    a.microphone == b.microphone
}

pub open spec fn same_queue(a: AudioEngine, b: AudioEngine) -> bool {
    a.output_queue == b.output_queue
}

/// Master tempo, running flag, microphone availability and sample rate.
pub open spec fn same_misc(a: AudioEngine, b: AudioEngine) -> bool {
    &&& a.master_tempo_centi == b.master_tempo_centi
    &&& a.running == b.running
    &&& a.mic_available == b.mic_available
    &&& a.sample_rate == b.sample_rate
}

/// A deck's state after it contributes one chunk: a stopped or empty
/// deck stands still; a playing deck's EQ filters take their new state
/// and the transport advances by the frames consumed, wrapping to the
/// loop start at the end of an enabled loop and stopping at frame zero
/// at the end of the track.
pub open spec fn deck_after_chunk(d: DeckState, frames: int) -> DeckState {
    if !(d.playing && d.pcm_data is Some) {
        d
    } else {
        let adv = advanced_position(d, frames);
        let eq2 = eq_state_after(
            d.eq_processor,
            raw_chunk(d.pcm_data->0@, d.position as int, d.rate_ppm as int, frames),
            frames,
        );
        if d.loop_enabled && adv >= d.loop_end {
            DeckState { position: d.loop_start, eq_processor: eq2, ..d }
        } else if adv >= deck_total_frames(d) {
            DeckState { position: 0, playing: false, eq_processor: eq2, ..d }
        } else {
            DeckState { position: adv as usize, eq_processor: eq2, ..d }
        }
    }
}

/// Whether deck A plays once the chunk's crossfade bookkeeping is done:
/// a fade that completed within the chunk stops the deck it faded out
/// and starts the other; a fade still running towards A forces A on.
/// `a_playing` is the deck's own flag after its transport advanced.
pub open spec fn deck_a_plays_after(a_playing: bool, c: CrossfadeState, frames: int) -> bool {
    let after = xfade_after(c, frames);
    let base = match xfade_completion(c, frames) {
        Some(CrossfadeDirection::AtoB) => false,
        Some(CrossfadeDirection::BtoA) => true,
        None => a_playing,
    };
    if after.active && after.direction == Some(CrossfadeDirection::BtoA) {
        true
    } else {
        base
    }
}

/// Whether deck B plays once the chunk's crossfade bookkeeping is done.
pub open spec fn deck_b_plays_after(b_playing: bool, c: CrossfadeState, frames: int) -> bool {
    let after = xfade_after(c, frames);
    let base = match xfade_completion(c, frames) {
        Some(CrossfadeDirection::AtoB) => true,
        Some(CrossfadeDirection::BtoA) => false,
        None => b_playing,
    };
    if after.active && after.direction == Some(CrossfadeDirection::AtoB) {
        true
    } else {
        base
    }
}

/// Deck A's effective mix gain for one chunk: the constant-power curve
/// gain at the post-advance fader position while the deck plays (zero
/// otherwise), scaled by the stored deck gain.
pub open spec fn chunk_gain_a(e: AudioEngine, frames: int) -> int {
    let playing = deck_a_plays_after(
        deck_after_chunk(e.deck_a, frames).playing,
        e.crossfade,
        frames,
    );
    let p = xfade_after(e.crossfade, frames).position as int;
    let curve = if playing {
        spec_isqrt(spec_gain_sq_a(p))
    } else {
        0int
    };
    tdiv(curve * e.deck_a.gain, UNIT as int)
}

/// Deck B's effective mix gain for one chunk.
pub open spec fn chunk_gain_b(e: AudioEngine, frames: int) -> int {
    let playing = deck_b_plays_after(
        deck_after_chunk(e.deck_b, frames).playing,
        e.crossfade,
        frames,
    );
    let p = xfade_after(e.crossfade, frames).position as int;
    let curve = if playing {
        spec_isqrt(spec_gain_sq_b(p))
    } else {
        0int
    };
    tdiv(curve * e.deck_b.gain, UNIT as int)
}

/// Two deck chunks mixed sample for sample at the given gains.
pub open spec fn gain_mix_seq(a: Seq<i64>, b: Seq<i64>, ga: int, gb: int) -> Seq<i64> {
    Seq::new(
        a.len(),
        |k: int| (tdiv(a[k] * ga, UNIT as int) + tdiv(b[k] * gb, UNIT as int)) as i64,
    )
}

/// The chunk's post-microphone mix, as the router and the final clamp
/// see it: the two deck chunks at their effective gains, through the
/// talkover stage.
pub open spec fn chunk_out_mix(e: AudioEngine, frames: int) -> Seq<i64> {
    talkover_mix(
        e.microphone,
        gain_mix_seq(
            deck_chunk_seq(e.deck_a, frames),
            deck_chunk_seq(e.deck_b, frames),
            chunk_gain_a(e, frames),
            chunk_gain_b(e, frames),
        ),
        frames,
    )
}

/// An input device's sample rate, capped at a billion frames a second
/// before it sizes the microphone ring buffer.
pub open spec fn capped_rate(r: int) -> int {
    if r > 1_000_000_000 {
        1_000_000_000int
    } else {
        r
    }
}

/// The router is bypassed for a plain stereo device with no cue routing:
/// the mix is clipped and copied verbatim.
pub open spec fn plain_stereo(c: ChannelConfig) -> bool {
    c.output_channels == 2 && !c.deck_a_cue && !c.deck_b_cue && c.cue_left is None
        && c.cue_right is None
}

impl AudioEngine {
    /// A fresh engine: empty stopped decks, fader at full A, stereo out,
    /// microphone off, master tempo 130, running.
    pub fn new(sample_rate: u32) -> (e: AudioEngine)
        requires
            8000 <= sample_rate <= 192_000,
        ensures
            wf_engine(e),
            e.deck_a.pcm_data is None && !e.deck_a.playing && e.deck_a.position == 0,
            e.deck_b.pcm_data is None && !e.deck_b.playing && e.deck_b.position == 0,
            e.deck_a.gain == UNIT && e.deck_b.gain == UNIT,
            e.deck_a.rate_ppm == UNIT && e.deck_b.rate_ppm == UNIT,
            !e.deck_a.loop_enabled && !e.deck_b.loop_enabled,
            !e.deck_a.eq_processor.cut_state.low && !e.deck_a.eq_processor.cut_state.mid
                && !e.deck_a.eq_processor.cut_state.high,
            !e.deck_b.eq_processor.cut_state.low && !e.deck_b.eq_processor.cut_state.mid
                && !e.deck_b.eq_processor.cut_state.high,
            e.crossfade.position == 0 && !e.crossfade.active,
            e.channel_config.output_channels == 2,
            e.channel_config.main_left == Some(0u16) && e.channel_config.main_right == Some(1u16),
            e.channel_config.cue_left is None && e.channel_config.cue_right is None,
            !e.channel_config.deck_a_cue && !e.channel_config.deck_b_cue,
            !e.microphone.enabled && e.microphone.gain == UNIT && e.microphone.talkover_ducking
                == 500_000,
            e.microphone.input_buffer@.len() == 0,
            e.microphone.peak == 0,
            e.levels.deck_a_peak == 0 && e.levels.deck_b_peak == 0,
            e.levels.deck_a_peak_hold == 0 && e.levels.deck_b_peak_hold == 0,
            e.master_tempo_centi == 13_000,
            e.running,
            !e.mic_available,
            e.update_reason is None,
            e.sample_rate == sample_rate,
            e.output_queue.buf@.len() == 0,
            e.output_queue.target_samples == (sample_rate as int / 10) * 2,
    {
        let target = (sample_rate as usize / 10) * 2;
        AudioEngine {
            deck_a: DeckState::new(),
            deck_b: DeckState::new(),
            crossfade: CrossfadeState::new(),
            levels: LevelMeterState::new(),
            channel_config: ChannelConfig::new(),
            microphone: MicrophoneState::new(),
            master_tempo_centi: 13_000,
            running: true,
            mic_available: false,
            output_queue: SampleQueue::new(target),
            update_reason: None,
            sample_rate,
        }
    }

    /// Start playback on the selected deck; a deck with no track stays
    /// stopped.
    pub fn play(&mut self, deck: u32)
        requires
            wf_engine(*old(self)),
        ensures
            wf_engine(*final(self)),
            selects_deck_a(deck) ==> final(self).deck_a == (DeckState {
                playing: old(self).deck_a.pcm_data is Some || old(self).deck_a.playing,
                ..old(self).deck_a
            }) && final(self).deck_b == old(self).deck_b,
            !selects_deck_a(deck) ==> final(self).deck_b == (DeckState {
                playing: old(self).deck_b.pcm_data is Some || old(self).deck_b.playing,
                ..old(self).deck_b
            }) && final(self).deck_a == old(self).deck_a,
            final(self).update_reason == Some(UpdateReason::Play),
            same_xfade(*old(self), *final(self)),
            same_levels(*old(self), *final(self)),
            same_config(*old(self), *final(self)),
            same_mic(*old(self), *final(self)),
            same_queue(*old(self), *final(self)),
            same_misc(*old(self), *final(self)),
    {
        if deck == 1 {
            if self.deck_a.pcm_data.is_some() {
                self.deck_a.playing = true;
            }
        } else {
            if self.deck_b.pcm_data.is_some() {
                self.deck_b.playing = true;
            }
        }
        self.update_reason = Some(UpdateReason::Play);
    }

    /// Stop playback on the selected deck and cancel any auto-crossfade.
    pub fn stop(&mut self, deck: u32)
        requires
            wf_engine(*old(self)),
        ensures
            wf_engine(*final(self)),
            selects_deck_a(deck) ==> !final(self).deck_a.playing && final(self).deck_b == old(self).deck_b,
            !selects_deck_a(deck) ==> !final(self).deck_b.playing && final(self).deck_a == old(self).deck_a,
            selects_deck_a(deck) ==> final(self).deck_a == (DeckState {
                playing: false,
                ..old(self).deck_a
            }),
            !selects_deck_a(deck) ==> final(self).deck_b == (DeckState {
                playing: false,
                ..old(self).deck_b
            }),
            !final(self).crossfade.active,
            final(self).crossfade.direction is None,
            final(self).crossfade.remaining_frames == 0,
            final(self).crossfade.position == old(self).crossfade.position,
            final(self).update_reason == Some(UpdateReason::Stop),
            same_levels(*old(self), *final(self)),
            same_config(*old(self), *final(self)),
            same_mic(*old(self), *final(self)),
            same_queue(*old(self), *final(self)),
            same_misc(*old(self), *final(self)),
    {
        if deck == 1 {
            self.deck_a.playing = false;
        } else {
            self.deck_b.playing = false;
        }
        self.crossfade.active = false;
        self.crossfade.direction = None;
        self.crossfade.remaining_frames = 0;
        self.update_reason = Some(UpdateReason::Stop);
    }

    /// Load PCM onto the selected deck: rewind, stop, recompute the
    /// playback rate from the track tempo and master tempo.
    pub fn load_track(
        &mut self,
        deck: u32,
        pcm_data: Vec<i64>,
        bpm_centi: Option<u32>,
        track_id: Option<String>,
    )
        requires
            wf_engine(*old(self)),
            pcm_data.len() % 2 == 0,
            pcm_data.len() <= 0x7fff_ffff,
            forall|k: int| 0 <= k < pcm_data@.len() ==> -UNIT <= #[trigger] pcm_data@[k] <= UNIT,
        ensures
            wf_engine(*final(self)),
            ({
                let d = if selects_deck_a(deck) {
                    final(self).deck_a
                } else {
                    final(self).deck_b
                };
                &&& d.pcm_data == Some(pcm_data)
                &&& d.position == 0
                &&& !d.playing
                &&& d.bpm_centi == bpm_centi
                &&& d.rate_ppm == spec_playback_rate(bpm_centi, old(self).master_tempo_centi as int)
                &&& d.track_id == track_id
                &&& !d.loop_enabled
            }),
            selects_deck_a(deck) ==> final(self).deck_b == old(self).deck_b,
            !selects_deck_a(deck) ==> final(self).deck_a == old(self).deck_a,
            final(self).update_reason == Some(UpdateReason::Load),
            same_xfade(*old(self), *final(self)),
            same_levels(*old(self), *final(self)),
            same_config(*old(self), *final(self)),
            same_mic(*old(self), *final(self)),
            same_queue(*old(self), *final(self)),
            same_misc(*old(self), *final(self)),
    {
        let master = self.master_tempo_centi;
        if deck == 1 {
            self.deck_a.load(pcm_data, bpm_centi, track_id, master);
        } else {
            self.deck_b.load(pcm_data, bpm_centi, track_id, master);
        }
        self.update_reason = Some(UpdateReason::Load);
    }

    /// Jump the selected deck to a fraction of its track.
    pub fn seek(&mut self, deck: u32, position_ppm: i64)
        requires
            wf_engine(*old(self)),
        ensures
            wf_engine(*final(self)),
            ({
                let d0 = if selects_deck_a(deck) {
                    old(self).deck_a
                } else {
                    old(self).deck_b
                };
                let d = if selects_deck_a(deck) {
                    final(self).deck_a
                } else {
                    final(self).deck_b
                };
                &&& (d0.pcm_data is Some ==> d.position == (deck_total_frames(d0) * clamp_ppm(
                    position_ppm as int,
                )) / (UNIT as int) && d.position <= deck_total_frames(d0))
                &&& (d0.pcm_data is None ==> d.position == d0.position)
                &&& d.pcm_data == d0.pcm_data
                &&& d.playing == d0.playing
                &&& d.gain == d0.gain
                &&& d.loop_enabled == d0.loop_enabled
                &&& d.loop_start == d0.loop_start
                &&& d.loop_end == d0.loop_end
            }),
            selects_deck_a(deck) ==> final(self).deck_b == old(self).deck_b,
            !selects_deck_a(deck) ==> final(self).deck_a == old(self).deck_a,
            final(self).update_reason == Some(UpdateReason::Seek),
            same_xfade(*old(self), *final(self)),
            same_levels(*old(self), *final(self)),
            same_config(*old(self), *final(self)),
            same_mic(*old(self), *final(self)),
            same_queue(*old(self), *final(self)),
            same_misc(*old(self), *final(self)),
    {
        if deck == 1 {
            self.deck_a.seek_frac(position_ppm);
        } else {
            self.deck_b.seek_frac(position_ppm);
        }
        self.update_reason = Some(UpdateReason::Seek);
    }

    /// Move the crossfader; the position is clamped to its range.
    pub fn set_crossfader_position(&mut self, position_ppm: i64)
        requires
            wf_engine(*old(self)),
        ensures
            wf_engine(*final(self)),
            final(self).crossfade.position == clamp_ppm(position_ppm as int),
            final(self).crossfade.active == old(self).crossfade.active,
            final(self).crossfade.direction == old(self).crossfade.direction,
            final(self).crossfade.remaining_frames == old(self).crossfade.remaining_frames,
            same_decks(*old(self), *final(self)),
            same_levels(*old(self), *final(self)),
            same_config(*old(self), *final(self)),
            same_mic(*old(self), *final(self)),
            same_queue(*old(self), *final(self)),
            same_misc(*old(self), *final(self)),
            final(self).update_reason == old(self).update_reason,
    {
        let p = if position_ppm < 0 {
            0
        } else if position_ppm > UNIT {
            UNIT
        } else {
            position_ppm
        };
        self.crossfade.position = p;
    }

    /// Begin an auto-crossfade.  The target defaults to full B while
    /// deck A plays, else full A; the direction is towards B when the
    /// target sits above the current position.  The fade spans
    /// `duration_ms` of audio time.
    pub fn start_crossfade(&mut self, target_ppm: Option<i64>, duration_ms: i64)
        requires
            wf_engine(*old(self)),
        ensures
            wf_engine(*final(self)),
            ({
                let target = match target_ppm {
                    Some(t) => clamp_ppm(t as int),
                    None => if old(self).deck_a.playing {
                        UNIT as int
                    } else {
                        0int
                    },
                };
                let total = (crate::deck::clamp_ms(duration_ms as int) * old(self).sample_rate as int)
                    / 1000;
                let total_capped = if total <= 0x7fff_ffff {
                    total
                } else {
                    0x7fff_ffff
                };
                &&& final(self).crossfade.active
                &&& final(self).crossfade.target_position == target
                &&& final(self).crossfade.start_position == old(self).crossfade.position
                &&& final(self).crossfade.position == old(self).crossfade.position
                &&& final(self).crossfade.total_frames == total_capped
                &&& final(self).crossfade.remaining_frames == total_capped
                &&& final(self).crossfade.direction == Some(
                    if target > old(self).crossfade.position {
                        CrossfadeDirection::AtoB
                    } else {
                        CrossfadeDirection::BtoA
                    },
                )
            }),
            same_decks(*old(self), *final(self)),
            same_levels(*old(self), *final(self)),
            same_config(*old(self), *final(self)),
            same_mic(*old(self), *final(self)),
            same_queue(*old(self), *final(self)),
            same_misc(*old(self), *final(self)),
            final(self).update_reason == old(self).update_reason,
    {
        let current = self.crossfade.position;
        let target: i64 = match target_ppm {
            Some(t) => {
                if t < 0 {
                    0
                } else if t > UNIT {
                    UNIT
                } else {
                    t
                }
            },
            None => {
                if self.deck_a.playing {
                    UNIT
                } else {
                    0
                }
            },
        };
        let direction = if target > current {
            CrossfadeDirection::AtoB
        } else {
            CrossfadeDirection::BtoA
        };
        let d_ms: i64 = if duration_ms < 0 {
            0
        } else if duration_ms > 0x1_0000_0000 {
            0x1_0000_0000
        } else {
            duration_ms
        };
        proof {
            lemma_mul_bounds_abs(d_ms as int, self.sample_rate as int, 0x1_0000_0000, 200_000);
            vstd::arithmetic::div_mod::lemma_div_pos_is_pos(
                (d_ms as int) * (self.sample_rate as int),
                1000,
            );
        }
        let total_i64: i64 = d_ms * (self.sample_rate as i64) / 1000;
        let total: usize = if total_i64 <= 0x7fff_ffff {
            total_i64 as usize
        } else {
            0x7fff_ffff
        };
        self.crossfade.active = true;
        self.crossfade.direction = Some(direction);
        self.crossfade.remaining_frames = total;
        self.crossfade.total_frames = total;
        self.crossfade.start_position = current;
        self.crossfade.target_position = target;
    }

    /// Set the master tempo in hundredths of a beat per minute and
    /// recompute both decks' playback rates.  Values outside the range
    /// up to 300 beats per minute are ignored.
    pub fn set_master_tempo(&mut self, bpm_centi: i64)
        requires
            wf_engine(*old(self)),
        ensures
            wf_engine(*final(self)),
            (bpm_centi <= 0 || bpm_centi > 30_000) ==> *final(self) == *old(self),
            (0 < bpm_centi <= 30_000) ==> {
                &&& final(self).master_tempo_centi == bpm_centi
                &&& final(self).deck_a == (DeckState {
                    rate_ppm: spec_playback_rate(old(self).deck_a.bpm_centi, bpm_centi as int) as i64,
                    ..old(self).deck_a
                })
                &&& final(self).deck_b == (DeckState {
                    rate_ppm: spec_playback_rate(old(self).deck_b.bpm_centi, bpm_centi as int) as i64,
                    ..old(self).deck_b
                })
            },
            same_xfade(*old(self), *final(self)),
            same_levels(*old(self), *final(self)),
            same_config(*old(self), *final(self)),
            same_mic(*old(self), *final(self)),
            same_queue(*old(self), *final(self)),
            final(self).running == old(self).running,
            final(self).mic_available == old(self).mic_available,
            final(self).sample_rate == old(self).sample_rate,
            final(self).update_reason == old(self).update_reason,
    {
        if bpm_centi <= 0 || bpm_centi > 30_000 {
            return ;
        }
        let master = bpm_centi as u32;
        self.master_tempo_centi = master;
        self.deck_a.rate_ppm = calculate_playback_rate(self.deck_a.bpm_centi, master);
        self.deck_b.rate_ppm = calculate_playback_rate(self.deck_b.bpm_centi, master);
    }

    /// Set the selected deck's gain.  The control value is clamped to
    /// full scale and squared for a perceptual volume curve.
    pub fn set_deck_gain(&mut self, deck: u32, gain_ppm: i64)
        requires
            wf_engine(*old(self)),
        ensures
            wf_engine(*final(self)),
            ({
                let g = clamp_ppm(gain_ppm as int);
                let stored = tdiv(g * g, UNIT as int);
                if selects_deck_a(deck) {
                    final(self).deck_a == (DeckState { gain: stored as i64, ..old(self).deck_a })
                        && final(self).deck_b == old(self).deck_b
                } else {
                    final(self).deck_b == (DeckState { gain: stored as i64, ..old(self).deck_b })
                        && final(self).deck_a == old(self).deck_a
                }
            }),
            same_xfade(*old(self), *final(self)),
            same_levels(*old(self), *final(self)),
            same_config(*old(self), *final(self)),
            same_mic(*old(self), *final(self)),
            same_queue(*old(self), *final(self)),
            same_misc(*old(self), *final(self)),
            final(self).update_reason == old(self).update_reason,
    {
        let g = if gain_ppm < 0 {
            0
        } else if gain_ppm > UNIT {
            UNIT
        } else {
            gain_ppm
        };
        proof {
            lemma_mul_bounds_abs(g as int, g as int, UNIT as int, UNIT as int);
            lemma_tdiv_abs_le(g as int * g as int, UNIT as int, UNIT as int);
            assert(g as int * g as int >= 0) by (nonlinear_arith)
                requires
                    g >= 0,
            ;
            crate::fixed::lemma_tdiv_within(g as int * g as int, UNIT as int);
        }
        let stored = crate::fixed::tdiv_i64(g * g, UNIT);
        if deck == 1 {
            self.deck_a.gain = stored;
        } else {
            self.deck_b.gain = stored;
        }
    }

    /// Set one EQ kill switch on the selected deck.
    pub fn set_eq_cut(&mut self, deck: u32, band: EqBand, enabled: bool)
        requires
            wf_engine(*old(self)),
        ensures
            wf_engine(*final(self)),
            ({
                let d0 = if selects_deck_a(deck) {
                    old(self).deck_a
                } else {
                    old(self).deck_b
                };
                let d = if selects_deck_a(deck) {
                    final(self).deck_a
                } else {
                    final(self).deck_b
                };
                &&& d.eq_processor.cut_state == (match band {
                    EqBand::Low => EqCutState {
                        low: enabled,
                        mid: d0.eq_processor.cut_state.mid,
                        high: d0.eq_processor.cut_state.high,
                    },
                    EqBand::Mid => EqCutState {
                        low: d0.eq_processor.cut_state.low,
                        mid: enabled,
                        high: d0.eq_processor.cut_state.high,
                    },
                    EqBand::High => EqCutState {
                        low: d0.eq_processor.cut_state.low,
                        mid: d0.eq_processor.cut_state.mid,
                        high: enabled,
                    },
                })
                &&& crate::eq::same_filters(d0.eq_processor, d.eq_processor)
                &&& d.position == d0.position
                &&& d.playing == d0.playing
                &&& d.pcm_data == d0.pcm_data
                &&& d.gain == d0.gain
            }),
            selects_deck_a(deck) ==> final(self).deck_b == old(self).deck_b,
            !selects_deck_a(deck) ==> final(self).deck_a == old(self).deck_a,
            same_xfade(*old(self), *final(self)),
            same_levels(*old(self), *final(self)),
            same_config(*old(self), *final(self)),
            same_mic(*old(self), *final(self)),
            same_queue(*old(self), *final(self)),
            same_misc(*old(self), *final(self)),
            final(self).update_reason == old(self).update_reason,
    {
        if deck == 1 {
            self.deck_a.eq_processor.set_cut(band, enabled);
        } else {
            self.deck_b.eq_processor.set_cut(band, enabled);
        }
    }

    /// Read the selected deck's EQ kill switches.
    pub fn get_eq_cut_state(&self, deck: u32) -> (s: EqCutState)
        ensures
            selects_deck_a(deck) ==> s == self.deck_a.eq_processor.cut_state,
            !selects_deck_a(deck) ==> s == self.deck_b.eq_processor.cut_state,
    {
        if deck == 1 {
            self.deck_a.eq_processor.get_cut_state()
        } else {
            self.deck_b.eq_processor.get_cut_state()
        }
    }

    /// Route or unroute the selected deck's pre-mix signal to the cue bus.
    pub fn set_deck_cue_enabled(&mut self, deck: u32, enabled: bool)
        requires
            wf_engine(*old(self)),
        ensures
            wf_engine(*final(self)),
            selects_deck_a(deck) ==> final(self).channel_config == (ChannelConfig {
                deck_a_cue: enabled,
                ..old(self).channel_config
            }),
            !selects_deck_a(deck) ==> final(self).channel_config == (ChannelConfig {
                deck_b_cue: enabled,
                ..old(self).channel_config
            }),
            same_decks(*old(self), *final(self)),
            same_xfade(*old(self), *final(self)),
            same_levels(*old(self), *final(self)),
            same_mic(*old(self), *final(self)),
            same_queue(*old(self), *final(self)),
            same_misc(*old(self), *final(self)),
            final(self).update_reason == old(self).update_reason,
    {
        if deck == 1 {
            self.channel_config.deck_a_cue = enabled;
        } else {
            self.channel_config.deck_b_cue = enabled;
        }
    }

    /// Enable or disable the microphone; disabling flushes the ring
    /// buffer and zeroes the peak.
    pub fn set_mic_enabled(&mut self, enabled: bool)
        requires
            wf_engine(*old(self)),
        ensures
            wf_engine(*final(self)),
            final(self).microphone.enabled == enabled,
            final(self).microphone.gain == old(self).microphone.gain,
            final(self).microphone.talkover_ducking == old(self).microphone.talkover_ducking,
            !enabled ==> final(self).microphone.input_buffer@.len() == 0 && final(self).microphone.peak == 0,
            enabled ==> final(self).microphone.input_buffer@ == old(self).microphone.input_buffer@
                && final(self).microphone.peak == old(self).microphone.peak,
            same_decks(*old(self), *final(self)),
            same_xfade(*old(self), *final(self)),
            same_levels(*old(self), *final(self)),
            same_config(*old(self), *final(self)),
            same_queue(*old(self), *final(self)),
            same_misc(*old(self), *final(self)),
            final(self).update_reason == old(self).update_reason,
    {
        self.microphone.enabled = enabled;
        if !enabled {
            self.microphone.input_buffer.clear();
            self.microphone.peak = 0;
        }
    }

    /// Set the microphone gain, clamped to twice full scale.
    pub fn set_mic_gain(&mut self, gain_ppm: i64)
        requires
            wf_engine(*old(self)),
        ensures
            wf_engine(*final(self)),
            final(self).microphone.gain == (if gain_ppm < 0 {
                0int
            } else if gain_ppm > 2 * UNIT {
                2 * UNIT as int
            } else {
                gain_ppm as int
            }),
            final(self).microphone.enabled == old(self).microphone.enabled,
            final(self).microphone.talkover_ducking == old(self).microphone.talkover_ducking,
            final(self).microphone.input_buffer@ == old(self).microphone.input_buffer@,
            final(self).microphone.peak == old(self).microphone.peak,
            same_decks(*old(self), *final(self)),
            same_xfade(*old(self), *final(self)),
            same_levels(*old(self), *final(self)),
            same_config(*old(self), *final(self)),
            same_queue(*old(self), *final(self)),
            same_misc(*old(self), *final(self)),
            final(self).update_reason == old(self).update_reason,
    {
        self.microphone.gain = if gain_ppm < 0 {
            0
        } else if gain_ppm > 2 * UNIT {
            2 * UNIT
        } else {
            gain_ppm
        };
    }

    /// Set how far the music ducks while the microphone is enabled.
    pub fn set_talkover_ducking(&mut self, ducking_ppm: i64)
        requires
            wf_engine(*old(self)),
        ensures
            wf_engine(*final(self)),
            final(self).microphone.talkover_ducking == clamp_ppm(ducking_ppm as int),
            final(self).microphone.enabled == old(self).microphone.enabled,
            final(self).microphone.gain == old(self).microphone.gain,
            final(self).microphone.input_buffer@ == old(self).microphone.input_buffer@,
            final(self).microphone.peak == old(self).microphone.peak,
            same_decks(*old(self), *final(self)),
            same_xfade(*old(self), *final(self)),
            same_levels(*old(self), *final(self)),
            same_config(*old(self), *final(self)),
            same_queue(*old(self), *final(self)),
            same_misc(*old(self), *final(self)),
            final(self).update_reason == old(self).update_reason,
    {
        self.microphone.talkover_ducking = if ducking_ppm < 0 {
            0
        } else if ducking_ppm > UNIT {
            UNIT
        } else {
            ducking_ppm
        };
    }

    /// Set a loop over a fraction range of the selected deck's track.
    pub fn set_loop(&mut self, deck: u32, start_ppm: i64, end_ppm: i64, enabled: bool)
        requires
            wf_engine(*old(self)),
        ensures
            wf_engine(*final(self)),
            ({
                let d0 = if selects_deck_a(deck) {
                    old(self).deck_a
                } else {
                    old(self).deck_b
                };
                let d = if selects_deck_a(deck) {
                    final(self).deck_a
                } else {
                    final(self).deck_b
                };
                &&& (d0.pcm_data is Some ==> d.loop_start == (deck_total_frames(d0) * clamp_ppm(
                    start_ppm as int,
                )) / (UNIT as int) && d.loop_end == (deck_total_frames(d0) * clamp_ppm(
                    end_ppm as int,
                )) / (UNIT as int) && d.loop_enabled == (enabled && d.loop_end > d.loop_start))
                &&& (d0.pcm_data is None ==> d == d0)
                &&& d.position == d0.position
                &&& d.playing == d0.playing
                &&& d.pcm_data == d0.pcm_data
            }),
            selects_deck_a(deck) ==> final(self).deck_b == old(self).deck_b,
            !selects_deck_a(deck) ==> final(self).deck_a == old(self).deck_a,
            same_xfade(*old(self), *final(self)),
            same_levels(*old(self), *final(self)),
            same_config(*old(self), *final(self)),
            same_mic(*old(self), *final(self)),
            same_queue(*old(self), *final(self)),
            same_misc(*old(self), *final(self)),
            final(self).update_reason == old(self).update_reason,
    {
        if deck == 1 {
            self.deck_a.set_loop_frac(start_ppm, end_ppm, enabled);
        } else {
            self.deck_b.set_loop_frac(start_ppm, end_ppm, enabled);
        }
    }

    /// Set a beat-aligned loop on the selected deck from a time range in
    /// milliseconds; jump into the loop when the position is outside it.
    pub fn set_beat_loop(&mut self, deck: u32, start_ms: i64, end_ms: i64)
        requires
            wf_engine(*old(self)),
        ensures
            wf_engine(*final(self)),
            selects_deck_a(deck) ==> final(self).deck_b == old(self).deck_b,
            !selects_deck_a(deck) ==> final(self).deck_a == old(self).deck_a,
            ({
                let d0 = if selects_deck_a(deck) {
                    old(self).deck_a
                } else {
                    old(self).deck_b
                };
                let d = if selects_deck_a(deck) {
                    final(self).deck_a
                } else {
                    final(self).deck_b
                };
                let ls = (crate::deck::clamp_ms(start_ms as int) * old(self).sample_rate as int)
                    / 1000;
                let le_raw = (crate::deck::clamp_ms(end_ms as int) * old(self).sample_rate as int)
                    / 1000;
                let le = if le_raw <= deck_total_frames(d0) {
                    le_raw
                } else {
                    deck_total_frames(d0)
                };
                &&& (d0.pcm_data is None ==> d == d0)
                &&& (d0.pcm_data is Some && le > ls ==> d.loop_start == ls && d.loop_end == le
                    && d.loop_enabled && (d0.position >= le || d0.position < ls ==> d.position
                    == ls) && (ls <= d0.position < le ==> d.position == d0.position))
                &&& (d0.pcm_data is Some && le <= ls ==> d == d0)
            }),
            same_xfade(*old(self), *final(self)),
            same_levels(*old(self), *final(self)),
            same_config(*old(self), *final(self)),
            same_mic(*old(self), *final(self)),
            same_queue(*old(self), *final(self)),
            same_misc(*old(self), *final(self)),
            final(self).update_reason == old(self).update_reason,
    {
        let sr = self.sample_rate;
        if deck == 1 {
            self.deck_a.set_beat_loop_ms(start_ms, end_ms, sr);
        } else {
            self.deck_b.set_beat_loop_ms(start_ms, end_ms, sr);
        }
    }

    /// Drop the selected deck's loop.
    pub fn clear_loop(&mut self, deck: u32)
        requires
            wf_engine(*old(self)),
        ensures
            wf_engine(*final(self)),
            ({
                let d = if selects_deck_a(deck) {
                    final(self).deck_a
                } else {
                    final(self).deck_b
                };
                !d.loop_enabled && d.loop_start == 0 && d.loop_end == 0
            }),
            selects_deck_a(deck) ==> final(self).deck_a == (DeckState {
                loop_enabled: false,
                loop_start: 0,
                loop_end: 0,
                ..old(self).deck_a
            }) && final(self).deck_b == old(self).deck_b,
            !selects_deck_a(deck) ==> final(self).deck_b == (DeckState {
                loop_enabled: false,
                loop_start: 0,
                loop_end: 0,
                ..old(self).deck_b
            }) && final(self).deck_a == old(self).deck_a,
            same_xfade(*old(self), *final(self)),
            same_levels(*old(self), *final(self)),
            same_config(*old(self), *final(self)),
            same_mic(*old(self), *final(self)),
            same_queue(*old(self), *final(self)),
            same_misc(*old(self), *final(self)),
            final(self).update_reason == old(self).update_reason,
    {
        if deck == 1 {
            self.deck_a.clear_loop();
        } else {
            self.deck_b.clear_loop();
        }
    }

    /// Stop the engine: the processing task exits at its next round, the
    /// decks stop, and the queue is flushed.
    pub fn close(&mut self)
        requires
            wf_engine(*old(self)),
        ensures
            wf_engine(*final(self)),
            !final(self).running,
            !final(self).deck_a.playing,
            !final(self).deck_b.playing,
            final(self).output_queue.buf@.len() == 0,
            same_xfade(*old(self), *final(self)),
            same_levels(*old(self), *final(self)),
            same_config(*old(self), *final(self)),
            same_mic(*old(self), *final(self)),
            final(self).master_tempo_centi == old(self).master_tempo_centi,
            final(self).mic_available == old(self).mic_available,
            final(self).sample_rate == old(self).sample_rate,
            final(self).update_reason == old(self).update_reason,
    {
        self.running = false;
        self.deck_a.playing = false;
        self.deck_b.playing = false;
        self.output_queue.clear();
    }

    /// Route main and cue onto explicit channel indices.  A negative or
    /// oversized index disables its slot; the device channel count
    /// becomes one past the highest mapped index, or stereo when no
    /// index is mapped at all.
    pub fn set_channel_config(
        &mut self,
        main_left: i32,
        main_right: i32,
        cue_left: i32,
        cue_right: i32,
    )
        requires
            wf_engine(*old(self)),
        ensures
            wf_engine(*final(self)),
            final(self).channel_config.main_left == spec_slot(main_left as int),
            final(self).channel_config.main_right == spec_slot(main_right as int),
            final(self).channel_config.cue_left == spec_slot(cue_left as int),
            final(self).channel_config.cue_right == spec_slot(cue_right as int),
            final(self).channel_config.output_channels as int == ({
                let m = max2(
                    max2(kept_val(main_left as int), kept_val(main_right as int)),
                    max2(kept_val(cue_left as int), kept_val(cue_right as int)),
                );
                if m < 0 {
                    2int
                } else {
                    m + 1
                }
            }),
            final(self).channel_config.deck_a_cue == old(self).channel_config.deck_a_cue,
            final(self).channel_config.deck_b_cue == old(self).channel_config.deck_b_cue,
            same_decks(*old(self), *final(self)),
            same_xfade(*old(self), *final(self)),
            same_levels(*old(self), *final(self)),
            same_mic(*old(self), *final(self)),
            same_queue(*old(self), *final(self)),
            same_misc(*old(self), *final(self)),
            final(self).update_reason == old(self).update_reason,
    {
        let sl = slot_of(main_left);
        let sr = slot_of(main_right);
        let cl = slot_of(cue_left);
        let cr = slot_of(cue_right);
        let mut max_c: i32 = -1;
        if main_left >= 0 && main_left <= 0xfffe && main_left > max_c {
            max_c = main_left;
        }
        if main_right >= 0 && main_right <= 0xfffe && main_right > max_c {
            max_c = main_right;
        }
        if cue_left >= 0 && cue_left <= 0xfffe && cue_left > max_c {
            max_c = cue_left;
        }
        if cue_right >= 0 && cue_right <= 0xfffe && cue_right > max_c {
            max_c = cue_right;
        }
        if max_c < 0 {
            max_c = 1;
        }
        self.channel_config.main_left = sl;
        self.channel_config.main_right = sr;
        self.channel_config.cue_left = cl;
        self.channel_config.cue_right = cr;
        self.channel_config.output_channels = (max_c + 1) as u16;
    }

    /// Apply a device's channel count and the requested mapping, as the
    /// host-facing device configuration does after resolving the device:
    /// mapped indices are clamped to the device's channels, a missing
    /// main mapping falls back to the first two channels, a missing cue
    /// mapping is left as it was, and the queue is flushed so stale
    /// audio at the old channel count never reaches the new device.
    pub fn apply_device_config(
        &mut self,
        output_channels: u16,
        main_channels: Option<Vec<i32>>,
        cue_channels: Option<Vec<i32>>,
    )
        requires
            wf_engine(*old(self)),
            output_channels >= 1,
        ensures
            wf_engine(*final(self)),
            final(self).channel_config.output_channels == output_channels,
            ({
                let oc = output_channels as int;
                match main_channels {
                    Some(v) => final(self).channel_config.main_left == (if v@.len() >= 1 {
                        clamped_slot(v@[0] as int, oc)
                    } else {
                        None
                    }) && final(self).channel_config.main_right == (if v@.len() >= 2 {
                        clamped_slot(v@[1] as int, oc)
                    } else {
                        None
                    }),
                    None => final(self).channel_config.main_left == Some(0u16) && final(self).channel_config.main_right == Some(
                        (if 1 < oc {
                            1
                        } else {
                            oc - 1
                        }) as u16,
                    ),
                }
            }),
            ({
                let oc = output_channels as int;
                match cue_channels {
                    Some(v) => final(self).channel_config.cue_left == (if v@.len() >= 1 {
                        clamped_slot(v@[0] as int, oc)
                    } else {
                        None
                    }) && final(self).channel_config.cue_right == (if v@.len() >= 2 {
                        clamped_slot(v@[1] as int, oc)
                    } else {
                        None
                    }),
                    None => final(self).channel_config.cue_left == reclamped(
                        old(self).channel_config.cue_left,
                        output_channels,
                    ) && final(self).channel_config.cue_right == reclamped(
                        old(self).channel_config.cue_right,
                        output_channels,
                    ),
                }
            }),
            final(self).channel_config.deck_a_cue == old(self).channel_config.deck_a_cue,
            final(self).channel_config.deck_b_cue == old(self).channel_config.deck_b_cue,
            final(self).output_queue.buf@.len() == 0,
            same_decks(*old(self), *final(self)),
            same_xfade(*old(self), *final(self)),
            same_levels(*old(self), *final(self)),
            same_mic(*old(self), *final(self)),
            same_misc(*old(self), *final(self)),
            final(self).update_reason == old(self).update_reason,
    {
        let oc = output_channels;
        self.channel_config.output_channels = oc;
        match &main_channels {
            Some(v) => {
                self.channel_config.main_left = if v.len() >= 1 {
                    clamp_channel(v[0], oc)
                } else {
                    None
                };
                self.channel_config.main_right = if v.len() >= 2 {
                    clamp_channel(v[1], oc)
                } else {
                    None
                };
            },
            None => {
                self.channel_config.main_left = Some(0);
                self.channel_config.main_right = Some(
                    if 1 < oc {
                        1
                    } else {
                        oc - 1
                    },
                );
            },
        }
        match &cue_channels {
            Some(v) => {
                self.channel_config.cue_left = if v.len() >= 1 {
                    clamp_channel(v[0], oc)
                } else {
                    None
                };
                self.channel_config.cue_right = if v.len() >= 2 {
                    clamp_channel(v[1], oc)
                } else {
                    None
                };
            },
            None => {
                self.channel_config.cue_left = match self.channel_config.cue_left {
                    Some(i) => if i < oc {
                        Some(i)
                    } else {
                        None
                    },
                    None => None,
                };
                self.channel_config.cue_right = match self.channel_config.cue_right {
                    Some(i) => if i < oc {
                        Some(i)
                    } else {
                        None
                    },
                    None => None,
                };
            },
        }
        self.output_queue.clear();
    }

    /// Record whether the device gave the engine an input stream.
    pub fn set_mic_available(&mut self, available: bool)
        requires
            wf_engine(*old(self)),
        ensures
            wf_engine(*final(self)),
            final(self).mic_available == available,
            same_decks(*old(self), *final(self)),
            same_xfade(*old(self), *final(self)),
            same_levels(*old(self), *final(self)),
            same_config(*old(self), *final(self)),
            same_mic(*old(self), *final(self)),
            same_queue(*old(self), *final(self)),
            final(self).master_tempo_centi == old(self).master_tempo_centi,
            final(self).running == old(self).running,
            final(self).sample_rate == old(self).sample_rate,
            final(self).update_reason == old(self).update_reason,
    {
        self.mic_available = available;
    }

    /// Feed one block from the input device into the microphone ring
    /// buffer, bounded to a tenth of a second of stereo audio.  A rate
    /// beyond a billion frames per second is capped before sizing the
    /// buffer.
    pub fn mic_capture(&mut self, input: &Vec<i64>, input_channels: usize, input_sample_rate: u32)
        requires
            wf_engine(*old(self)),
            input_channels >= 1,
            input.len() <= 0x1000_0000,
            forall|k: int| 0 <= k < input@.len() ==> -UNIT <= #[trigger] input@[k] <= UNIT,
        ensures
            wf_engine(*final(self)),
            final(self).microphone.enabled == old(self).microphone.enabled,
            final(self).microphone.gain == old(self).microphone.gain,
            final(self).microphone.talkover_ducking == old(self).microphone.talkover_ducking,
            final(self).microphone.input_buffer@ == crate::mic::bounded_tail(
                old(self).microphone.input_buffer@ + crate::mic::mono_dup(
                    input@,
                    input_channels as int,
                    input@.len() as int / input_channels as int,
                ),
                ((capped_rate(input_sample_rate as int) / 10) * 2),
            ),
            final(self).microphone.peak == crate::mic::smoothed_peak(
                old(self).microphone.peak as int,
                crate::mic::chan_peak(
                    input@,
                    input_channels as int,
                    input@.len() as int / input_channels as int,
                ),
            ),
            same_decks(*old(self), *final(self)),
            same_xfade(*old(self), *final(self)),
            same_levels(*old(self), *final(self)),
            same_config(*old(self), *final(self)),
            same_queue(*old(self), *final(self)),
            same_misc(*old(self), *final(self)),
            final(self).update_reason == old(self).update_reason,
    {
        let rate: u32 = if input_sample_rate > 1_000_000_000 {
            1_000_000_000
        } else {
            input_sample_rate
        };
        let max_samples = (rate as usize / 10) * 2;
        self.microphone.mic_ingest(input, input_channels, max_samples);
    }

    /// Run one processing round: each deck contributes a chunk, the
    /// auto-crossfade advances, the decks are mixed through the
    /// constant-power curve and deck gains, the microphone is applied
    /// with talkover, the meters update, and the mix is routed onto the
    /// device channels with every sample clamped to full scale.
    #[verifier::rlimit(100)]
    pub fn process_chunk(&mut self) -> (out: Vec<i64>)
        requires
            wf_engine(*old(self)),
        ensures
            wf_engine(*final(self)),
            out@.len() == FRAMES_PER_CHUNK * old(self).channel_config.output_channels,
            out@.len() <= CHUNK_SAMPLES_MAX,
            forall|k: int| 0 <= k < out@.len() ==> -UNIT <= #[trigger] out@[k] <= UNIT,
            same_config(*old(self), *final(self)),
            same_queue(*old(self), *final(self)),
            same_misc(*old(self), *final(self)),
            final(self).update_reason is None,
            final(self).deck_a.position <= deck_total_frames(final(self).deck_a),
            final(self).deck_b.position <= deck_total_frames(final(self).deck_b),
            old(self).deck_a.playing && old(self).deck_a.loop_enabled && old(self).deck_a.loop_start <= old(self).deck_a.position < old(self).deck_a.loop_end ==> final(self).deck_a.loop_start <= final(self).deck_a.position < final(self).deck_a.loop_end,
            old(self).deck_b.playing && old(self).deck_b.loop_enabled && old(self).deck_b.loop_start <= old(self).deck_b.position < old(self).deck_b.loop_end ==> final(self).deck_b.loop_start <= final(self).deck_b.position < final(self).deck_b.loop_end,
            !old(self).crossfade.active ==> final(self).crossfade == old(self).crossfade,
            old(self).crossfade.active && 0 < old(self).crossfade.remaining_frames
                <= FRAMES_PER_CHUNK ==> {
                &&& final(self).crossfade.position == old(self).crossfade.target_position
                &&& !final(self).crossfade.active
                &&& final(self).crossfade.remaining_frames == 0
                &&& (old(self).crossfade.direction matches Some(CrossfadeDirection::AtoB)
                    ==> !final(self).deck_a.playing && final(self).deck_b.playing)
                &&& (old(self).crossfade.direction matches Some(CrossfadeDirection::BtoA)
                    ==> !final(self).deck_b.playing && final(self).deck_a.playing)
            },
            old(self).crossfade.active && old(self).crossfade.remaining_frames > FRAMES_PER_CHUNK
                ==> {
                &&& final(self).crossfade.active
                &&& final(self).crossfade.remaining_frames == old(self).crossfade.remaining_frames
                    - FRAMES_PER_CHUNK
                &&& (old(self).crossfade.direction matches Some(CrossfadeDirection::AtoB) ==> final(self).deck_b.playing)
                &&& (old(self).crossfade.direction matches Some(CrossfadeDirection::BtoA) ==> final(self).deck_a.playing)
            },
            final(self).levels.deck_a_peak == tdiv(
                peak_of(
                    deck_chunk_seq(old(self).deck_a, FRAMES_PER_CHUNK as int),
                    2 * FRAMES_PER_CHUNK as int,
                ) * old(self).deck_a.gain,
                UNIT as int,
            ),
            final(self).levels.deck_b_peak == tdiv(
                peak_of(
                    deck_chunk_seq(old(self).deck_b, FRAMES_PER_CHUNK as int),
                    2 * FRAMES_PER_CHUNK as int,
                ) * old(self).deck_b.gain,
                UNIT as int,
            ),
            final(self).levels.deck_a_peak_hold >= final(self).levels.deck_a_peak,
            final(self).levels.deck_b_peak_hold >= final(self).levels.deck_b_peak,
            (!old(self).deck_a.playing || old(self).deck_a.pcm_data is None) && (!old(
                self,
            ).deck_b.playing || old(self).deck_b.pcm_data is None) && old(
                self,
            ).microphone.input_buffer@.len() < 2 * FRAMES_PER_CHUNK ==> forall|k: int|
                0 <= k < out@.len() ==> out@[k] == 0,
            final(self).crossfade == xfade_after(old(self).crossfade, FRAMES_PER_CHUNK as int),
            final(self).deck_a == (DeckState {
                playing: deck_a_plays_after(
                    deck_after_chunk(old(self).deck_a, FRAMES_PER_CHUNK as int).playing,
                    old(self).crossfade,
                    FRAMES_PER_CHUNK as int,
                ),
                ..deck_after_chunk(old(self).deck_a, FRAMES_PER_CHUNK as int)
            }),
            final(self).deck_b == (DeckState {
                playing: deck_b_plays_after(
                    deck_after_chunk(old(self).deck_b, FRAMES_PER_CHUNK as int).playing,
                    old(self).crossfade,
                    FRAMES_PER_CHUNK as int,
                ),
                ..deck_after_chunk(old(self).deck_b, FRAMES_PER_CHUNK as int)
            }),
            old(self).microphone.input_buffer@.len() < 2 * FRAMES_PER_CHUNK ==> final(self).microphone
                == old(self).microphone,
            old(self).microphone.input_buffer@.len() >= 2 * FRAMES_PER_CHUNK ==> {
                &&& final(self).microphone.enabled == old(self).microphone.enabled
                &&& final(self).microphone.gain == old(self).microphone.gain
                &&& final(self).microphone.talkover_ducking == old(self).microphone.talkover_ducking
                &&& final(self).microphone.input_buffer@ == old(self).microphone.input_buffer@.skip(
                    2 * FRAMES_PER_CHUNK as int,
                )
                &&& final(self).microphone.peak == peak_of(
                    old(self).microphone.input_buffer@,
                    2 * FRAMES_PER_CHUNK as int,
                )
            },
            final(self).levels.deck_a_peak_hold == hold_next(
                final(self).levels.deck_a_peak as int,
                old(self).levels.deck_a_peak_hold as int,
                old(self).levels.deck_a_hold_age_ms as int,
                FRAMES_PER_CHUNK as int * 1000 / old(self).sample_rate as int,
            ),
            final(self).levels.deck_a_hold_age_ms == hold_age_next(
                final(self).levels.deck_a_peak as int,
                old(self).levels.deck_a_peak_hold as int,
                old(self).levels.deck_a_hold_age_ms as int,
                FRAMES_PER_CHUNK as int * 1000 / old(self).sample_rate as int,
            ),
            final(self).levels.deck_b_peak_hold == hold_next(
                final(self).levels.deck_b_peak as int,
                old(self).levels.deck_b_peak_hold as int,
                old(self).levels.deck_b_hold_age_ms as int,
                FRAMES_PER_CHUNK as int * 1000 / old(self).sample_rate as int,
            ),
            final(self).levels.deck_b_hold_age_ms == hold_age_next(
                final(self).levels.deck_b_peak as int,
                old(self).levels.deck_b_peak_hold as int,
                old(self).levels.deck_b_hold_age_ms as int,
                FRAMES_PER_CHUNK as int * 1000 / old(self).sample_rate as int,
            ),
            ({
                let mixed = chunk_out_mix(*old(self), FRAMES_PER_CHUNK as int);
                let cc = old(self).channel_config;
                let oc = cc.output_channels as int;
                let a = deck_chunk_seq(old(self).deck_a, FRAMES_PER_CHUNK as int);
                let b = deck_chunk_seq(old(self).deck_b, FRAMES_PER_CHUNK as int);
                &&& (plain_stereo(cc) ==> forall|k: int|
                    0 <= k < out@.len() ==> #[trigger] out@[k] == spec_clamp_unit(mixed[k] as int))
                &&& (!plain_stereo(cc) ==> forall|f: int, ch: int|
                    0 <= f < FRAMES_PER_CHUNK && 0 <= ch < oc ==> #[trigger] out@[f * oc + ch]
                        == spec_clamp_unit(
                        route_at(
                            cc,
                            mixed[2 * f] as int,
                            mixed[2 * f + 1] as int,
                            a[2 * f] as int,
                            a[2 * f + 1] as int,
                            b[2 * f] as int,
                            b[2 * f + 1] as int,
                            ch,
                        ),
                    ))
            }),
    {
        let frames = FRAMES_PER_CHUNK;
        let elapsed_ms: i64 = ((frames as i64) * 1000) / (self.sample_rate as i64);
        proof {
            assert(elapsed_ms == (frames as int) * 1000 / (self.sample_rate as int));
            vstd::arithmetic::div_mod::lemma_div_pos_is_pos((frames as int) * 1000, self.sample_rate as int);
            vstd::arithmetic::div_mod::lemma_div_is_ordered(
                (frames as int) * 1000,
                2_048_000,
                self.sample_rate as int,
            );
            vstd::arithmetic::div_mod::lemma_div_is_ordered_by_denominator(2_048_000, 8000, self.sample_rate as int);
        }
        let buffer_a = self.deck_a.produce_chunk(frames);
        let buffer_b = self.deck_b.produce_chunk(frames);
        let ghost da1 = self.deck_a;
        let ghost db1 = self.deck_b;
        proof {
            assert(da1 == deck_after_chunk(old(self).deck_a, frames as int));
            assert(db1 == deck_after_chunk(old(self).deck_b, frames as int));
        }
        let completed = self.crossfade.advance(frames);
        match completed {
            Some(CrossfadeDirection::AtoB) => {
                self.deck_a.playing = false;
                self.deck_b.playing = true;
            },
            Some(CrossfadeDirection::BtoA) => {
                self.deck_b.playing = false;
                self.deck_a.playing = true;
            },
            None => {},
        }
        if self.crossfade.active {
            match self.crossfade.direction {
                Some(CrossfadeDirection::AtoB) => {
                    if !self.deck_b.playing {
                        self.deck_b.playing = true;
                    }
                },
                Some(CrossfadeDirection::BtoA) => {
                    if !self.deck_a.playing {
                        self.deck_a.playing = true;
                    }
                },
                None => {},
            }
        }
        proof {
            assert(self.crossfade == xfade_after(old(self).crossfade, frames as int));
            assert(self.deck_a == (DeckState {
                playing: deck_a_plays_after(da1.playing, old(self).crossfade, frames as int),
                ..da1
            }));
            assert(self.deck_b == (DeckState {
                playing: deck_b_plays_after(db1.playing, old(self).crossfade, frames as int),
                ..db1
            }));
        }
        let p = self.crossfade.position;
        let curve_a: i64 = if self.deck_a.playing {
            xfade_gain_a(p)
        } else {
            0
        };
        let curve_b: i64 = if self.deck_b.playing {
            xfade_gain_b(p)
        } else {
            0
        };
        let deck_a_gain = apply_gain(curve_a, self.deck_a.gain);
        let deck_b_gain = apply_gain(curve_b, self.deck_b.gain);
        proof {
            lemma_mul_bounds_abs(curve_a as int, self.deck_a.gain as int, UNIT as int, UNIT as int);
            lemma_tdiv_abs_le(curve_a as int * self.deck_a.gain as int, UNIT as int, UNIT as int);
            lemma_mul_bounds_abs(curve_b as int, self.deck_b.gain as int, UNIT as int, UNIT as int);
            lemma_tdiv_abs_le(curve_b as int * self.deck_b.gain as int, UNIT as int, UNIT as int);
            assert(deck_a_gain as int == chunk_gain_a(*old(self), frames as int));
            assert(deck_b_gain as int == chunk_gain_b(*old(self), frames as int));
        }

        let pa = calculate_peak(&buffer_a, frames);
        let pb = calculate_peak(&buffer_b, frames);
        let scaled_pa = apply_gain(pa, self.deck_a.gain);
        let scaled_pb = apply_gain(pb, self.deck_b.gain);
        proof {
            lemma_mul_bounds_abs(pa as int, self.deck_a.gain as int, PEAK_LIMIT as int, UNIT as int);
            lemma_tdiv_abs_le(pa as int * self.deck_a.gain as int, UNIT as int, PEAK_LIMIT as int);
            assert(pa as int * self.deck_a.gain as int >= 0) by (nonlinear_arith)
                requires
                    pa >= 0,
                    self.deck_a.gain >= 0,
            ;
            crate::fixed::lemma_tdiv_within(pa as int * self.deck_a.gain as int, UNIT as int);
            lemma_mul_bounds_abs(pb as int, self.deck_b.gain as int, PEAK_LIMIT as int, UNIT as int);
            lemma_tdiv_abs_le(pb as int * self.deck_b.gain as int, UNIT as int, PEAK_LIMIT as int);
            assert(pb as int * self.deck_b.gain as int >= 0) by (nonlinear_arith)
                requires
                    pb >= 0,
                    self.deck_b.gain >= 0,
            ;
            crate::fixed::lemma_tdiv_within(pb as int * self.deck_b.gain as int, UNIT as int);
        }
        self.levels.deck_a_peak = scaled_pa;
        self.levels.deck_b_peak = scaled_pb;
        update_peak_hold(&mut self.levels, elapsed_ms);

        let out = mix_and_route(
            &mut self.microphone,
            &self.channel_config,
            &buffer_a,
            &buffer_b,
            deck_a_gain,
            deck_b_gain,
            frames,
        );
        proof {
            assert(buffer_a@ == deck_chunk_seq(old(self).deck_a, frames as int));
            assert(buffer_b@ == deck_chunk_seq(old(self).deck_b, frames as int));
            assert(chunk_out_mix(*old(self), frames as int) == talkover_mix(
                old(self).microphone,
                gain_mix_seq(buffer_a@, buffer_b@, deck_a_gain as int, deck_b_gain as int),
                frames as int,
            ));
            if (!old(self).deck_a.playing || old(self).deck_a.pcm_data is None) && (!old(
                self,
            ).deck_b.playing || old(self).deck_b.pcm_data is None) {
                assert forall|k: int| 0 <= k < buffer_a@.len() implies #[trigger] buffer_a@[k]
                    == 0 by {}
                assert forall|k: int| 0 <= k < buffer_b@.len() implies #[trigger] buffer_b@[k]
                    == 0 by {}
            }
        }
        self.update_reason = None;
        out
    }

    /// One driver round: while the queue is below its refill mark, it
    /// grows by exactly one chunk of `FRAMES_PER_CHUNK` frames at the
    /// device channel count, which keeps it under the high-water mark
    /// of twice the target depth plus that one chunk; at or above the
    /// mark nothing at all changes.
    pub fn pump_chunk(&mut self)
        requires
            wf_engine(*old(self)),
        ensures
            wf_engine(*final(self)),
            same_config(*old(self), *final(self)),
            same_misc(*old(self), *final(self)),
            final(self).output_queue.target_samples == old(self).output_queue.target_samples,
            old(self).output_queue.buf@.len() >= 2 * old(self).output_queue.target_samples ==> *final(self)
                == *old(self),
            old(self).output_queue.buf@.len() < 2 * old(self).output_queue.target_samples ==> {
                &&& final(self).output_queue.buf@.len() == old(self).output_queue.buf@.len()
                    + FRAMES_PER_CHUNK as int * old(self).channel_config.output_channels as int
                &&& final(self).output_queue.buf@.len() < 2 * old(self).output_queue.target_samples
                    + FRAMES_PER_CHUNK as int * old(self).channel_config.output_channels as int
                &&& forall|k: int|
                    0 <= k < old(self).output_queue.buf@.len()
                        ==> #[trigger] final(self).output_queue.buf@[k]
                        == old(self).output_queue.buf@[k]
                &&& ({
                    let base = old(self).output_queue.buf@.len() as int;
                    let mixed = chunk_out_mix(*old(self), FRAMES_PER_CHUNK as int);
                    let cc = old(self).channel_config;
                    let oc = cc.output_channels as int;
                    let a = deck_chunk_seq(old(self).deck_a, FRAMES_PER_CHUNK as int);
                    let b = deck_chunk_seq(old(self).deck_b, FRAMES_PER_CHUNK as int);
                    &&& (plain_stereo(cc) ==> forall|k: int|
                        0 <= k < 2 * FRAMES_PER_CHUNK
                            ==> #[trigger] final(self).output_queue.buf@[base + k]
                            == spec_clamp_unit(mixed[k] as int))
                    &&& (!plain_stereo(cc) ==> forall|f: int, ch: int|
                        0 <= f < FRAMES_PER_CHUNK && 0 <= ch < oc
                            ==> #[trigger] final(self).output_queue.buf@[base + f * oc + ch]
                            == spec_clamp_unit(
                            route_at(
                                cc,
                                mixed[2 * f] as int,
                                mixed[2 * f + 1] as int,
                                a[2 * f] as int,
                                a[2 * f + 1] as int,
                                b[2 * f] as int,
                                b[2 * f + 1] as int,
                                ch,
                            ),
                        ))
                })
            },
    {
        if self.output_queue.needs_fill() {
            let chunk = self.process_chunk();
            self.output_queue.push_chunk(&chunk);
            proof {
                let base = old(self).output_queue.buf@.len() as int;
                assert forall|k: int|
                    0 <= k < chunk@.len() implies #[trigger] self.output_queue.buf@[base + k]
                    == chunk@[k] by {}
                let cc = old(self).channel_config;
                let oc = cc.output_channels as int;
                if !plain_stereo(cc) {
                    assert forall|f: int, ch: int|
                        0 <= f < FRAMES_PER_CHUNK && 0 <= ch < oc implies #[trigger] self.output_queue.buf@[base
                        + f * oc + ch] == chunk@[f * oc + ch] by {
                        assert(0 <= f * oc + ch < chunk@.len()) by (nonlinear_arith)
                            requires
                                0 <= f < FRAMES_PER_CHUNK as int,
                                0 <= ch < oc,
                                oc >= 1,
                                chunk@.len() == FRAMES_PER_CHUNK as int * oc,
                        ;
                        assert(self.output_queue.buf@[base + (f * oc + ch)] == chunk@[f * oc + ch]);
                    }
                }
            }
        }
    }

    /// One output-callback sample: the queue's front, or silence on
    /// underrun.
    pub fn pop_output_sample(&mut self) -> (s: i64)
        requires
            wf_engine(*old(self)),
        ensures
            wf_engine(*final(self)),
            -UNIT <= s <= UNIT,
            old(self).output_queue.buf@.len() > 0 ==> s == old(self).output_queue.buf@[0],
            old(self).output_queue.buf@.len() == 0 ==> s == 0,
            same_decks(*old(self), *final(self)),
            same_config(*old(self), *final(self)),
            same_misc(*old(self), *final(self)),
    {
        self.output_queue.pop_sample()
    }

    /// Snapshot the engine for the host.
    pub fn get_state(&self) -> (u: AudioEngineStateUpdate)
        requires
            wf_engine(*self),
        ensures
            u.deck_a_playing == self.deck_a.playing,
            u.deck_b_playing == self.deck_b.playing,
            u.crossfader_position == self.crossfade.position,
            u.is_crossfading == self.crossfade.active,
            u.deck_a_peak == self.levels.deck_a_peak,
            u.deck_b_peak == self.levels.deck_b_peak,
            u.deck_a_peak_hold == self.levels.deck_a_peak_hold,
            u.deck_b_peak_hold == self.levels.deck_b_peak_hold,
            u.master_tempo_centi == self.master_tempo_centi,
            u.deck_a_gain == self.deck_a.gain,
            u.deck_b_gain == self.deck_b.gain,
            u.deck_a_cue_enabled == self.channel_config.deck_a_cue,
            u.deck_b_cue_enabled == self.channel_config.deck_b_cue,
            u.deck_a_eq_cut == self.deck_a.eq_processor.cut_state,
            u.deck_b_eq_cut == self.deck_b.eq_processor.cut_state,
            u.mic_available == self.mic_available,
            u.mic_enabled == self.microphone.enabled,
            u.mic_peak == self.microphone.peak,
            u.deck_a_track_id == self.deck_a.track_id,
            u.deck_b_track_id == self.deck_b.track_id,
            u.update_reason == (match self.update_reason {
                Some(r) => r,
                None => UpdateReason::Periodic,
            }),
            self.deck_a.pcm_data is Some ==> u.deck_a_position_ms == Some(
                ((self.deck_a.position as int * 1000) / (self.sample_rate as int)) as i64,
            ),
            self.deck_a.pcm_data is None ==> u.deck_a_position_ms is None,
            self.deck_b.pcm_data is Some ==> u.deck_b_position_ms == Some(
                ((self.deck_b.position as int * 1000) / (self.sample_rate as int)) as i64,
            ),
            self.deck_b.pcm_data is None ==> u.deck_b_position_ms is None,
            u.deck_a_loop.enabled == self.deck_a.loop_enabled,
            u.deck_b_loop.enabled == self.deck_b.loop_enabled,
            deck_total_frames(self.deck_a) > 0 ==> u.deck_a_loop.start_ppm as int
                == (self.deck_a.loop_start as int * (UNIT as int)) / deck_total_frames(self.deck_a)
                && u.deck_a_loop.end_ppm as int == (self.deck_a.loop_end as int * (UNIT as int))
                / deck_total_frames(self.deck_a),
            deck_total_frames(self.deck_b) > 0 ==> u.deck_b_loop.start_ppm as int
                == (self.deck_b.loop_start as int * (UNIT as int)) / deck_total_frames(self.deck_b)
                && u.deck_b_loop.end_ppm as int == (self.deck_b.loop_end as int * (UNIT as int))
                / deck_total_frames(self.deck_b),
    {
        let a_pos = self.position_ms_of_a();
        let b_pos = self.position_ms_of_b();
        let a_loop = self.loop_state_of_a();
        let b_loop = self.loop_state_of_b();
        AudioEngineStateUpdate {
            deck_a_position_ms: a_pos,
            deck_b_position_ms: b_pos,
            deck_a_playing: self.deck_a.playing,
            deck_b_playing: self.deck_b.playing,
            crossfader_position: self.crossfade.position,
            is_crossfading: self.crossfade.active,
            deck_a_peak: self.levels.deck_a_peak,
            deck_b_peak: self.levels.deck_b_peak,
            deck_a_peak_hold: self.levels.deck_a_peak_hold,
            deck_b_peak_hold: self.levels.deck_b_peak_hold,
            master_tempo_centi: self.master_tempo_centi,
            deck_a_track_id: match &self.deck_a.track_id {
                Some(s) => Some(s.clone()),
                None => None,
            },
            deck_b_track_id: match &self.deck_b.track_id {
                Some(s) => Some(s.clone()),
                None => None,
            },
            deck_a_gain: self.deck_a.gain,
            deck_b_gain: self.deck_b.gain,
            deck_a_cue_enabled: self.channel_config.deck_a_cue,
            deck_b_cue_enabled: self.channel_config.deck_b_cue,
            deck_a_eq_cut: self.deck_a.eq_processor.get_cut_state(),
            deck_b_eq_cut: self.deck_b.eq_processor.get_cut_state(),
            deck_a_loop: a_loop,
            deck_b_loop: b_loop,
            mic_available: self.mic_available,
            mic_enabled: self.microphone.enabled,
            mic_peak: self.microphone.peak,
            update_reason: match self.update_reason {
                Some(r) => r,
                None => UpdateReason::Periodic,
            },
        }
    }

    fn position_ms_of_a(&self) -> (r: Option<i64>)
        requires
            wf_engine(*self),
        ensures
            self.deck_a.pcm_data is Some ==> r == Some(
                ((self.deck_a.position as int * 1000) / (self.sample_rate as int)) as i64,
            ),
            self.deck_a.pcm_data is None ==> r is None,
    {
        if self.deck_a.pcm_data.is_some() {
            proof {
                vstd::arithmetic::div_mod::lemma_div_pos_is_pos(
                    self.deck_a.position as int * 1000,
                    self.sample_rate as int,
                );
                vstd::arithmetic::div_mod::lemma_div_is_ordered(
                    self.deck_a.position as int * 1000,
                    0x7fff_ffffi64 * 1000,
                    self.sample_rate as int,
                );
            }
            Some((self.deck_a.position as i64 * 1000) / (self.sample_rate as i64))
        } else {
            None
        }
    }

    fn position_ms_of_b(&self) -> (r: Option<i64>)
        requires
            wf_engine(*self),
        ensures
            self.deck_b.pcm_data is Some ==> r == Some(
                ((self.deck_b.position as int * 1000) / (self.sample_rate as int)) as i64,
            ),
            self.deck_b.pcm_data is None ==> r is None,
    {
        if self.deck_b.pcm_data.is_some() {
            proof {
                vstd::arithmetic::div_mod::lemma_div_pos_is_pos(
                    self.deck_b.position as int * 1000,
                    self.sample_rate as int,
                );
                vstd::arithmetic::div_mod::lemma_div_is_ordered(
                    self.deck_b.position as int * 1000,
                    0x7fff_ffffi64 * 1000,
                    self.sample_rate as int,
                );
            }
            Some((self.deck_b.position as i64 * 1000) / (self.sample_rate as i64))
        } else {
            None
        }
    }

    fn loop_state_of_a(&self) -> (r: LoopState)
        requires
            wf_engine(*self),
        ensures
            r.enabled == self.deck_a.loop_enabled,
            deck_total_frames(self.deck_a) > 0 ==> r.start_ppm as int == (self.deck_a.loop_start
                as int * (UNIT as int)) / deck_total_frames(self.deck_a) && r.end_ppm as int
                == (self.deck_a.loop_end as int * (UNIT as int)) / deck_total_frames(self.deck_a),
            deck_total_frames(self.deck_a) <= 0 ==> r.start_ppm == 0 && r.end_ppm == 0,
    {
        let total: usize = match &self.deck_a.pcm_data {
            Some(p) => p.len() / 2,
            None => 0,
        };
        if total > 0 {
            proof {
                lemma_loop_ppm_bounds(self.deck_a.loop_start as int, total as int);
                lemma_loop_ppm_bounds(self.deck_a.loop_end as int, total as int);
            }
            LoopState {
                enabled: self.deck_a.loop_enabled,
                start_ppm: (self.deck_a.loop_start as i64 * UNIT) / (total as i64),
                end_ppm: (self.deck_a.loop_end as i64 * UNIT) / (total as i64),
            }
        } else {
            LoopState { enabled: self.deck_a.loop_enabled, start_ppm: 0, end_ppm: 0 }
        }
    }

    fn loop_state_of_b(&self) -> (r: LoopState)
        requires
            wf_engine(*self),
        ensures
            r.enabled == self.deck_b.loop_enabled,
            deck_total_frames(self.deck_b) > 0 ==> r.start_ppm as int == (self.deck_b.loop_start
                as int * (UNIT as int)) / deck_total_frames(self.deck_b) && r.end_ppm as int
                == (self.deck_b.loop_end as int * (UNIT as int)) / deck_total_frames(self.deck_b),
            deck_total_frames(self.deck_b) <= 0 ==> r.start_ppm == 0 && r.end_ppm == 0,
    {
        let total: usize = match &self.deck_b.pcm_data {
            Some(p) => p.len() / 2,
            None => 0,
        };
        if total > 0 {
            proof {
                lemma_loop_ppm_bounds(self.deck_b.loop_start as int, total as int);
                lemma_loop_ppm_bounds(self.deck_b.loop_end as int, total as int);
            }
            LoopState {
                enabled: self.deck_b.loop_enabled,
                start_ppm: (self.deck_b.loop_start as i64 * UNIT) / (total as i64),
                end_ppm: (self.deck_b.loop_end as i64 * UNIT) / (total as i64),
            }
        } else {
            LoopState { enabled: self.deck_b.loop_enabled, start_ppm: 0, end_ppm: 0 }
        }
    }
}

/// Mix two deck chunks at their effective gains, run the microphone
/// talkover stage over the result, and route it onto the device
/// channels with every emitted sample clamped to full scale.
#[verifier::rlimit(100)]
fn mix_and_route(
    mic: &mut MicrophoneState,
    config: &ChannelConfig,
    buffer_a: &Vec<i64>,
    buffer_b: &Vec<i64>,
    gain_a: i64,
    gain_b: i64,
    frames: usize,
) -> (out: Vec<i64>)
    requires
        wf_mic(*old(mic)),
        wf_config(*config),
        frames == FRAMES_PER_CHUNK,
        buffer_a.len() == 2 * frames,
        buffer_b.len() == 2 * frames,
        forall|k: int|
            0 <= k < buffer_a@.len() ==> -PEAK_LIMIT <= #[trigger] buffer_a@[k] <= PEAK_LIMIT,
        forall|k: int|
            0 <= k < buffer_b@.len() ==> -PEAK_LIMIT <= #[trigger] buffer_b@[k] <= PEAK_LIMIT,
        0 <= gain_a <= UNIT,
        0 <= gain_b <= UNIT,
    ensures
        wf_mic(*final(mic)),
        out@.len() == frames * config.output_channels,
        out@.len() <= CHUNK_SAMPLES_MAX,
        forall|k: int| 0 <= k < out@.len() ==> -UNIT <= #[trigger] out@[k] <= UNIT,
        old(mic).input_buffer@.len() < 2 * frames ==> *final(mic) == *old(mic),
        old(mic).input_buffer@.len() >= 2 * frames ==> {
            &&& final(mic).enabled == old(mic).enabled
            &&& final(mic).gain == old(mic).gain
            &&& final(mic).talkover_ducking == old(mic).talkover_ducking
            &&& final(mic).input_buffer@ == old(mic).input_buffer@.skip(2 * frames as int)
            &&& final(mic).peak == peak_of(old(mic).input_buffer@, 2 * frames as int)
        },
        ({
            let mixed = talkover_mix(
                *old(mic),
                gain_mix_seq(buffer_a@, buffer_b@, gain_a as int, gain_b as int),
                frames as int,
            );
            let oc = config.output_channels as int;
            &&& (plain_stereo(*config) ==> forall|k: int|
                0 <= k < out@.len() ==> #[trigger] out@[k] == spec_clamp_unit(mixed[k] as int))
            &&& (!plain_stereo(*config) ==> forall|f: int, ch: int|
                0 <= f < frames && 0 <= ch < oc ==> #[trigger] out@[f * oc + ch]
                    == spec_clamp_unit(
                    route_at(
                        *config,
                        mixed[2 * f] as int,
                        mixed[2 * f + 1] as int,
                        buffer_a@[2 * f] as int,
                        buffer_a@[2 * f + 1] as int,
                        buffer_b@[2 * f] as int,
                        buffer_b@[2 * f + 1] as int,
                        ch,
                    ),
                ))
        }),
        (forall|k: int| 0 <= k < buffer_a@.len() ==> #[trigger] buffer_a@[k] == 0) && (forall|
            k: int,
        |
            0 <= k < buffer_b@.len() ==> #[trigger] buffer_b@[k] == 0) && old(
            mic,
        ).input_buffer@.len() < 2 * frames ==> forall|k: int|
            0 <= k < out@.len() ==> out@[k] == 0,
{
    let mut mix: Vec<i64> = Vec::new();
    let mut k: usize = 0;
    while k < 2 * frames
        invariant
            k <= 2 * frames,
            frames == FRAMES_PER_CHUNK,
            mix@.len() == k,
            buffer_a@.len() == 2 * frames,
            buffer_b@.len() == 2 * frames,
            forall|j: int|
                0 <= j < buffer_a@.len() ==> -PEAK_LIMIT <= #[trigger] buffer_a@[j] <= PEAK_LIMIT,
            forall|j: int|
                0 <= j < buffer_b@.len() ==> -PEAK_LIMIT <= #[trigger] buffer_b@[j] <= PEAK_LIMIT,
            0 <= gain_a <= UNIT,
            0 <= gain_b <= UNIT,
            forall|j: int| 0 <= j < k ==> -MIX_LIMIT <= #[trigger] mix@[j] <= MIX_LIMIT,
            forall|j: int|
                0 <= j < k ==> #[trigger] mix@[j] == tdiv(buffer_a@[j] * gain_a, UNIT as int)
                    + tdiv(buffer_b@[j] * gain_b, UNIT as int),
        decreases 2 * frames - k,
    {
        let va = apply_gain(buffer_a[k], gain_a);
        let vb = apply_gain(buffer_b[k], gain_b);
        proof {
            lemma_mul_bounds_abs(
                buffer_a@[k as int] as int,
                gain_a as int,
                PEAK_LIMIT as int,
                UNIT as int,
            );
            lemma_tdiv_abs_le(
                buffer_a@[k as int] as int * gain_a as int,
                UNIT as int,
                PEAK_LIMIT as int,
            );
            lemma_mul_bounds_abs(
                buffer_b@[k as int] as int,
                gain_b as int,
                PEAK_LIMIT as int,
                UNIT as int,
            );
            lemma_tdiv_abs_le(
                buffer_b@[k as int] as int * gain_b as int,
                UNIT as int,
                PEAK_LIMIT as int,
            );
        }
        mix.push(va + vb);
        k = k + 1;
    }
    proof {
        assert forall|j: int|
            0 <= j < 2 * frames implies mix@[j] == gain_mix_seq(
            buffer_a@,
            buffer_b@,
            gain_a as int,
            gain_b as int,
        )[j] by {}
        assert(mix@ =~= gain_mix_seq(buffer_a@, buffer_b@, gain_a as int, gain_b as int));
    }

    let ghost silent = (forall|j: int| 0 <= j < buffer_a@.len() ==> buffer_a@[j] == 0) && (forall|
        j: int,
    |
        0 <= j < buffer_b@.len() ==> buffer_b@[j] == 0);
    proof {
        if silent {
            assert forall|j: int| 0 <= j < mix@.len() implies #[trigger] mix@[j] == 0 by {
                assert(buffer_a@[j] == 0);
                assert(buffer_b@[j] == 0);
                assert(0 * gain_a == 0) by (nonlinear_arith);
                assert(0 * gain_b == 0) by (nonlinear_arith);
                assert(tdiv(0, UNIT as int) == 0) by {
                    vstd::arithmetic::div_mod::lemma_div_of0(UNIT as int);
                }
            }
        }
    }

    let ghost mix_pre = mix@;
    mic.apply_mic_talkover(&mut mix, frames);
    proof {
        if old(mic).input_buffer@.len() >= 2 * frames {
            assert forall|j: int|
                0 <= j < 2 * frames implies mix@[j] == talkover_mix(
                *old(mic),
                mix_pre,
                frames as int,
            )[j] by {}
        }
        assert(mix@ =~= talkover_mix(*old(mic), mix_pre, frames as int));
    }

    let oc = config.output_channels as usize;
    let needs_mapping = oc != 2 || config.deck_a_cue || config.deck_b_cue
        || config.cue_left.is_some() || config.cue_right.is_some();
    let out: Vec<i64> = if needs_mapping {
        proof {
            assert(frames * oc <= 0x4000_0000) by (nonlinear_arith)
                requires
                    frames == 2048,
                    1 <= oc <= 0xffff,
            ;
        }
        map_channels(&mix, frames, oc, config, buffer_a, buffer_b)
    } else {
        let mut clipped: Vec<i64> = Vec::new();
        let mut j: usize = 0;
        while j < 2 * frames
            invariant
                j <= 2 * frames,
                frames == FRAMES_PER_CHUNK,
                mix@.len() == 2 * frames,
                clipped@.len() == j,
                forall|i: int| 0 <= i < j ==> -UNIT <= #[trigger] clipped@[i] <= UNIT,
                forall|i: int|
                    0 <= i < j ==> #[trigger] clipped@[i] == spec_clamp_unit(mix@[i] as int),
            decreases 2 * frames - j,
        {
            clipped.push(crate::fixed::clamp_unit(mix[j]));
            j = j + 1;
        }
        clipped
    };
    proof {
        if !needs_mapping {
            assert(out@.len() == frames * oc) by (nonlinear_arith)
                requires
                    out@.len() == 2 * frames,
                    oc == 2,
            ;
        }
        assert(out@.len() <= CHUNK_SAMPLES_MAX) by (nonlinear_arith)
            requires
                out@.len() == frames * oc,
                frames == 2048,
                1 <= oc <= 0xffff,
        ;
        if silent && old(mic).input_buffer@.len() < 2 * frames {
            assert(forall|j: int| 0 <= j < mix@.len() ==> #[trigger] mix@[j] == 0);
            assert forall|j: int| 0 <= j < out@.len() implies #[trigger] out@[j] == 0 by {
                vstd::arithmetic::div_mod::lemma_div_of0(2);
                if needs_mapping {
                    let f = j / (oc as int);
                    let ch = j % (oc as int);
                    vstd::arithmetic::div_mod::lemma_fundamental_div_mod(j, oc as int);
                    vstd::arithmetic::div_mod::lemma_mod_division_less_than_divisor(j, oc as int);
                    vstd::arithmetic::div_mod::lemma_div_pos_is_pos(j, oc as int);
                    assert(f < frames) by (nonlinear_arith)
                        requires
                            f * (oc as int) + ch < frames * (oc as int),
                            0 <= ch < oc as int,
                            0 <= f,
                            oc >= 1,
                    ;
                    assert(2 * f + 1 < mix@.len()) by (nonlinear_arith)
                        requires
                            0 <= f < frames,
                            mix@.len() == 2 * frames,
                    ;
                    assert(mix@[2 * f] == 0 && mix@[2 * f + 1] == 0);
                    assert(buffer_a@[2 * f] == 0 && buffer_a@[2 * f + 1] == 0);
                    assert(buffer_b@[2 * f] == 0 && buffer_b@[2 * f + 1] == 0);
                    if crate::router::cue_sources(*config) > 0 {
                        vstd::arithmetic::div_mod::lemma_div_of0(
                            crate::router::cue_sources(*config),
                        );
                    }
                    assert(route_at(*config, 0, 0, 0, 0, 0, 0, ch) == 0);
                    assert(out@[f * (oc as int) + ch] == spec_clamp_unit(0));
                } else {
                    assert(out@[j] == spec_clamp_unit(mix@[j] as int));
                }
            }
        }
    }
    out
}

/// A channel index kept only when it fits a device slot.
pub open spec fn spec_slot(c: int) -> Option<u16> {
    if 0 <= c <= 0xfffe {
        Some(c as u16)
    } else {
        None
    }
}

/// The index when kept, else a sentinel below every kept index.
pub open spec fn kept_val(c: int) -> int {
    if 0 <= c <= 0xfffe {
        c
    } else {
        -1
    }
}

pub open spec fn max2(a: int, b: int) -> int {
    if a >= b {
        a
    } else {
        b
    }
}

fn slot_of(c: i32) -> (r: Option<u16>)
    ensures
        r == spec_slot(c as int),
{
    if c >= 0 && c <= 0xfffe {
        Some(c as u16)
    } else {
        None
    }
}

/// An existing slot kept only while it still fits the device.
pub open spec fn reclamped(slot: Option<u16>, output_channels: u16) -> Option<u16> {
    match slot {
        Some(i) => if i < output_channels {
            Some(i)
        } else {
            None
        },
        None => None,
    }
}

/// A channel index clamped against the device's channel count.
pub open spec fn clamped_slot(c: int, output_channels: int) -> Option<u16> {
    if 0 <= c < output_channels {
        Some(c as u16)
    } else {
        None
    }
}

fn clamp_channel(c: i32, output_channels: u16) -> (r: Option<u16>)
    ensures
        r == clamped_slot(c as int, output_channels as int),
{
    if c >= 0 && (c as u16 as i32 == c) && (c as u16) < output_channels {
        Some(c as u16)
    } else {
        None
    }
}

/// A frame count inside the track maps into the fraction range.
proof fn lemma_loop_ppm_bounds(x: int, total: int)
    requires
        0 < total <= 0x7fff_ffff,
        0 <= x <= total,
    ensures
        0 <= (x * (UNIT as int)) / total <= UNIT,
        x * (UNIT as int) <= 0x7fff_ffffi64 * 1_000_000,
{
    assert(x * (UNIT as int) <= total * (UNIT as int)) by (nonlinear_arith)
        requires
            0 <= x <= total,
    ;
    assert(total * (UNIT as int) <= 0x7fff_ffffi64 * 1_000_000) by (nonlinear_arith)
        requires
            0 < total <= 0x7fff_ffff,
    ;
    assert(x * (UNIT as int) >= 0) by (nonlinear_arith)
        requires
            x >= 0,
    ;
    vstd::arithmetic::div_mod::lemma_div_pos_is_pos(x * (UNIT as int), total);
    vstd::arithmetic::div_mod::lemma_div_is_ordered(x * (UNIT as int), total * (UNIT as int), total);
    vstd::arithmetic::div_mod::lemma_div_multiples_vanish(UNIT as int, total);
}

} // verus!
