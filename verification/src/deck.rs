//! Deck state: PCM, transport position, tempo, gain, loop region and the
//! per-deck EQ.
//!
//! A deck produces one chunk of stereo audio per processing round: the
//! PCM is read at the deck's playback rate, the EQ runs over the result,
//! and the position advances by the frames consumed.  When a loop is
//! enabled and the position reaches its end, playback wraps to the loop
//! start; when the track ends, the deck stops and rewinds.

use vstd::prelude::*;

use crate::eq::{EqProcessor, eq_result, eq_state_after, wf_eq, BAND_LIMIT};
use crate::fixed::UNIT;
use crate::stretch::{stretch_chunk, stretched_sample, spec_consumed};

verus! {

/// Playback rate floor: half speed.
pub const RATE_MIN: i64 = 500_000;

/// Playback rate ceiling: double speed.
pub const RATE_MAX: i64 = 2_000_000;

/// One deck.
pub struct DeckState {
    /// Interleaved stereo PCM at the engine rate, each sample within
    /// full scale.
    pub pcm_data: Option<Vec<i64>>,
    /// Transport position in frames.
    pub position: usize,
    pub playing: bool,
    /// Track tempo in hundredths of a beat per minute, when known.
    pub bpm_centi: Option<u32>,
    /// Playback rate in millionths, within half and double speed.
    pub rate_ppm: i64,
    /// Deck gain in millionths, at most full scale.
    pub gain: i64,
    pub track_id: Option<String>,
    pub eq_processor: EqProcessor,
    pub loop_enabled: bool,
    pub loop_start: usize,
    pub loop_end: usize,
}

/// Frames in the loaded track; zero with no track.
pub open spec fn deck_total_frames(d: DeckState) -> int {
    match d.pcm_data {
        Some(p) => p@.len() as int / 2,
        None => 0,
    }
}

pub open spec fn wf_deck(d: DeckState) -> bool {
    &&& match d.pcm_data {
        Some(p) => {
            &&& p@.len() % 2 == 0
            &&& p@.len() <= 0x7fff_ffff
            &&& forall|k: int| 0 <= k < p@.len() ==> -UNIT <= #[trigger] p@[k] <= UNIT
        },
        None => true,
    }
    &&& d.position <= deck_total_frames(d)
    &&& RATE_MIN <= d.rate_ppm <= RATE_MAX
    &&& 0 <= d.gain <= UNIT
    &&& (d.loop_enabled ==> d.loop_start < d.loop_end)
    &&& d.loop_start <= deck_total_frames(d)
    &&& d.loop_end <= deck_total_frames(d)
    &&& wf_eq(d.eq_processor)
}

/// The playback rate for a track tempo against the master tempo: their
/// ratio, clamped to half and double speed; normal speed when the track
/// tempo is unknown.
pub open spec fn spec_playback_rate(track_bpm_centi: Option<u32>, master_centi: int) -> int {
    match track_bpm_centi {
        Some(b) => if b > 0 {
            let r = (master_centi * (UNIT as int)) / (b as int);
            if r < RATE_MIN {
                RATE_MIN as int
            } else if r > RATE_MAX {
                RATE_MAX as int
            } else {
                r
            }
        } else {
            UNIT as int
        },
        None => UNIT as int,
    }
}

pub fn calculate_playback_rate(track_bpm_centi: Option<u32>, master_centi: u32) -> (r: i64)
    requires
        master_centi <= 30_000,
    ensures
        r == spec_playback_rate(track_bpm_centi, master_centi as int),
        RATE_MIN <= r <= RATE_MAX,
{
    match track_bpm_centi {
        Some(b) => {
            if b > 0 {
                let raw: i64 = (master_centi as i64) * UNIT / (b as i64);
                proof {
                    vstd::arithmetic::div_mod::lemma_div_pos_is_pos(
                        (master_centi as int) * (UNIT as int),
                        b as int,
                    );
                }
                if raw < RATE_MIN {
                    RATE_MIN
                } else if raw > RATE_MAX {
                    RATE_MAX
                } else {
                    raw
                }
            } else {
                UNIT
            }
        },
        None => UNIT,
    }
}

/// The chunk a deck reads at a given position and rate, before EQ:
/// stretched source samples while the track lasts, silence after.
pub open spec fn raw_chunk(pcm: Seq<i64>, pos: int, rate: int, frames: int) -> Seq<i64> {
    Seq::new(
        (2 * frames) as nat,
        |k: int| stretched_sample(pcm, pos, rate, k / 2, k % 2) as i64,
    )
}

/// The chunk a deck contributes this round: its stretched PCM through
/// its EQ while playing, silence otherwise.
pub open spec fn deck_chunk_seq(d: DeckState, frames: int) -> Seq<i64> {
    match d.pcm_data {
        Some(p) => if d.playing {
            eq_result(d.eq_processor, raw_chunk(p@, d.position as int, d.rate_ppm as int, frames), frames)
        } else {
            Seq::new((2 * frames) as nat, |k: int| 0i64)
        },
        None => Seq::new((2 * frames) as nat, |k: int| 0i64),
    }
}

/// The position after one chunk, before loop and end handling.
pub open spec fn advanced_position(d: DeckState, frames: int) -> int {
    d.position + spec_consumed(deck_total_frames(d), d.position as int, d.rate_ppm as int, frames)
}

impl DeckState {
    /// An empty stopped deck at normal rate and full gain.
    pub fn new() -> (d: DeckState)
        ensures
            d.pcm_data is None,
            d.position == 0,
            !d.playing,
            d.bpm_centi is None,
            d.rate_ppm == UNIT,
            d.gain == UNIT,
            d.track_id is None,
            !d.loop_enabled,
            d.loop_start == 0 && d.loop_end == 0,
            !d.eq_processor.cut_state.low,
            !d.eq_processor.cut_state.mid,
            !d.eq_processor.cut_state.high,
            wf_deck(d),
    {
        DeckState {
            pcm_data: None,
            position: 0,
            playing: false,
            bpm_centi: None,
            rate_ppm: UNIT,
            gain: UNIT,
            track_id: None,
            eq_processor: EqProcessor::new(),
            loop_enabled: false,
            loop_start: 0,
            loop_end: 0,
        }
    }

    /// Produce one chunk of this deck's audio and advance the transport.
    ///
    /// A stopped or empty deck contributes silence and does not move.  A
    /// playing deck reads at its rate, runs the EQ, and advances by the
    /// frames consumed; reaching the end of an enabled loop wraps to the
    /// loop start, reaching the end of the track stops the deck at frame
    /// zero.
    pub fn produce_chunk(&mut self, frames: usize) -> (out: Vec<i64>)
        requires
            wf_deck(*old(self)),
            1 <= frames <= 0x100_000,
        ensures
            wf_deck(*final(self)),
            out@.len() == 2 * frames,
            forall|k: int| 0 <= k < out@.len() ==> -3 * BAND_LIMIT <= #[trigger] out@[k] <= 3
                * BAND_LIMIT,
            out@ == deck_chunk_seq(*old(self), frames as int),
            final(self).pcm_data == old(self).pcm_data,
            final(self).bpm_centi == old(self).bpm_centi,
            final(self).rate_ppm == old(self).rate_ppm,
            final(self).gain == old(self).gain,
            final(self).track_id == old(self).track_id,
            final(self).loop_enabled == old(self).loop_enabled,
            final(self).loop_start == old(self).loop_start,
            final(self).loop_end == old(self).loop_end,
            !(old(self).playing && old(self).pcm_data is Some) ==> *final(self) == *old(self),
            old(self).playing && old(self).pcm_data is Some ==> {
                let adv = advanced_position(*old(self), frames as int);
                &&& final(self).eq_processor == eq_state_after(
                    old(self).eq_processor,
                    raw_chunk(
                        old(self).pcm_data->0@,
                        old(self).position as int,
                        old(self).rate_ppm as int,
                        frames as int,
                    ),
                    frames as int,
                )
                &&& (old(self).loop_enabled && adv >= old(self).loop_end ==> final(self).position
                    == old(self).loop_start && final(self).playing)
                &&& (!(old(self).loop_enabled && adv >= old(self).loop_end) && adv
                    >= deck_total_frames(*old(self)) ==> final(self).position == 0 && !final(self).playing)
                &&& (!(old(self).loop_enabled && adv >= old(self).loop_end) && adv
                    < deck_total_frames(*old(self)) ==> final(self).position == adv && final(self).playing)
            },
            old(self).playing && old(self).loop_enabled && old(self).loop_start <= old(self).position < old(self).loop_end ==> final(self).loop_start <= final(self).position
                < final(self).loop_end,
    {
        let mut out: Vec<i64> = Vec::new();
        let mut z: usize = 0;
        while z < 2 * frames
            invariant
                z <= 2 * frames,
                frames <= 0x100_000,
                out@.len() == z,
                forall|k: int| 0 <= k < z ==> #[trigger] out@[k] == 0,
            decreases 2 * frames - z,
        {
            out.push(0);
            z = z + 1;
        }
        if !self.playing || self.pcm_data.is_none() {
            proof {
                assert(out@ =~= deck_chunk_seq(*self, frames as int));
            }
            return out;
        }
        let ghost d0 = *self;
        let consumed: usize;
        let total_frames: usize;
        match &self.pcm_data {
            Some(pcm) => {
                consumed = stretch_chunk(pcm, self.position, self.rate_ppm, frames, &mut out);
                total_frames = pcm.len() / 2;
            },
            None => {
                proof {
                    assert(false);
                }
                consumed = 0;
                total_frames = 0;
            },
        }
        proof {
            let p = d0.pcm_data->0@;
            let raw = raw_chunk(p, d0.position as int, d0.rate_ppm as int, frames as int);
            assert forall|k: int| 0 <= k < 2 * frames implies out@[k] == raw[k] by {
                let j = k / 2;
                let ch = k % 2;
                vstd::arithmetic::div_mod::lemma_fundamental_div_mod(k, 2);
                vstd::arithmetic::div_mod::lemma_mod_division_less_than_divisor(k, 2);
                vstd::arithmetic::div_mod::lemma_div_pos_is_pos(k, 2);
                assert(out@[2 * j + ch] == stretched_sample(
                    p,
                    d0.position as int,
                    d0.rate_ppm as int,
                    j,
                    ch,
                ));
            }
            assert(out@ =~= raw);
            assert forall|k: int| 0 <= k < out@.len() implies -BAND_LIMIT <= #[trigger] out@[k]
                <= BAND_LIMIT by {
                let j = k / 2;
                let ch = k % 2;
                vstd::arithmetic::div_mod::lemma_fundamental_div_mod(k, 2);
                vstd::arithmetic::div_mod::lemma_mod_division_less_than_divisor(k, 2);
                vstd::arithmetic::div_mod::lemma_div_pos_is_pos(k, 2);
                let sf = crate::stretch::src_frame(d0.position as int, d0.rate_ppm as int, j);
                if sf < p.len() / 2 {
                    vstd::arithmetic::div_mod::lemma_div_pos_is_pos(j * d0.rate_ppm as int, UNIT as int);
                }
            }
        }
        self.eq_processor.process(&mut out, frames);
        self.position = self.position + consumed;
        if self.loop_enabled && self.position >= self.loop_end {
            self.position = self.loop_start;
        } else if self.position >= total_frames {
            self.playing = false;
            self.position = 0;
        }
        proof {
            assert(out@ == deck_chunk_seq(d0, frames as int));
        }
        out
    }

    /// Install new PCM: rewind, stop, take the track tempo, recompute the
    /// playback rate against the master tempo, and drop any loop left
    /// over from the previous track.
    pub fn load(
        &mut self,
        pcm: Vec<i64>,
        bpm_centi: Option<u32>,
        track_id: Option<String>,
        master_centi: u32,
    )
        requires
            wf_deck(*old(self)),
            master_centi <= 30_000,
            pcm.len() % 2 == 0,
            pcm.len() <= 0x7fff_ffff,
            forall|k: int| 0 <= k < pcm@.len() ==> -UNIT <= #[trigger] pcm@[k] <= UNIT,
        ensures
            wf_deck(*final(self)),
            final(self).pcm_data == Some(pcm),
            final(self).position == 0,
            !final(self).playing,
            final(self).bpm_centi == bpm_centi,
            final(self).rate_ppm == spec_playback_rate(bpm_centi, master_centi as int),
            final(self).track_id == track_id,
            !final(self).loop_enabled,
            final(self).loop_start == 0 && final(self).loop_end == 0,
            final(self).gain == old(self).gain,
            final(self).eq_processor == old(self).eq_processor,
    {
        self.pcm_data = Some(pcm);
        self.position = 0;
        self.playing = false;
        self.bpm_centi = bpm_centi;
        self.rate_ppm = calculate_playback_rate(bpm_centi, master_centi);
        self.track_id = track_id;
        self.loop_enabled = false;
        self.loop_start = 0;
        self.loop_end = 0;
    }

    /// A fraction of the track in frames: `total * ppm / UNIT`, never
    /// past the end.
    pub fn frac_frames(&self, p_ppm: i64) -> (r: usize)
        requires
            wf_deck(*self),
            0 <= p_ppm <= UNIT,
        ensures
            r == (deck_total_frames(*self) * p_ppm) / (UNIT as int),
            r <= deck_total_frames(*self),
    {
        let total: usize = match &self.pcm_data {
            Some(p) => p.len() / 2,
            None => 0,
        };
        proof {
            let tot = total as int;
            crate::fixed::lemma_mul_bounds_abs(tot, p_ppm as int, 0x7fff_ffff, UNIT as int);
            assert(tot * p_ppm <= tot * (UNIT as int)) by (nonlinear_arith)
                requires
                    0 <= tot,
                    0 <= p_ppm <= UNIT as int,
            ;
            vstd::arithmetic::div_mod::lemma_div_pos_is_pos(tot * p_ppm, UNIT as int);
            vstd::arithmetic::div_mod::lemma_div_is_ordered(
                tot * p_ppm,
                tot * (UNIT as int),
                UNIT as int,
            );
            vstd::arithmetic::div_mod::lemma_div_multiples_vanish(tot, UNIT as int);
        }
        (((total as i64) * p_ppm) / UNIT) as usize
    }

    /// Jump to a fraction of the track.  The position becomes
    /// `total * clamp(p) / UNIT`; with no track nothing moves.
    pub fn seek_frac(&mut self, position_ppm: i64)
        requires
            wf_deck(*old(self)),
        ensures
            wf_deck(*final(self)),
            final(self).pcm_data == old(self).pcm_data,
            final(self).playing == old(self).playing,
            final(self).gain == old(self).gain,
            final(self).rate_ppm == old(self).rate_ppm,
            final(self).bpm_centi == old(self).bpm_centi,
            final(self).track_id == old(self).track_id,
            final(self).loop_enabled == old(self).loop_enabled,
            final(self).loop_start == old(self).loop_start,
            final(self).loop_end == old(self).loop_end,
            final(self).eq_processor == old(self).eq_processor,
            old(self).pcm_data is Some ==> final(self).position == (deck_total_frames(*old(self))
                * clamp_ppm(position_ppm as int)) / (UNIT as int),
            old(self).pcm_data is None ==> final(self).position == old(self).position,
    {
        let p = if position_ppm < 0 {
            0
        } else if position_ppm > UNIT {
            UNIT
        } else {
            position_ppm
        };
        if self.pcm_data.is_some() {
            self.position = self.frac_frames(p);
        }
    }

    /// Set a loop over a fraction range of the track.  The loop engages
    /// only when asked for and non-empty; with no track nothing changes.
    pub fn set_loop_frac(&mut self, start_ppm: i64, end_ppm: i64, enabled: bool)
        requires
            wf_deck(*old(self)),
        ensures
            wf_deck(*final(self)),
            final(self).pcm_data == old(self).pcm_data,
            final(self).position == old(self).position,
            final(self).playing == old(self).playing,
            final(self).gain == old(self).gain,
            final(self).rate_ppm == old(self).rate_ppm,
            final(self).bpm_centi == old(self).bpm_centi,
            final(self).track_id == old(self).track_id,
            final(self).eq_processor == old(self).eq_processor,
            old(self).pcm_data is None ==> final(self).loop_enabled == old(self).loop_enabled
                && final(self).loop_start == old(self).loop_start && final(self).loop_end == old(self).loop_end,
            old(self).pcm_data is Some ==> {
                &&& final(self).loop_start == (deck_total_frames(*old(self)) * clamp_ppm(
                    start_ppm as int,
                )) / (UNIT as int)
                &&& final(self).loop_end == (deck_total_frames(*old(self)) * clamp_ppm(
                    end_ppm as int,
                )) / (UNIT as int)
                &&& final(self).loop_enabled == (enabled && final(self).loop_end > final(self).loop_start)
            },
    {
        if self.pcm_data.is_some() {
            let s = if start_ppm < 0 {
                0
            } else if start_ppm > UNIT {
                UNIT
            } else {
                start_ppm
            };
            let e = if end_ppm < 0 {
                0
            } else if end_ppm > UNIT {
                UNIT
            } else {
                end_ppm
            };
            let ls = self.frac_frames(s);
            let le = self.frac_frames(e);
            self.loop_start = ls;
            self.loop_end = le;
            self.loop_enabled = enabled && le > ls;
        }
    }

    /// Set a loop over a time range in milliseconds.  The region engages
    /// only when non-empty after capping at the end of the track; if the
    /// position then falls outside the loop, it jumps to the loop start.
    pub fn set_beat_loop_ms(&mut self, start_ms: i64, end_ms: i64, sample_rate: u32)
        requires
            wf_deck(*old(self)),
            1000 <= sample_rate <= 200_000,
        ensures
            wf_deck(*final(self)),
            final(self).pcm_data == old(self).pcm_data,
            final(self).playing == old(self).playing,
            final(self).gain == old(self).gain,
            final(self).rate_ppm == old(self).rate_ppm,
            final(self).bpm_centi == old(self).bpm_centi,
            final(self).track_id == old(self).track_id,
            final(self).eq_processor == old(self).eq_processor,
            old(self).pcm_data is None ==> *final(self) == *old(self),
            old(self).pcm_data is Some ==> {
                let ls = (clamp_ms(start_ms as int) * sample_rate) / 1000;
                let le_raw = (clamp_ms(end_ms as int) * sample_rate) / 1000;
                let le = if le_raw <= deck_total_frames(*old(self)) {
                    le_raw
                } else {
                    deck_total_frames(*old(self))
                };
                if le > ls {
                    &&& final(self).loop_start == ls
                    &&& final(self).loop_end == le
                    &&& final(self).loop_enabled
                    &&& (old(self).position >= le || old(self).position < ls ==> final(self).position == ls)
                    &&& (ls <= old(self).position < le ==> final(self).position == old(self).position)
                } else {
                    *final(self) == *old(self)
                }
            },
    {
        if self.pcm_data.is_none() {
            return ;
        }
        let total: usize = match &self.pcm_data {
            Some(p) => p.len() / 2,
            None => 0,
        };
        let s_ms = if start_ms < 0 {
            0
        } else if start_ms > 0x1_0000_0000 {
            0x1_0000_0000
        } else {
            start_ms
        };
        let e_ms = if end_ms < 0 {
            0
        } else if end_ms > 0x1_0000_0000 {
            0x1_0000_0000
        } else {
            end_ms
        };
        proof {
            crate::fixed::lemma_mul_bounds_abs(s_ms as int, sample_rate as int, 0x1_0000_0000, 200_000);
            crate::fixed::lemma_mul_bounds_abs(e_ms as int, sample_rate as int, 0x1_0000_0000, 200_000);
            vstd::arithmetic::div_mod::lemma_div_pos_is_pos((s_ms as int) * (sample_rate as int), 1000);
            vstd::arithmetic::div_mod::lemma_div_pos_is_pos((e_ms as int) * (sample_rate as int), 1000);
        }
        let ls_i64: i64 = s_ms * (sample_rate as i64) / 1000;
        let le_raw: i64 = e_ms * (sample_rate as i64) / 1000;
        let le_i64: i64 = if le_raw <= total as i64 {
            le_raw
        } else {
            total as i64
        };
        if le_i64 > ls_i64 {
            let ls: usize = ls_i64 as usize;
            let le: usize = le_i64 as usize;
            self.loop_start = ls;
            self.loop_end = le;
            self.loop_enabled = true;
            if self.position >= le || self.position < ls {
                self.position = ls;
            }
        }
    }

    /// Drop the loop region.
    pub fn clear_loop(&mut self)
        requires
            wf_deck(*old(self)),
        ensures
            wf_deck(*final(self)),
            !final(self).loop_enabled,
            final(self).loop_start == 0 && final(self).loop_end == 0,
            final(self).pcm_data == old(self).pcm_data,
            final(self).position == old(self).position,
            final(self).playing == old(self).playing,
            final(self).gain == old(self).gain,
            final(self).rate_ppm == old(self).rate_ppm,
            final(self).bpm_centi == old(self).bpm_centi,
            final(self).track_id == old(self).track_id,
            final(self).eq_processor == old(self).eq_processor,
    {
        self.loop_enabled = false;
        self.loop_start = 0;
        self.loop_end = 0;
    }
}

/// A fraction clamped into `[0, UNIT]` millionths.
pub open spec fn clamp_ppm(p: int) -> int {
    if p < 0 {
        0
    } else if p > UNIT {
        UNIT as int
    } else {
        p
    }
}

/// A time clamped into the supported millisecond range.
pub open spec fn clamp_ms(t: int) -> int {
    if t < 0 {
        0
    } else if t > 0x1_0000_0000 {
        0x1_0000_0000
    } else {
        t
    }
}

} // verus!
