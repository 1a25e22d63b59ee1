//! Microphone input and talkover ducking.
//!
//! The input callback hands frames to `mic_ingest`: the first source
//! channel is duplicated to stereo and appended to a bounded ring buffer,
//! and a smoothed peak follows the input level.  At mix time
//! `apply_mic_talkover` pops one stereo frame per output frame; while the
//! ring holds less than a chunk the mix is left untouched, otherwise the
//! music is attenuated by the talkover amount and the microphone signal
//! is summed in.

use std::collections::VecDeque;

use vstd::prelude::*;

use crate::fixed::{UNIT, tdiv, tdiv_i64, lemma_mul_bounds_abs, lemma_tdiv_abs_le};
use crate::meter::peak_of;

verus! {

/// Bound for samples entering the mic stage of the mix: two decks of EQ
/// output at full gain.
pub const MIX_LIMIT: i64 = 12_000_000;

/// Bound for samples leaving the mic stage: `MIX_LIMIT` plus a microphone
/// at its largest gain.
pub const MIC_OUT_LIMIT: i64 = 14_000_000;

/// Microphone state: configuration, the bounded stereo ring buffer fed by
/// the input callback, and the smoothed input peak.
pub struct MicrophoneState {
    pub enabled: bool,
    /// Linear gain in millionths, at most 2.0.
    pub gain: i64,
    /// How far the music is ducked while the microphone is enabled, in
    /// millionths of full attenuation.
    pub talkover_ducking: i64,
    /// Interleaved stereo samples waiting to be mixed.
    pub input_buffer: VecDeque<i64>,
    /// Smoothed input peak in millionths.
    pub peak: i64,
}

pub open spec fn wf_mic(m: MicrophoneState) -> bool {
    &&& 0 <= m.gain <= 2 * UNIT
    &&& 0 <= m.talkover_ducking <= UNIT
    &&& 0 <= m.peak <= UNIT
    &&& m.input_buffer@.len() <= 0x1000_0000
    &&& forall|k: int|
        0 <= k < m.input_buffer@.len() ==> -UNIT <= #[trigger] m.input_buffer@[k] <= UNIT
}

/// One frame of the first source channel copied to both stereo slots,
/// for the first `frames` frames of `input`.
pub open spec fn mono_dup(input: Seq<i64>, channels: int, frames: int) -> Seq<i64>
    decreases frames,
{
    if frames <= 0 {
        Seq::empty()
    } else {
        mono_dup(input, channels, frames - 1) + seq![
            input[(frames - 1) * channels],
            input[(frames - 1) * channels],
        ]
    }
}

/// The largest absolute value among the first `n` first-channel samples.
pub open spec fn chan_peak(input: Seq<i64>, channels: int, n: int) -> int
    decreases n,
{
    if n <= 0 {
        0
    } else {
        let s = input[(n - 1) * channels] as int;
        let a = if s < 0 {
            -s
        } else {
            s
        };
        let rest = chan_peak(input, channels, n - 1);
        if a > rest {
            a
        } else {
            rest
        }
    }
}

proof fn lemma_mono_dup_len(input: Seq<i64>, channels: int, frames: int)
    requires
        frames >= 0,
    ensures
        mono_dup(input, channels, frames).len() == 2 * frames,
    decreases frames,
{
    if frames > 0 {
        lemma_mono_dup_len(input, channels, frames - 1);
    }
}

proof fn lemma_mono_dup_bounded(input: Seq<i64>, channels: int, frames: int, bound: int)
    requires
        frames >= 0,
        channels >= 1,
        forall|k: int| 0 <= k < input.len() ==> -bound <= #[trigger] input[k] <= bound,
        frames * channels <= input.len(),
    ensures
        forall|k: int|
            0 <= k < mono_dup(input, channels, frames).len() ==> -bound <= #[trigger] mono_dup(
                input,
                channels,
                frames,
            )[k] <= bound,
    decreases frames,
{
    if frames > 0 {
        assert((frames - 1) * channels < frames * channels) by (nonlinear_arith)
            requires
                channels >= 1,
                frames >= 1,
        ;
        assert((frames - 1) * channels >= 0) by (nonlinear_arith)
            requires
                channels >= 1,
                frames >= 1,
        ;
        lemma_mono_dup_bounded(input, channels, frames - 1, bound);
        lemma_mono_dup_len(input, channels, frames - 1);
        let full = mono_dup(input, channels, frames);
        let rest = mono_dup(input, channels, frames - 1);
        assert forall|k: int| 0 <= k < full.len() implies -bound <= #[trigger] full[k] <= bound by {
            if k < rest.len() {
                assert(full[k] == rest[k]);
            }
        }
    }
}

/// The smoothed peak follows the input: nine parts old, one part new.
pub open spec fn smoothed_peak(old_peak: int, frame_peak: int) -> int {
    tdiv(9 * old_peak + frame_peak, 10)
}

/// The mix after the microphone stage: unchanged while the ring buffer
/// holds less than one chunk of stereo samples; otherwise the music is
/// attenuated by the talkover amount and the microphone signal is
/// summed in at its gain, sample for sample (with the microphone
/// disabled both factors leave the music untouched).
pub open spec fn talkover_mix(m: MicrophoneState, mix: Seq<i64>, frames: int) -> Seq<i64> {
    if m.input_buffer@.len() < 2 * frames {
        mix
    } else {
        Seq::new(
            mix.len(),
            |k: int|
                if k < 2 * frames {
                    (tdiv(
                        mix[k] * (if m.enabled {
                            UNIT - m.talkover_ducking
                        } else {
                            UNIT as int
                        }),
                        UNIT as int,
                    ) + tdiv(
                        m.input_buffer@[k] * (if m.enabled {
                            m.gain
                        } else {
                            0i64
                        }),
                        UNIT as int,
                    )) as i64
                } else {
                    mix[k]
                },
        )
    }
}

/// A ring buffer bounded from the front: the newest `max` samples stay.
pub open spec fn bounded_tail(s: Seq<i64>, max: int) -> Seq<i64> {
    if s.len() <= max {
        s
    } else {
        s.skip(s.len() - max)
    }
}

impl MicrophoneState {
    /// Microphone off, unity gain, music ducked to half while talking.
    pub fn new() -> (m: MicrophoneState)
        ensures
            !m.enabled,
            m.gain == UNIT,
            m.talkover_ducking == 500_000,
            m.input_buffer@.len() == 0,
            m.peak == 0,
            wf_mic(m),
    {
        MicrophoneState {
            enabled: false,
            gain: UNIT,
            talkover_ducking: 500_000,
            input_buffer: VecDeque::new(),
            peak: 0,
        }
    }

    /// Ingest one block from the input device: duplicate the first source
    /// channel to stereo, append to the ring buffer, drop the oldest
    /// samples beyond `max_samples`, and smooth the peak.
    pub fn mic_ingest(&mut self, input: &Vec<i64>, input_channels: usize, max_samples: usize)
        requires
            wf_mic(*old(self)),
            input_channels >= 1,
            forall|k: int| 0 <= k < input@.len() ==> -UNIT <= #[trigger] input@[k] <= UNIT,
            old(self).input_buffer@.len() <= 0x1000_0000,
            input.len() <= 0x1000_0000,
            max_samples <= 0x1000_0000,
        ensures
            wf_mic(*final(self)),
            final(self).enabled == old(self).enabled,
            final(self).gain == old(self).gain,
            final(self).talkover_ducking == old(self).talkover_ducking,
            final(self).input_buffer@ == bounded_tail(
                old(self).input_buffer@ + mono_dup(
                    input@,
                    input_channels as int,
                    input@.len() as int / input_channels as int,
                ),
                max_samples as int,
            ),
            final(self).peak == smoothed_peak(
                old(self).peak as int,
                chan_peak(input@, input_channels as int, input@.len() as int / input_channels as int),
            ),
    {
        let frames = input.len() / input_channels;
        let ghost combined = old(self).input_buffer@ + mono_dup(
            input@,
            input_channels as int,
            frames as int,
        );
        proof {
            lemma_mono_dup_len(input@, input_channels as int, frames as int);
            vstd::arithmetic::div_mod::lemma_fundamental_div_mod(
                input@.len() as int,
                input_channels as int,
            );
            vstd::arithmetic::div_mod::lemma_mod_division_less_than_divisor(
                input@.len() as int,
                input_channels as int,
            );
        }
        let mut f: usize = 0;
        while f < frames
            invariant
                f <= frames,
                frames == input@.len() as int / input_channels as int,
                input_channels >= 1,
                frames * input_channels <= input@.len(),
                input@.len() <= 0x1000_0000,
                forall|k: int| 0 <= k < input@.len() ==> -UNIT <= #[trigger] input@[k] <= UNIT,
                self.enabled == old(self).enabled,
                self.gain == old(self).gain,
                self.talkover_ducking == old(self).talkover_ducking,
                self.peak == old(self).peak,
                wf_mic(*old(self)),
                self.input_buffer@ == old(self).input_buffer@ + mono_dup(
                    input@,
                    input_channels as int,
                    f as int,
                ),
            decreases frames - f,
        {
            proof {
                assert(f * input_channels < frames * input_channels) by (nonlinear_arith)
                    requires
                        0 <= f < frames,
                        input_channels >= 1,
                ;
                assert(0 <= f * input_channels) by (nonlinear_arith)
                    requires
                        0 <= f,
                        input_channels >= 1,
                ;
                lemma_mono_dup_len(input@, input_channels as int, f as int);
            }
            let s = input[f * input_channels];
            let ghost before = self.input_buffer@;
            self.input_buffer.push_back(s);
            self.input_buffer.push_back(s);
            proof {
                assert(mono_dup(input@, input_channels as int, f as int + 1) == mono_dup(
                    input@,
                    input_channels as int,
                    f as int,
                ) + seq![s, s]);
                assert(self.input_buffer@ =~= before + seq![s, s]);
                assert((old(self).input_buffer@ + mono_dup(input@, input_channels as int, f as int))
                    + seq![s, s] =~= old(self).input_buffer@ + (mono_dup(
                    input@,
                    input_channels as int,
                    f as int,
                ) + seq![s, s]));
            }
            f = f + 1;
        }
        proof {
            assert(self.input_buffer@ == combined);
            lemma_mono_dup_len(input@, input_channels as int, frames as int);
            lemma_mono_dup_bounded(input@, input_channels as int, frames as int, UNIT as int);
            assert forall|k: int|
                0 <= k < combined.len() implies -UNIT <= #[trigger] combined[k] <= UNIT by {
                if k >= old(self).input_buffer@.len() {
                    assert(combined[k] == mono_dup(input@, input_channels as int, frames as int)[k
                        - old(self).input_buffer@.len()]);
                } else {
                    assert(combined[k] == old(self).input_buffer@[k]);
                }
            }
        }
        let ghost mut dropped: int = 0;
        while self.input_buffer.len() > max_samples
            invariant
                0 <= dropped <= combined.len(),
                self.input_buffer@ == combined.skip(dropped),
                dropped == 0 || combined.len() - dropped >= max_samples,
                max_samples <= 0x1000_0000,
                forall|k: int| 0 <= k < combined.len() ==> -UNIT <= #[trigger] combined[k] <= UNIT,
                self.enabled == old(self).enabled,
                self.gain == old(self).gain,
                self.talkover_ducking == old(self).talkover_ducking,
                self.peak == old(self).peak,
                wf_mic(*old(self)),
            decreases self.input_buffer@.len(),
        {
            let ghost before = self.input_buffer@;
            let popped = self.input_buffer.pop_front();
            proof {
                assert(before.len() > max_samples);
                assert(before.subrange(1, before.len() as int) =~= combined.skip(dropped + 1));
                dropped = dropped + 1;
            }
        }
        proof {
            assert(self.input_buffer@ == (if combined.len() <= max_samples {
                combined
            } else {
                combined.skip(combined.len() - max_samples)
            })) by {
                if combined.len() <= max_samples {
                    assert(dropped == 0);
                    assert(combined.skip(0) =~= combined);
                } else {
                    assert(combined.len() - dropped <= max_samples);
                    assert(dropped == combined.len() - max_samples);
                }
            }
            assert(combined.skip(0) =~= combined);
        }
        let frame_peak = self.chan_peak_exec(input, input_channels, frames);
        proof {
            assert(0 <= 9 * self.peak + frame_peak <= 10 * UNIT);
            lemma_tdiv_abs_le(9 * self.peak as int + frame_peak as int, 10, UNIT as int);
        }
        self.peak = tdiv_i64(9 * self.peak + frame_peak, 10);
    }

    /// The largest absolute first-channel sample of the block.
    fn chan_peak_exec(&self, input: &Vec<i64>, input_channels: usize, frames: usize) -> (p: i64)
        requires
            input_channels >= 1,
            input.len() <= 0x1000_0000,
            frames * input_channels <= input@.len(),
            forall|k: int| 0 <= k < input@.len() ==> -UNIT <= #[trigger] input@[k] <= UNIT,
        ensures
            p == chan_peak(input@, input_channels as int, frames as int),
            0 <= p <= UNIT,
    {
        let mut p: i64 = 0;
        let mut n: usize = 0;
        while n < frames
            invariant
                n <= frames,
                input_channels >= 1,
                input.len() <= 0x1000_0000,
                frames * input_channels <= input@.len(),
                forall|k: int| 0 <= k < input@.len() ==> -UNIT <= #[trigger] input@[k] <= UNIT,
                p == chan_peak(input@, input_channels as int, n as int),
                0 <= p <= UNIT,
            decreases frames - n,
        {
            proof {
                assert(n * input_channels < frames * input_channels) by (nonlinear_arith)
                    requires
                        0 <= n < frames,
                        input_channels >= 1,
                ;
                assert(0 <= n * input_channels) by (nonlinear_arith)
                    requires
                        0 <= n,
                        input_channels >= 1,
                ;
            }
            let s = input[n * input_channels];
            let a = if s < 0 {
                -s
            } else {
                s
            };
            if a > p {
                p = a;
            }
            n = n + 1;
        }
        p
    }

    /// Mix the microphone into `mix_buffer` with talkover ducking.
    ///
    /// While the ring buffer holds less than one chunk nothing changes.
    /// Otherwise one stereo frame is consumed per output frame; with the
    /// microphone enabled the music is attenuated by the ducking amount
    /// and the microphone signal is added at its gain, with it disabled
    /// the frames are consumed without touching the mix; the stored peak
    /// becomes the chunk's largest consumed sample either way.
    pub fn apply_mic_talkover(&mut self, mix_buffer: &mut Vec<i64>, frames: usize)
        requires
            wf_mic(*old(self)),
            frames <= 0x1000_0000,
            2 * frames <= old(mix_buffer).len(),
            forall|k: int|
                0 <= k < old(mix_buffer)@.len() ==> -MIX_LIMIT <= #[trigger] old(mix_buffer)@[k]
                    <= MIX_LIMIT,
        ensures
            wf_mic(*final(self)),
            final(self).enabled == old(self).enabled,
            final(self).gain == old(self).gain,
            final(self).talkover_ducking == old(self).talkover_ducking,
            final(mix_buffer)@.len() == old(mix_buffer)@.len(),
            old(self).input_buffer@.len() < 2 * frames ==> *final(self) == *old(self) && final(mix_buffer)@ == old(mix_buffer)@,
            old(self).input_buffer@.len() >= 2 * frames ==> {
                &&& final(self).input_buffer@ == old(self).input_buffer@.skip(2 * frames as int)
                &&& final(self).peak == peak_of(old(self).input_buffer@, 2 * frames as int)
                &&& forall|k: int|
                    0 <= k < 2 * frames ==> #[trigger] final(mix_buffer)@[k] == tdiv(
                        old(mix_buffer)@[k] * (if old(self).enabled {
                            UNIT - old(self).talkover_ducking
                        } else {
                            UNIT as int
                        }),
                        UNIT as int,
                    ) + tdiv(
                        old(self).input_buffer@[k] * (if old(self).enabled {
                            old(self).gain
                        } else {
                            0i64
                        }),
                        UNIT as int,
                    )
                &&& forall|k: int|
                    2 * frames <= k < final(mix_buffer)@.len() ==> final(mix_buffer)@[k] == old(mix_buffer)@[k]
            },
            forall|k: int|
                0 <= k < final(mix_buffer)@.len() ==> -MIC_OUT_LIMIT <= #[trigger] final(mix_buffer)@[k] <= MIC_OUT_LIMIT,
    {
        let needed = 2 * frames;
        if self.input_buffer.len() < needed {
            return ;
        }
        let music_attenuation: i64 = if self.enabled {
            UNIT - self.talkover_ducking
        } else {
            UNIT
        };
        let mic_gain: i64 = if self.enabled {
            self.gain
        } else {
            0
        };
        let ghost buf0 = self.input_buffer@;
        let ghost mix0 = mix_buffer@;
        let mut chunk_peak: i64 = 0;
        let mut i: usize = 0;
        while i < frames
            invariant
                i <= frames,
                frames <= 0x1000_0000,
                2 * frames <= mix_buffer@.len(),
                mix_buffer@.len() == mix0.len(),
                buf0.len() >= 2 * frames,
                self.input_buffer@ == buf0.skip(2 * i),
                self.enabled == old(self).enabled,
                self.gain == old(self).gain,
                self.talkover_ducking == old(self).talkover_ducking,
                0 <= self.gain <= 2 * UNIT,
                0 <= self.talkover_ducking <= UNIT,
                0 <= self.peak <= UNIT,
                music_attenuation == (if self.enabled {
                    UNIT - self.talkover_ducking
                } else {
                    UNIT as int
                }),
                mic_gain == (if self.enabled {
                    self.gain
                } else {
                    0i64
                }),
                forall|k: int| 0 <= k < buf0.len() ==> -UNIT <= #[trigger] buf0[k] <= UNIT,
                forall|k: int| 0 <= k < mix0.len() ==> -MIX_LIMIT <= #[trigger] mix0[k] <= MIX_LIMIT,
                chunk_peak == peak_of(buf0, 2 * i),
                0 <= chunk_peak <= UNIT,
                forall|k: int|
                    0 <= k < 2 * i ==> #[trigger] mix_buffer@[k] == tdiv(
                        mix0[k] * music_attenuation,
                        UNIT as int,
                    ) + tdiv(buf0[k] * mic_gain, UNIT as int),
                forall|k: int|
                    0 <= k < 2 * i ==> -MIC_OUT_LIMIT <= #[trigger] mix_buffer@[k] <= MIC_OUT_LIMIT,
                forall|k: int| 2 * i <= k < mix0.len() ==> #[trigger] mix_buffer@[k] == mix0[k],
            decreases frames - i,
        {
            let ghost before = self.input_buffer@;
            let ml_opt = self.input_buffer.pop_front();
            let mic_left = match ml_opt {
                Some(v) => v,
                None => 0,
            };
            proof {
                assert(before.len() == buf0.len() - 2 * i);
                assert(before[0] == buf0[2 * i]);
                assert(before.subrange(1, before.len() as int) =~= buf0.skip(2 * i + 1));
            }
            let ghost before2 = self.input_buffer@;
            let mr_opt = self.input_buffer.pop_front();
            let mic_right = match mr_opt {
                Some(v) => v,
                None => 0,
            };
            proof {
                assert(before2[0] == buf0[2 * i + 1]);
                assert(before2.subrange(1, before2.len() as int) =~= buf0.skip(2 * i + 2));
                assert(mic_left == buf0[2 * i] && mic_right == buf0[2 * i + 1]);
            }
            let al = if mic_left < 0 {
                -mic_left
            } else {
                mic_left
            };
            let ar = if mic_right < 0 {
                -mic_right
            } else {
                mic_right
            };
            if al > chunk_peak {
                chunk_peak = al;
            }
            proof {
                assert(chunk_peak == peak_of(buf0, 2 * i + 1));
            }
            if ar > chunk_peak {
                chunk_peak = ar;
            }
            proof {
                assert(chunk_peak == peak_of(buf0, 2 * i + 2));
            }
            let base = 2 * i;
            let vl = crate::fixed::apply_gain(mix_buffer[base], music_attenuation) + crate::fixed::apply_gain(
                mic_left,
                mic_gain,
            );
            let vr = crate::fixed::apply_gain(mix_buffer[base + 1], music_attenuation)
                + crate::fixed::apply_gain(mic_right, mic_gain);
            proof {
                lemma_mul_bounds_abs(
                    mix0[base as int] as int,
                    music_attenuation as int,
                    MIX_LIMIT as int,
                    UNIT as int,
                );
                lemma_tdiv_abs_le(mix0[base as int] * music_attenuation, UNIT as int, MIX_LIMIT as int);
                lemma_mul_bounds_abs(
                    mix0[base as int + 1] as int,
                    music_attenuation as int,
                    MIX_LIMIT as int,
                    UNIT as int,
                );
                lemma_tdiv_abs_le(
                    mix0[base as int + 1] * music_attenuation,
                    UNIT as int,
                    MIX_LIMIT as int,
                );
                lemma_mul_bounds_abs(buf0[2 * i as int] as int, mic_gain as int, UNIT as int, 2 * UNIT as int);
                lemma_tdiv_abs_le(buf0[2 * i as int] * mic_gain, UNIT as int, 2 * UNIT as int);
                lemma_mul_bounds_abs(
                    buf0[2 * i as int + 1] as int,
                    mic_gain as int,
                    UNIT as int,
                    2 * UNIT as int,
                );
                lemma_tdiv_abs_le(buf0[2 * i as int + 1] * mic_gain, UNIT as int, 2 * UNIT as int);
            }
            mix_buffer.set(base, vl);
            mix_buffer.set(base + 1, vr);
            i = i + 1;
        }
        self.peak = chunk_peak;
    }
}

} // verus!
