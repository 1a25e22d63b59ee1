//! Decoder output shaping, tempo estimation on the energy envelope, and
//! coarse track structure.
//!
//! The container decode itself happens upstream; this module turns the
//! decoded samples into the engine's format — interleaved stereo plus a
//! mono fold, both clamped to full scale, resampled to the engine rate
//! by nearest-neighbour index mapping — finds a tempo from an
//! energy-flux onset envelope, and splits a track into intro, main and
//! outro sections along an energy envelope.

use vstd::prelude::*;

use crate::beat::lemma_lag_bpm_range;
use crate::fixed::{UNIT, tdiv, tdiv_i64, isqrt, clamp_unit, spec_clamp_unit, lemma_mul_bounds_abs};

verus! {

/// Analysis frame length for onset detection, in samples.
pub const ONSET_FRAME: usize = 2048;

/// Analysis hop for onset detection, in samples.
pub const ONSET_HOP: usize = 512;

/// Envelope frame length for structure analysis, in samples.
pub const ENVELOPE_FRAME: usize = 4096;

/// Envelope hop for structure analysis, in samples.
pub const ENVELOPE_HOP: usize = 2048;

/// One structural section of a track.
pub struct TrackSection {
    pub start_ms: i64,
    pub end_ms: i64,
    pub beats: i64,
}

/// Intro, main and outro sections with hot cues and the beat grid.
pub struct TrackStructure {
    pub bpm_centi: u32,
    pub intro: TrackSection,
    pub main: TrackSection,
    pub outro: TrackSection,
    pub hot_cues: Vec<i64>,
    pub beats: Vec<i64>,
}

/// Decoded audio shaped for the engine.
pub struct DecodeResult {
    /// Interleaved PCM at the target channel count, clamped to full scale.
    pub pcm: Vec<i64>,
    /// Mono fold, clamped to full scale.
    pub mono: Vec<i64>,
    pub bpm_centi: Option<u32>,
    pub structure: Option<TrackStructure>,
    pub sample_rate: u32,
    pub channels: u32,
}

/// The source frame a target frame reads: nearest-neighbour index
/// mapping, capped at the last source frame.
pub open spec fn resample_src_idx(f: int, source_frames: int, source_rate: int, target_rate: int)
    -> int {
    let raw = (f * source_rate) / target_rate;
    if raw <= source_frames - 1 {
        raw
    } else {
        source_frames - 1
    }
}

/// One clamped output sample of the resampler: target frame `f`, channel
/// `ch`, reading the matching source channel (the last one when the
/// source has fewer channels).
pub open spec fn resampled_at(
    samples: Seq<i64>,
    source_channels: int,
    source_rate: int,
    target_rate: int,
    f: int,
    ch: int,
) -> int {
    let sf = resample_src_idx(
        f,
        samples.len() as int / source_channels,
        source_rate,
        target_rate,
    );
    let sch = if ch < source_channels {
        ch
    } else {
        source_channels - 1
    };
    spec_clamp_unit(samples[sf * source_channels + sch] as int)
}

/// Resample decoded audio to the engine rate and channel count.
///
/// Every target frame reads its nearest source frame; each output
/// sample is the clamped source sample of the matching channel, and the
/// mono fold is the mean of the target frame's channels.
pub fn resample_to_engine(
    samples: &Vec<i64>,
    source_channels: usize,
    source_rate: u32,
    target_rate: u32,
    target_channels: usize,
) -> (r: (Vec<i64>, Vec<i64>))
    requires
        1 <= source_channels <= 8,
        1 <= target_channels <= 2,
        8000 <= source_rate <= 192_000,
        8000 <= target_rate <= 192_000,
        samples.len() >= source_channels,
        samples.len() <= 0x1fff_ffff,
        (samples.len() as int / source_channels as int) * (target_rate as int) / (
        source_rate as int) <= 0x3fff_ffff,
    ensures
        ({
            let sf = samples@.len() as int / source_channels as int;
            let tf = if source_rate == target_rate {
                sf
            } else {
                (sf * target_rate) / (source_rate as int)
            };
            &&& r.0@.len() == tf * target_channels
            &&& r.1@.len() == tf
            &&& forall|f: int, ch: int|
                0 <= f < tf && 0 <= ch < target_channels ==> #[trigger] r.0@[f * target_channels
                    + ch] == resampled_at(
                    samples@,
                    source_channels as int,
                    source_rate as int,
                    target_rate as int,
                    f,
                    ch,
                )
            &&& forall|f: int|
                0 <= f < tf ==> #[trigger] r.1@[f] == tdiv(
                    sum_resampled(
                        samples@,
                        source_channels as int,
                        source_rate as int,
                        target_rate as int,
                        f,
                        target_channels as int,
                    ),
                    target_channels as int,
                )
            &&& forall|k: int| 0 <= k < r.0@.len() ==> -UNIT <= #[trigger] r.0@[k] <= UNIT
            &&& forall|k: int| 0 <= k < r.1@.len() ==> -UNIT <= #[trigger] r.1@[k] <= UNIT
        }),
{
    let source_frames = samples.len() / source_channels;
    proof {
        vstd::arithmetic::div_mod::lemma_div_pos_is_pos(samples@.len() as int, source_channels as int);
        vstd::arithmetic::div_mod::lemma_div_non_zero(samples@.len() as int, source_channels as int);
        vstd::arithmetic::div_mod::lemma_div_is_ordered_by_denominator(
            samples@.len() as int,
            1,
            source_channels as int,
        );
        vstd::arithmetic::div_mod::lemma_fundamental_div_mod(
            samples@.len() as int,
            source_channels as int,
        );
        vstd::arithmetic::div_mod::lemma_mod_division_less_than_divisor(
            samples@.len() as int,
            source_channels as int,
        );
    }
    let target_frames: usize = if source_rate == target_rate {
        source_frames
    } else {
        proof {
            lemma_mul_bounds_abs(source_frames as int, target_rate as int, 0x1fff_ffff, 192_000);
            vstd::arithmetic::div_mod::lemma_div_pos_is_pos(
                (source_frames as int) * (target_rate as int),
                source_rate as int,
            );
        }
        (((source_frames as i64) * (target_rate as i64)) / (source_rate as i64)) as usize
    };
    let ghost tf = target_frames as int;
    let mut pcm: Vec<i64> = Vec::new();
    let mut mono: Vec<i64> = Vec::new();
    let mut f: usize = 0;
    while f < target_frames
        invariant
            f <= target_frames,
            tf == target_frames as int,
            target_frames <= 0x3fff_ffff,
            1 <= source_channels <= 8,
            1 <= target_channels <= 2,
            8000 <= source_rate <= 192_000,
            8000 <= target_rate <= 192_000,
            samples@.len() <= 0x1fff_ffff,
            source_frames == samples@.len() as int / source_channels as int,
            source_frames >= 1,
            source_frames * source_channels <= samples@.len(),
            source_rate == target_rate ==> target_frames == source_frames,
            source_rate != target_rate ==> target_frames as int == (source_frames as int * (
            target_rate as int)) / (source_rate as int),
            pcm@.len() == f * target_channels,
            mono@.len() == f,
            forall|g: int, ch: int|
                0 <= g < f && 0 <= ch < target_channels ==> #[trigger] pcm@[g * target_channels
                    + ch] == resampled_at(
                    samples@,
                    source_channels as int,
                    source_rate as int,
                    target_rate as int,
                    g,
                    ch,
                ),
            forall|k: int| 0 <= k < pcm@.len() ==> -UNIT <= #[trigger] pcm@[k] <= UNIT,
            forall|k: int| 0 <= k < mono@.len() ==> -UNIT <= #[trigger] mono@[k] <= UNIT,
            forall|g: int|
                0 <= g < f ==> #[trigger] mono@[g] == tdiv(
                    sum_resampled(
                        samples@,
                        source_channels as int,
                        source_rate as int,
                        target_rate as int,
                        g,
                        target_channels as int,
                    ),
                    target_channels as int,
                ),
        decreases target_frames - f,
    {
        proof {
            lemma_mul_bounds_abs(f as int, source_rate as int, 0x3fff_ffff, 192_000);
            vstd::arithmetic::div_mod::lemma_div_pos_is_pos(
                (f as int) * (source_rate as int),
                target_rate as int,
            );
        }
        let raw: i64 = ((f as i64) * (source_rate as i64)) / (target_rate as i64);
        let sf: usize = if raw <= (source_frames - 1) as i64 {
            proof {
                assert(raw >= 0);
            }
            raw as usize
        } else {
            source_frames - 1
        };
        proof {
            assert(sf as int == resample_src_idx(
                f as int,
                source_frames as int,
                source_rate as int,
                target_rate as int,
            ));
            assert((sf as int) * (source_channels as int) + (source_channels as int) <= (
            source_frames as int) * (source_channels as int)) by (nonlinear_arith)
                requires
                    sf as int <= source_frames as int - 1,
                    source_channels >= 1,
            ;
            assert(0 <= (sf as int) * (source_channels as int)) by (nonlinear_arith)
                requires
                    0 <= sf as int,
                    source_channels >= 1,
            ;
        }
        let base = sf * source_channels;
        let ghost pcm_prev = pcm@;
        let mut accum: i64 = 0;
        let mut ch: usize = 0;
        while ch < target_channels
            invariant
                ch <= target_channels,
                1 <= target_channels <= 2,
                1 <= source_channels <= 8,
                samples@.len() <= 0x1fff_ffff,
                base == sf * source_channels,
                base + source_channels <= samples@.len(),
                sf as int == resample_src_idx(
                    f as int,
                    source_frames as int,
                    source_rate as int,
                    target_rate as int,
                ),
                source_frames == samples@.len() as int / source_channels as int,
                pcm@.len() == pcm_prev.len() + ch,
                pcm_prev.len() == f * target_channels,
                forall|k: int| 0 <= k < pcm_prev.len() ==> pcm@[k] == pcm_prev[k],
                forall|c2: int|
                    0 <= c2 < ch ==> #[trigger] pcm@[pcm_prev.len() + c2] == resampled_at(
                        samples@,
                        source_channels as int,
                        source_rate as int,
                        target_rate as int,
                        f as int,
                        c2,
                    ),
                forall|k: int| 0 <= k < pcm@.len() ==> -UNIT <= #[trigger] pcm@[k] <= UNIT,
                -(ch as int) * UNIT <= accum <= (ch as int) * UNIT,
                accum == sum_resampled(
                    samples@,
                    source_channels as int,
                    source_rate as int,
                    target_rate as int,
                    f as int,
                    ch as int,
                ),
            decreases target_channels - ch,
        {
            let sch = if ch < source_channels {
                ch
            } else {
                source_channels - 1
            };
            let v = clamp_unit(samples[base + sch]);
            pcm.push(v);
            proof {
                assert((ch as int + 1) * UNIT == (ch as int) * UNIT + UNIT) by (nonlinear_arith);
                assert(-(ch as int + 1) * UNIT == -(ch as int) * UNIT - UNIT) by (nonlinear_arith);
            }
            accum = accum + v;
            ch = ch + 1;
        }
        proof {
            assert((UNIT as int) * (target_channels as int) == (target_channels as int) * UNIT)
                by (nonlinear_arith);
            crate::fixed::lemma_tdiv_abs_le(accum as int, target_channels as int, UNIT as int);
        }
        let m = tdiv_i64(accum, target_channels as i64);
        mono.push(m);
        proof {
            assert(pcm@.len() == (f + 1) * target_channels) by (nonlinear_arith)
                requires
                    pcm@.len() == f * target_channels + target_channels,
            ;
            assert forall|g: int, ch2: int|
                0 <= g < f + 1 && 0 <= ch2 < target_channels implies #[trigger] pcm@[g
                * target_channels + ch2] == resampled_at(
                samples@,
                source_channels as int,
                source_rate as int,
                target_rate as int,
                g,
                ch2,
            ) by {
                if g < f {
                    assert(g * target_channels + ch2 < f * target_channels) by (nonlinear_arith)
                        requires
                            0 <= g < f as int,
                            0 <= ch2 < target_channels as int,
                    ;
                    assert(g * target_channels + ch2 >= 0) by (nonlinear_arith)
                        requires
                            0 <= g,
                            0 <= ch2,
                            target_channels >= 1,
                    ;
                    assert(pcm@[g * target_channels + ch2] == pcm_prev[g * target_channels + ch2]);
                } else {
                    assert(g * target_channels == f * target_channels);
                }
            }
        }
        f = f + 1;
    }
    (pcm, mono)
}

/// Onset envelope of a mono track: frame energy flux, smoothed and
/// normalised to full scale.
///
/// Each analysis frame's root-mean-square energy is compared with the
/// previous frame's; the positive difference is the onset strength.
pub fn detect_onsets(data: &Vec<i64>) -> (out: Vec<i64>)
    requires
        data.len() <= 0x1fff_ffff,
        forall|k: int| 0 <= k < data@.len() ==> -UNIT <= #[trigger] data@[k] <= UNIT,
    ensures
        data@.len() < ONSET_FRAME ==> out@.len() == 0,
        data@.len() >= ONSET_FRAME ==> out@.len() == (data@.len() - ONSET_FRAME) as int
            / ONSET_HOP as int,
        forall|k: int| 0 <= k < out@.len() ==> 0 <= #[trigger] out@[k] <= UNIT,
        (forall|k: int| 0 <= k < data@.len() ==> data@[k] == 0) ==> forall|k: int|
            0 <= k < out@.len() ==> out@[k] == 0,
{
    if data.len() < ONSET_FRAME {
        return Vec::new();
    }
    let ghost dz = forall|k: int| 0 <= k < data@.len() ==> data@[k] == 0;
    let num_frames = (data.len() - ONSET_FRAME) / ONSET_HOP;
    proof {
        vstd::arithmetic::div_mod::lemma_div_pos_is_pos(
            (data@.len() - ONSET_FRAME) as int,
            ONSET_HOP as int,
        );
        vstd::arithmetic::div_mod::lemma_div_is_ordered_by_denominator(
            (data@.len() - ONSET_FRAME) as int,
            1,
            ONSET_HOP as int,
        );
    }
    let mut strength: Vec<i64> = Vec::new();
    let mut prev_energy: i64 = 0;
    let mut i: usize = 0;
    while i < num_frames
        invariant
            i <= num_frames,
            num_frames * ONSET_HOP + ONSET_FRAME <= data@.len(),
            data@.len() <= 0x1fff_ffff,
            dz == (forall|k: int| 0 <= k < data@.len() ==> data@[k] == 0),
            forall|k: int| 0 <= k < data@.len() ==> -UNIT <= #[trigger] data@[k] <= UNIT,
            strength@.len() == i,
            0 <= prev_energy <= UNIT,
            forall|k: int| 0 <= k < i ==> 0 <= #[trigger] strength@[k] <= UNIT,
            dz ==> prev_energy == 0,
            dz ==> forall|k: int| 0 <= k < i ==> strength@[k] == 0,
        decreases num_frames - i,
    {
        proof {
            assert((i as int) * (ONSET_HOP as int) + ONSET_FRAME <= (num_frames as int) * (
            ONSET_HOP as int) + ONSET_FRAME) by (nonlinear_arith)
                requires
                    i < num_frames,
            ;
            assert(0 <= (i as int) * (ONSET_HOP as int)) by (nonlinear_arith)
                requires
                    0 <= i as int,
            ;
        }
        let start = i * ONSET_HOP;
        let energy = frame_rms(data, start, ONSET_FRAME);
        let flux = if energy > prev_energy {
            energy - prev_energy
        } else {
            0
        };
        strength.push(flux);
        prev_energy = energy;
        i = i + 1;
    }
    let smoothed = smooth_centered(&strength, 3);
    let out = normalize_to_unit(&smoothed);
    proof {
        if dz {
            assert(forall|k: int| 0 <= k < strength@.len() ==> strength@[k] == 0);
        }
    }
    out
}

/// Root-mean-square amplitude of one analysis frame.
fn frame_rms(data: &Vec<i64>, start: usize, frame: usize) -> (e: i64)
    requires
        1 <= frame <= 8192,
        data.len() <= 0x1fff_ffff,
        start + frame <= data.len(),
        forall|k: int| 0 <= k < data@.len() ==> -UNIT <= #[trigger] data@[k] <= UNIT,
    ensures
        0 <= e <= UNIT,
        (forall|j: int| start <= j < start + frame ==> data@[j] == 0) ==> e == 0,
{
    let mut sum: i64 = 0;
    let mut k: usize = 0;
    while k < frame
        invariant
            k <= frame <= 8192,
            data@.len() <= 0x1fff_ffff,
            start + frame <= data@.len(),
            forall|j: int| 0 <= j < data@.len() ==> -UNIT <= #[trigger] data@[j] <= UNIT,
            0 <= sum <= (k as int) * 1_000_000_000_000i64,
            (forall|j: int| start <= j < start + frame ==> data@[j] == 0) ==> sum == 0,
        decreases frame - k,
    {
        let s = data[start + k];
        proof {
            crate::fixed::lemma_mul_bounds_abs(s as int, s as int, UNIT as int, UNIT as int);
            assert(s as int * s as int >= 0) by (nonlinear_arith);
            if forall|j: int| start <= j < start + frame ==> data@[j] == 0 {
                assert(data@[start + k as int] == 0);
                assert(s as int * s as int == 0) by (nonlinear_arith)
                    requires
                        s == 0,
                ;
            }
            assert((k as int + 1) * 1_000_000_000_000i64 == (k as int) * 1_000_000_000_000i64
                + 1_000_000_000_000i64) by (nonlinear_arith);
        }
        sum = sum + s * s;
        k = k + 1;
    }
    proof {
        vstd::arithmetic::div_mod::lemma_div_pos_is_pos(sum as int, frame as int);
        vstd::arithmetic::div_mod::lemma_div_is_ordered(
            sum as int,
            (frame as int) * 1_000_000_000_000i64,
            frame as int,
        );
        vstd::arithmetic::div_mod::lemma_div_multiples_vanish(1_000_000_000_000i64 as int, frame as int);
        assert((frame as int) * 1_000_000_000_000i64 == 1_000_000_000_000i64 * (frame as int))
            by (nonlinear_arith);
    }
    let mean_sq = sum / (frame as i64);
    let e64 = isqrt(mean_sq as u64);
    proof {
        assert(e64 <= 1_000_000) by (nonlinear_arith)
            requires
                (e64 as int) * (e64 as int) <= 1_000_000_000_000i64,
        ;
        if forall|j: int| start <= j < start + frame ==> data@[j] == 0 {
            assert(sum == 0);
            vstd::arithmetic::div_mod::lemma_div_of0(frame as int);
            assert(e64 == crate::fixed::spec_isqrt(0));
        }
    }
    e64 as i64
}

/// Centred moving average over `2 * half + 1` taps, edges shortened.
fn smooth_centered(v: &Vec<i64>, half: usize) -> (out: Vec<i64>)
    requires
        1 <= half <= 5,
        v.len() <= 0x1fff_ffff,
        forall|k: int| 0 <= k < v@.len() ==> 0 <= #[trigger] v@[k] <= UNIT,
    ensures
        out@.len() == v@.len(),
        forall|k: int| 0 <= k < out@.len() ==> 0 <= #[trigger] out@[k] <= UNIT,
        (forall|k: int| 0 <= k < v@.len() ==> v@[k] == 0) ==> forall|k: int|
            0 <= k < out@.len() ==> out@[k] == 0,
{
    let ghost vz = forall|k: int| 0 <= k < v@.len() ==> v@[k] == 0;
    let mut out: Vec<i64> = Vec::new();
    let mut i: usize = 0;
    while i < v.len()
        invariant
            i <= v@.len(),
            1 <= half <= 5,
            v@.len() <= 0x1fff_ffff,
            out@.len() == i,
            vz == (forall|k: int| 0 <= k < v@.len() ==> v@[k] == 0),
            forall|k: int| 0 <= k < v@.len() ==> 0 <= #[trigger] v@[k] <= UNIT,
            forall|k: int| 0 <= k < i ==> 0 <= #[trigger] out@[k] <= UNIT,
            vz ==> forall|k: int| 0 <= k < i ==> out@[k] == 0,
        decreases v@.len() - i,
    {
        let start: usize = if i >= half {
            i - half
        } else {
            0
        };
        let end: usize = if i + half + 1 <= v.len() {
            i + half + 1
        } else {
            v.len()
        };
        let mut sum: i64 = 0;
        let mut w: usize = start;
        while w < end
            invariant
                start <= w <= end <= v@.len(),
                end - start <= 11,
                vz == (forall|k: int| 0 <= k < v@.len() ==> v@[k] == 0),
                forall|k: int| 0 <= k < v@.len() ==> 0 <= #[trigger] v@[k] <= UNIT,
                0 <= sum <= (w - start) * UNIT,
                vz ==> sum == 0,
            decreases end - w,
        {
            sum = sum + v[w];
            proof {
                assert((w - start + 1) * (UNIT as int) == (w - start) * (UNIT as int) + UNIT)
                    by (nonlinear_arith);
            }
            w = w + 1;
        }
        let width = end - start;
        proof {
            vstd::arithmetic::div_mod::lemma_div_pos_is_pos(sum as int, width as int);
            vstd::arithmetic::div_mod::lemma_div_is_ordered(
                sum as int,
                (width as int) * UNIT,
                width as int,
            );
            vstd::arithmetic::div_mod::lemma_div_multiples_vanish(UNIT as int, width as int);
            assert((width as int) * UNIT == UNIT * (width as int)) by (nonlinear_arith);
            if vz {
                vstd::arithmetic::div_mod::lemma_div_of0(width as int);
            }
        }
        out.push(sum / (width as i64));
        i = i + 1;
    }
    out
}

/// Scale a non-negative curve so its maximum is full scale.
fn normalize_to_unit(v: &Vec<i64>) -> (out: Vec<i64>)
    requires
        v.len() <= 0x1fff_ffff,
        forall|k: int| 0 <= k < v@.len() ==> 0 <= #[trigger] v@[k] <= UNIT,
    ensures
        out@.len() == v@.len(),
        forall|k: int| 0 <= k < out@.len() ==> 0 <= #[trigger] out@[k] <= UNIT,
        (forall|k: int| 0 <= k < v@.len() ==> v@[k] == 0) ==> forall|k: int|
            0 <= k < out@.len() ==> out@[k] == 0,
{
    let ghost vz = forall|k: int| 0 <= k < v@.len() ==> v@[k] == 0;
    let mut max_val: i64 = 0;
    let mut i: usize = 0;
    while i < v.len()
        invariant
            i <= v@.len(),
            0 <= max_val <= UNIT,
            vz == (forall|k: int| 0 <= k < v@.len() ==> v@[k] == 0),
            forall|k: int| 0 <= k < v@.len() ==> 0 <= #[trigger] v@[k] <= UNIT,
            forall|k: int| 0 <= k < i ==> #[trigger] v@[k] <= max_val,
            vz ==> max_val == 0,
        decreases v@.len() - i,
    {
        if v[i] > max_val {
            max_val = v[i];
        }
        i = i + 1;
    }
    let mut out: Vec<i64> = Vec::new();
    let mut j: usize = 0;
    while j < v.len()
        invariant
            j <= v@.len(),
            out@.len() == j,
            0 <= max_val <= UNIT,
            vz == (forall|k: int| 0 <= k < v@.len() ==> v@[k] == 0),
            forall|k: int| 0 <= k < v@.len() ==> 0 <= #[trigger] v@[k] <= UNIT,
            forall|k: int| 0 <= k < v@.len() ==> #[trigger] v@[k] <= max_val,
            forall|k: int| 0 <= k < j ==> 0 <= #[trigger] out@[k] <= UNIT,
            vz ==> max_val == 0,
            vz ==> forall|k: int| 0 <= k < j ==> out@[k] == 0,
        decreases v@.len() - j,
    {
        let x: i64 = if max_val > 0 {
            proof {
                crate::fixed::lemma_mul_bounds_abs(v@[j as int] as int, UNIT as int, UNIT as int, UNIT as int);
                assert(v@[j as int] * (UNIT as int) <= max_val * (UNIT as int)) by (nonlinear_arith)
                    requires
                        0 <= v@[j as int] <= max_val,
                ;
                vstd::arithmetic::div_mod::lemma_div_pos_is_pos(
                    v@[j as int] * (UNIT as int),
                    max_val as int,
                );
                vstd::arithmetic::div_mod::lemma_div_is_ordered(
                    v@[j as int] * (UNIT as int),
                    max_val * (UNIT as int),
                    max_val as int,
                );
                vstd::arithmetic::div_mod::lemma_div_multiples_vanish(UNIT as int, max_val as int);
                assert(max_val * (UNIT as int) == (UNIT as int) * max_val) by (nonlinear_arith);
            }
            (v[j] * UNIT) / max_val
        } else {
            0
        };
        out.push(x);
        j = j + 1;
    }
    out
}

/// Round a tempo to a whole beat per minute and fold a single octave
/// towards the usual range: a tempo under 80 doubles, one over 170
/// halves.
pub fn refine_bpm(bpm_centi: u32) -> (r: u32)
    requires
        bpm_centi <= 3_000_000,
    ensures
        r as int == ({
            let folded = if bpm_centi < 8000 {
                2 * bpm_centi as int
            } else if bpm_centi > 17_000 {
                bpm_centi as int / 2
            } else {
                bpm_centi as int
            };
            ((folded + 50) / 100) * 100
        }),
        r % 100 == 0,
{
    let folded: u32 = if bpm_centi < 8000 {
        2 * bpm_centi
    } else if bpm_centi > 17_000 {
        bpm_centi / 2
    } else {
        bpm_centi
    };
    proof {
        vstd::arithmetic::div_mod::lemma_div_pos_is_pos((folded + 50) as int, 100);
        vstd::arithmetic::div_mod::lemma_mod_multiples_basic(
            ((folded as int + 50) / 100),
            100,
        );
    }
    let rounded = ((folded + 50) / 100) * 100;
    rounded
}

/// Folding one octave towards the usual range and rounding to a whole
/// beat per minute lands any tempo between 60 and 255 inside 80 to 170.
proof fn lemma_refine_range(b: int, r: int)
    requires
        6000 <= b <= 25_500,
        r == ({
            let folded = if b < 8000 {
                2 * b
            } else if b > 17_000 {
                b / 2
            } else {
                b
            };
            ((folded + 50) / 100) * 100
        }),
    ensures
        8000 <= r <= 17_000,
{
    let folded = if b < 8000 {
        2 * b
    } else if b > 17_000 {
        b / 2
    } else {
        b
    };
    if b > 17_000 {
        vstd::arithmetic::div_mod::lemma_div_is_ordered(17_001, b, 2);
        vstd::arithmetic::div_mod::lemma_div_is_ordered(b, 25_500, 2);
    }
    assert(8000 <= folded <= 17_000);
    vstd::arithmetic::div_mod::lemma_div_is_ordered(8050, folded + 50, 100);
    vstd::arithmetic::div_mod::lemma_div_is_ordered(folded + 50, 17_050, 100);
}

/// Estimate a track's tempo from its onset envelope by normalised
/// autocorrelation over lags between 60 and 200 beats per minute,
/// preferring the strongest local peak, with a harmonically related
/// peak between 100 and 140 beats per minute taking over when it is
/// nearly as strong.  The result is a whole tempo in hundredths.
pub fn find_tempo(onsets: &Vec<i64>, sample_rate: u32) -> (r: Option<u32>)
    requires
        8000 <= sample_rate <= 192_000,
        onsets.len() <= 1_048_576,
        forall|k: int| 0 <= k < onsets@.len() ==> 0 <= #[trigger] onsets@[k] <= UNIT,
    ensures
        r is Some ==> r->0 % 100 == 0,
        r is Some ==> 8000 <= r->0 <= 17_000,
        ({
            let len = onsets@.len() as int;
            let min_l = (60 * (sample_rate as int)) / 102_400;
            let max_l = (60 * (sample_rate as int)) / 30_720;
            (len > 0 && max_l < len / 2 && min_l >= 1 && min_l < max_l && exists|lag: int|
                min_l <= lag <= max_l && #[trigger] corr_sum(onsets@, lag, len - lag) >= len
                    - lag) ==> r is Some
        }),
{
    if onsets.len() == 0 {
        return None;
    }
    let sr = sample_rate as usize;
    let min_lag: usize = (60 * sr) / (200 * ONSET_HOP);
    let max_lag: usize = (60 * sr) / (60 * ONSET_HOP);
    if max_lag >= onsets.len() / 2 || min_lag == 0 || min_lag >= max_lag {
        return None;
    }
    let n_corr = max_lag - min_lag + 1;
    let mut correlations: Vec<i64> = Vec::new();
    let mut lag: usize = min_lag;
    while lag <= max_lag
        invariant
            min_lag <= lag <= max_lag + 1,
            0 < min_lag < max_lag,
            max_lag < onsets@.len() / 2,
            onsets@.len() <= 1_048_576,
            8000 <= sample_rate <= 192_000,
            correlations@.len() == lag - min_lag,
            forall|k: int| 0 <= k < onsets@.len() ==> 0 <= #[trigger] onsets@[k] <= UNIT,
            forall|k: int|
                0 <= k < correlations@.len() ==> 0 <= #[trigger] correlations@[k]
                    <= 1_000_000_000_000i64,
            forall|k: int|
                0 <= k < correlations@.len() ==> #[trigger] correlations@[k] == corr_sum(
                    onsets@,
                    min_lag + k,
                    onsets@.len() - min_lag - k,
                ) / (onsets@.len() - min_lag - k),
        decreases max_lag + 1 - lag,
    {
        let corr = normalized_autocorr(onsets, lag);
        correlations.push(corr);
        lag = lag + 1;
    }
    // local maxima against both one- and two-step neighbours
    let mut peak_lags: Vec<usize> = Vec::new();
    let mut peak_corrs: Vec<i64> = Vec::new();
    if correlations.len() >= 5 {
        let mut i: usize = 2;
        while i < correlations.len() - 2
            invariant
                2 <= i <= correlations@.len() - 2,
                correlations@.len() >= 5,
                correlations@.len() == max_lag - min_lag + 1,
                0 < min_lag < max_lag,
                8000 <= sample_rate <= 192_000,
                min_lag as int == (60 * (sample_rate as int)) / 102_400,
                max_lag as int == (60 * (sample_rate as int)) / 30_720,
                peak_lags@.len() == peak_corrs@.len(),
                forall|k: int|
                    0 <= k < peak_lags@.len() ==> min_lag <= #[trigger] peak_lags@[k] <= max_lag,
                forall|k: int|
                    0 <= k < correlations@.len() ==> 0 <= #[trigger] correlations@[k]
                        <= 1_000_000_000_000i64,
                forall|k: int|
                    0 <= k < peak_corrs@.len() ==> 0 <= #[trigger] peak_corrs@[k]
                        <= 1_000_000_000_000i64,
            decreases correlations@.len() - 2 - i,
        {
            let c = correlations[i];
            if c > correlations[i - 1] && c > correlations[i + 1] && c > correlations[i - 2] && c
                > correlations[i + 2] {
                peak_lags.push(i + min_lag);
                peak_corrs.push(c);
            }
            i = i + 1;
        }
    }
    if peak_lags.len() == 0 {
        // fall back to the strongest correlation overall
        let mut best_idx: usize = 0;
        let mut best_corr: i64 = correlations[0];
        let mut i: usize = 1;
        while i < correlations.len()
            invariant
                1 <= i <= correlations@.len(),
                correlations@.len() >= 1,
                best_idx < correlations@.len(),
                correlations@.len() == max_lag - min_lag + 1,
                0 < min_lag < max_lag,
                max_lag < onsets@.len() / 2,
                8000 <= sample_rate <= 192_000,
                min_lag as int == (60 * (sample_rate as int)) / 102_400,
                max_lag as int == (60 * (sample_rate as int)) / 30_720,
                forall|k: int|
                    0 <= k < correlations@.len() ==> 0 <= #[trigger] correlations@[k]
                        <= 1_000_000_000_000i64,
                forall|k: int|
                    0 <= k < correlations@.len() ==> #[trigger] correlations@[k] == corr_sum(
                        onsets@,
                        min_lag + k,
                        onsets@.len() - min_lag - k,
                    ) / (onsets@.len() - min_lag - k),
                forall|k: int| 0 <= k < i ==> #[trigger] correlations@[k] <= best_corr,
                best_corr >= 0,
            decreases correlations@.len() - i,
        {
            if correlations[i] > best_corr {
                best_corr = correlations[i];
                best_idx = i;
            }
            i = i + 1;
        }
        proof {
            let len = onsets@.len() as int;
            if exists|lag: int|
                min_lag <= lag <= max_lag && #[trigger] corr_sum(onsets@, lag, len - lag) >= len
                    - lag {
                let lag = choose|lag: int|
                    min_lag <= lag <= max_lag && #[trigger] corr_sum(onsets@, lag, len - lag)
                        >= len - lag;
                let i2 = lag - min_lag;
                assert(0 <= i2 < correlations@.len());
                assert(correlations@[i2] == corr_sum(onsets@, min_lag + i2, len - min_lag - i2)
                    / (len - min_lag - i2));
                assert(correlations@[i2] == corr_sum(onsets@, lag, len - lag) / (len - lag));
                vstd::arithmetic::div_mod::lemma_div_is_ordered(
                    len - lag,
                    corr_sum(onsets@, lag, len - lag),
                    len - lag,
                );
                vstd::arithmetic::div_mod::lemma_div_multiples_vanish(1, len - lag);
                assert(correlations@[i2] >= 1);
                assert(best_corr > 0);
            }
        }
        if best_corr > 0 {
            let bpm = lag_to_bpm_centi(sample_rate, best_idx + min_lag);
            proof {
                lemma_lag_bpm_range(
                    sample_rate as int,
                    (best_idx + min_lag) as int,
                    bpm as int,
                );
            }
            let rounded = refine_bpm(bpm);
            proof {
                lemma_refine_range(bpm as int, rounded as int);
            }
            return Some(rounded);
        }
        return None;
    }
    // strongest peak, then the next two strongest
    let (i0, c0) = argmax_excluding(&peak_corrs, peak_corrs.len(), peak_corrs.len());
    let (i1, c1) = argmax_excluding(&peak_corrs, i0, peak_corrs.len());
    let (i2, c2) = argmax_excluding(&peak_corrs, i0, i1);
    let bpm0 = lag_to_bpm_centi(sample_rate, peak_lags[i0]);
    proof {
        lemma_lag_bpm_range(sample_rate as int, peak_lags@[i0 as int] as int, bpm0 as int);
    }
    let mut chosen = bpm0;
    let mut h: usize = 0;
    while h < 2
        invariant
            h <= 2,
            peak_lags@.len() == peak_corrs@.len(),
            peak_lags@.len() >= 1,
            i0 < peak_lags@.len(),
            i1 < peak_lags@.len(),
            i2 < peak_lags@.len(),
            8000 <= sample_rate <= 192_000,
            forall|k: int|
                0 <= k < peak_lags@.len() ==> min_lag <= #[trigger] peak_lags@[k] <= max_lag,
            min_lag >= 1,
            max_lag <= 0x1fff_ffff,
            min_lag as int == (60 * (sample_rate as int)) / 102_400,
            max_lag as int == (60 * (sample_rate as int)) / 30_720,
            6000 <= chosen <= 25_500,
            6000 <= bpm0 <= 25_500,
            forall|k: int|
                0 <= k < peak_corrs@.len() ==> 0 <= #[trigger] peak_corrs@[k]
                    <= 1_000_000_000_000i64,
        decreases 2 - h,
    {
        let idx = if h == 0 {
            i1
        } else {
            i2
        };
        let cnd = lag_to_bpm_centi(sample_rate, peak_lags[idx]);
        proof {
            lemma_lag_bpm_range(sample_rate as int, peak_lags@[idx as int] as int, cnd as int);
        }
        let strong_enough = 5 * peak_corrs[idx] > 4 * peak_corrs[i0];
        let near_double = harmonic_near(bpm0, cnd);
        if strong_enough && near_double && cnd >= 10_000 && cnd <= 14_000 && (bpm0 < 10_000 || bpm0
            > 14_000) && chosen == bpm0 {
            chosen = cnd;
        }
        h = h + 1;
    }
    let rounded = refine_bpm(chosen);
    proof {
        lemma_refine_range(chosen as int, rounded as int);
    }
    Some(rounded)
}

/// The two tempos are within ten percent of a double or half relation.
fn harmonic_near(a: u32, b: u32) -> (r: bool)
    requires
        a <= 3_000_000,
        b <= 3_000_000,
{
    let a64 = a as i64;
    let b64 = b as i64;
    let d2 = if a64 >= 2 * b64 {
        a64 - 2 * b64
    } else {
        2 * b64 - a64
    };
    let dh = if 2 * a64 >= b64 {
        2 * a64 - b64
    } else {
        b64 - 2 * a64
    };
    10 * d2 < 2 * b64 || 10 * dh < 4 * b64
}

/// The strongest entry of `v` whose index is neither exclusion, with its
/// value; index 0 when the vector is empty of candidates.
fn argmax_excluding(v: &Vec<i64>, skip1: usize, skip2: usize) -> (r: (usize, i64))
    requires
        v.len() >= 1,
        forall|k: int| 0 <= k < v@.len() ==> 0 <= #[trigger] v@[k],
    ensures
        r.0 < v@.len(),
        r.1 >= 0,
{
    let mut best_idx: usize = 0;
    let mut best_val: i64 = -1;
    let mut i: usize = 0;
    while i < v.len()
        invariant
            i <= v@.len(),
            v@.len() >= 1,
            best_idx < v@.len(),
            forall|k: int| 0 <= k < v@.len() ==> 0 <= #[trigger] v@[k],
            best_val >= -1,
        decreases v@.len() - i,
    {
        if i != skip1 && i != skip2 && v[i] > best_val {
            best_val = v[i];
            best_idx = i;
        }
        i = i + 1;
    }
    if best_val < 0 {
        (0, v[0])
    } else {
        (best_idx, best_val)
    }
}

/// The raw autocorrelation of a curve with itself at one lag, over the
/// first `n` overlapping positions.
pub open spec fn corr_sum(s: Seq<i64>, lag: int, n: int) -> int
    decreases n,
{
    if n <= 0 {
        0
    } else {
        corr_sum(s, lag, n - 1) + s[n - 1] * s[n - 1 + lag]
    }
}

/// Autocorrelation at one lag, normalised by the overlap length.
fn normalized_autocorr(onsets: &Vec<i64>, lag: usize) -> (corr: i64)
    requires
        lag < onsets.len(),
        onsets.len() <= 1_048_576,
        forall|k: int| 0 <= k < onsets@.len() ==> 0 <= #[trigger] onsets@[k] <= UNIT,
    ensures
        0 <= corr <= 1_000_000_000_000i64,
        corr == corr_sum(onsets@, lag as int, onsets@.len() - lag as int) / (onsets@.len()
            - lag as int),
{
    let count = onsets.len() - lag;
    let mut sum: i64 = 0;
    let mut i: usize = 0;
    while i < count
        invariant
            i <= count,
            count + lag == onsets@.len(),
            onsets@.len() <= 1_048_576,
            forall|k: int| 0 <= k < onsets@.len() ==> 0 <= #[trigger] onsets@[k] <= UNIT,
            0 <= sum <= (i as int) * 1_000_000_000_000i64,
            sum == corr_sum(onsets@, lag as int, i as int),
        decreases count - i,
    {
        proof {
            crate::fixed::lemma_mul_bounds_abs(
                onsets@[i as int] as int,
                onsets@[i as int + lag as int] as int,
                UNIT as int,
                UNIT as int,
            );
            assert(onsets@[i as int] * onsets@[i as int + lag as int] >= 0) by (nonlinear_arith)
                requires
                    onsets@[i as int] >= 0,
                    onsets@[i as int + lag as int] >= 0,
            ;
            assert((i as int + 1) * 1_000_000_000_000i64 == (i as int) * 1_000_000_000_000i64
                + 1_000_000_000_000i64) by (nonlinear_arith);
        }
        sum = sum + onsets[i] * onsets[i + lag];
        i = i + 1;
    }
    proof {
        vstd::arithmetic::div_mod::lemma_div_pos_is_pos(sum as int, count as int);
        vstd::arithmetic::div_mod::lemma_div_is_ordered(
            sum as int,
            (count as int) * 1_000_000_000_000i64,
            count as int,
        );
        vstd::arithmetic::div_mod::lemma_div_multiples_vanish(1_000_000_000_000i64 as int, count as int);
        assert((count as int) * 1_000_000_000_000i64 == 1_000_000_000_000i64 * (count as int))
            by (nonlinear_arith);
    }
    sum / (count as i64)
}

/// The tempo of an autocorrelation lag, in hundredths of a beat per
/// minute.
fn lag_to_bpm_centi(sample_rate: u32, lag: usize) -> (bpm: u32)
    requires
        8000 <= sample_rate <= 192_000,
        1 <= lag <= 0x1fff_ffff,
    ensures
        bpm as int == (6000 * (sample_rate as int)) / ((lag as int) * (ONSET_HOP as int)),
        bpm <= 3_000_000,
{
    proof {
        assert((lag as int) * (ONSET_HOP as int) >= 512) by (nonlinear_arith)
            requires
                lag as int >= 1,
        ;
        assert((lag as int) * (ONSET_HOP as int) <= 0x1fff_ffffi64 * 512) by (nonlinear_arith)
            requires
                lag as int <= 0x1fff_ffff,
        ;
        vstd::arithmetic::div_mod::lemma_div_pos_is_pos(
            6000 * (sample_rate as int),
            (lag as int) * (ONSET_HOP as int),
        );
        vstd::arithmetic::div_mod::lemma_div_is_ordered_by_denominator(
            6000 * (sample_rate as int),
            512,
            (lag as int) * (ONSET_HOP as int),
        );
        vstd::arithmetic::div_mod::lemma_div_is_ordered(
            6000 * (sample_rate as int),
            6000int * 192_000,
            512,
        );
    }
    let denom: u64 = (lag as u64) * (ONSET_HOP as u64);
    ((6000u64 * (sample_rate as u64)) / denom) as u32
}

/// Tempo of a mono track: energy-flux onsets, then autocorrelation.
pub fn detect_bpm(mono: &Vec<i64>, sample_rate: u32) -> (r: Option<u32>)
    requires
        8000 <= sample_rate <= 192_000,
        mono.len() <= 0x1fff_ffff,
        forall|k: int| 0 <= k < mono@.len() ==> -UNIT <= #[trigger] mono@[k] <= UNIT,
    ensures
        r is Some ==> r->0 % 100 == 0,
        r is Some ==> 8000 <= r->0 <= 17_000,
{
    let onsets = detect_onsets(mono);
    find_tempo(&onsets, sample_rate)
}

/// Smoothed root-mean-square energy envelope for structure analysis.
pub fn calculate_energy_envelope(mono: &Vec<i64>) -> (out: Vec<i64>)
    requires
        mono.len() <= 0x1fff_ffff,
        forall|k: int| 0 <= k < mono@.len() ==> -UNIT <= #[trigger] mono@[k] <= UNIT,
    ensures
        mono@.len() < ENVELOPE_FRAME ==> out@.len() == 0,
        mono@.len() >= ENVELOPE_FRAME ==> out@.len() == (mono@.len() - ENVELOPE_FRAME) as int
            / ENVELOPE_HOP as int,
        out@.len() <= 262_144,
        forall|k: int| 0 <= k < out@.len() ==> 0 <= #[trigger] out@[k] <= UNIT,
{
    if mono.len() < ENVELOPE_FRAME {
        return Vec::new();
    }
    let num_frames = (mono.len() - ENVELOPE_FRAME) / ENVELOPE_HOP;
    proof {
        vstd::arithmetic::div_mod::lemma_div_pos_is_pos(
            (mono@.len() - ENVELOPE_FRAME) as int,
            ENVELOPE_HOP as int,
        );
        vstd::arithmetic::div_mod::lemma_div_is_ordered(
            (mono@.len() - ENVELOPE_FRAME) as int,
            0x1fff_ffff,
            ENVELOPE_HOP as int,
        );
        vstd::arithmetic::div_mod::lemma_div_is_ordered_by_denominator(
            (mono@.len() - ENVELOPE_FRAME) as int,
            1,
            ENVELOPE_HOP as int,
        );
    }
    let mut energy: Vec<i64> = Vec::new();
    let mut i: usize = 0;
    while i < num_frames
        invariant
            i <= num_frames,
            num_frames * ENVELOPE_HOP + ENVELOPE_FRAME <= mono@.len(),
            num_frames <= 262_144,
            mono@.len() <= 0x1fff_ffff,
            forall|k: int| 0 <= k < mono@.len() ==> -UNIT <= #[trigger] mono@[k] <= UNIT,
            energy@.len() == i,
            forall|k: int| 0 <= k < i ==> 0 <= #[trigger] energy@[k] <= UNIT,
        decreases num_frames - i,
    {
        proof {
            assert((i as int) * (ENVELOPE_HOP as int) + ENVELOPE_FRAME <= (num_frames as int) * (
            ENVELOPE_HOP as int) + ENVELOPE_FRAME) by (nonlinear_arith)
                requires
                    i < num_frames,
            ;
            assert(0 <= (i as int) * (ENVELOPE_HOP as int)) by (nonlinear_arith)
                requires
                    0 <= i as int,
            ;
        }
        let start = i * ENVELOPE_HOP;
        let e = frame_rms(mono, start, ENVELOPE_FRAME);
        energy.push(e);
        i = i + 1;
    }
    smooth_centered(&energy, 5)
}

/// Round a time onto the nearest multiple of the beat length.
fn round_to_beat(t_ms: i64, beat_ms: i64) -> (r: i64)
    requires
        0 <= t_ms <= 0x40_0000_0000,
        2 <= beat_ms <= 6000,
    ensures
        0 <= r <= t_ms + beat_ms,
{
    proof {
        vstd::arithmetic::div_mod::lemma_div_pos_is_pos(
            2 * (t_ms as int) + beat_ms,
            2 * (beat_ms as int),
        );
        vstd::arithmetic::div_mod::lemma_fundamental_div_mod(
            2 * (t_ms as int) + beat_ms,
            2 * (beat_ms as int),
        );
        vstd::arithmetic::div_mod::lemma_mod_division_less_than_divisor(
            2 * (t_ms as int) + beat_ms,
            2 * (beat_ms as int),
        );
    }
    let ghost q_spec = (2 * (t_ms as int) + beat_ms) / (2 * (beat_ms as int));
    proof {
        assert(q_spec * (beat_ms as int) <= t_ms + beat_ms && 0 <= q_spec * (beat_ms as int))
            by (nonlinear_arith)
            requires
                2 * (beat_ms as int) * q_spec <= 2 * (t_ms as int) + beat_ms,
                2 <= beat_ms,
                0 <= q_spec,
                0 <= t_ms,
        ;
    }
    let q = (2 * t_ms + beat_ms) / (2 * beat_ms);
    q * beat_ms
}

/// Intro end and outro start of a track from its energy envelope.
///
/// The intro ends at the first strong energy rise within the opening
/// bars, the outro starts at the last strong fall before the end; both
/// snap to beat multiples, and the defaults are sixteen beats from each
/// end.  The outro never starts less than eight beats after the intro
/// ends, and both times are non-negative.
pub fn detect_section_boundaries(
    energy_envelope: &Vec<i64>,
    sample_rate: u32,
    bpm_centi: u32,
    duration_ms: i64,
) -> (r: (i64, i64))
    requires
        8000 <= sample_rate <= 192_000,
        1000 <= bpm_centi <= 3_000_000,
        0 <= duration_ms <= 0x1_0000_0000,
        energy_envelope.len() <= 262_144,
        forall|k: int| 0 <= k < energy_envelope@.len() ==> 0 <= #[trigger] energy_envelope@[k]
            <= UNIT,
    ensures
        r.0 >= 0,
        r.1 >= r.0 + 8 * (6_000_000int / (bpm_centi as int)),
        r.0 <= 0x41_0000_0000,
        r.1 <= 0x41_0001_0000,
        energy_envelope@.len() == 0 ==> ({
            let beat = 6_000_000int / (bpm_centi as int);
            &&& r.0 == 16 * beat
            &&& r.1 == (if duration_ms - 16 * beat >= 24 * beat {
                duration_ms - 16 * beat
            } else {
                24 * beat
            })
        }),
{
    proof {
        vstd::arithmetic::div_mod::lemma_div_pos_is_pos(6_000_000, bpm_centi as int);
        vstd::arithmetic::div_mod::lemma_div_is_ordered_by_denominator(6_000_000, 1000, bpm_centi as int);
        vstd::arithmetic::div_mod::lemma_div_is_ordered_by_denominator(
            6_000_000,
            bpm_centi as int,
            3_000_000,
        );
    }
    let beat_ms: i64 = 6_000_000 / (bpm_centi as i64);
    let min_section = 8 * beat_ms;
    let default_intro: i64 = 16 * beat_ms;
    let default_outro_raw: i64 = duration_ms - 16 * beat_ms;

    let n = energy_envelope.len();
    if n == 0 {
        let intro = default_intro;
        let outro = if default_outro_raw >= intro + min_section {
            default_outro_raw
        } else {
            intro + min_section
        };
        return (intro, outro);
    }
    let mut sum: i64 = 0;
    let mut i: usize = 0;
    while i < n
        invariant
            i <= n,
            n == energy_envelope@.len() <= 262_144,
            forall|k: int| 0 <= k < energy_envelope@.len() ==> 0 <= #[trigger] energy_envelope@[k]
                <= UNIT,
            0 <= sum <= (i as int) * UNIT,
        decreases n - i,
    {
        sum = sum + energy_envelope[i];
        proof {
            assert((i as int + 1) * (UNIT as int) == (i as int) * (UNIT as int) + UNIT)
                by (nonlinear_arith);
        }
        i = i + 1;
    }
    proof {
        vstd::arithmetic::div_mod::lemma_div_pos_is_pos(sum as int, n as int);
        vstd::arithmetic::div_mod::lemma_div_is_ordered(sum as int, (n as int) * UNIT, n as int);
        vstd::arithmetic::div_mod::lemma_div_multiples_vanish(UNIT as int, n as int);
        assert((n as int) * UNIT == UNIT * (n as int)) by (nonlinear_arith);
    }
    let mean_energy = sum / (n as i64);

    proof {
        crate::fixed::lemma_mul_bounds_abs(32 * beat_ms as int, sample_rate as int, 192_000, 192_000);
        assert(32 * (beat_ms as int) * (sample_rate as int) >= 0) by (nonlinear_arith)
            requires
                beat_ms >= 0,
                sample_rate >= 0,
        ;
        vstd::arithmetic::div_mod::lemma_div_pos_is_pos(
            32 * (beat_ms as int) * (sample_rate as int),
            1000,
        );
        vstd::arithmetic::div_mod::lemma_div_pos_is_pos(
            32 * (beat_ms as int) * (sample_rate as int) / 1000,
            ENVELOPE_HOP as int,
        );
    }
    let search_span: i64 = (32 * beat_ms * (sample_rate as i64)) / 1000 / (ENVELOPE_HOP as i64);
    let intro_search_end: usize = if search_span >= 0 && (search_span as usize) <= n {
        search_span as usize
    } else {
        n
    };

    let mut intro_end: i64 = default_intro;
    let mut i2: usize = 10;
    let mut found = false;
    while i2 < intro_search_end && !found
        invariant
            10 <= i2,
            i2 <= n + 10,
            intro_search_end <= n,
            n == energy_envelope@.len() <= 262_144,
            8000 <= sample_rate <= 192_000,
            2 <= beat_ms <= 6000,
            forall|k: int| 0 <= k < energy_envelope@.len() ==> 0 <= #[trigger] energy_envelope@[k]
                <= UNIT,
            intro_end >= 0,
            intro_end <= 0x41_0000_0000,
            0 <= mean_energy <= UNIT,
        decreases intro_search_end - i2, (if found { 0int } else { 1int }),
    {
        let current = energy_envelope[i2];
        let previous = energy_envelope[i2 - 5];
        if 2 * current > 3 * previous && 5 * current > 4 * mean_energy {
            proof {
                assert((i2 as int) * (ENVELOPE_HOP as int) * 1000 <= 262_144int * 2048 * 1000)
                    by (nonlinear_arith)
                    requires
                        i2 as int <= 262_144,
                ;
                assert(0 <= (i2 as int) * (ENVELOPE_HOP as int) * 1000) by (nonlinear_arith)
                    requires
                        0 <= i2 as int,
                ;
                vstd::arithmetic::div_mod::lemma_div_pos_is_pos(
                    (i2 as int) * (ENVELOPE_HOP as int) * 1000,
                    sample_rate as int,
                );
                vstd::arithmetic::div_mod::lemma_div_is_ordered(
                    (i2 as int) * (ENVELOPE_HOP as int) * 1000,
                    262_144int * 2048 * 1000,
                    sample_rate as int,
                );
                vstd::arithmetic::div_mod::lemma_div_is_ordered_by_denominator(
                    262_144int * 2048 * 1000,
                    8000,
                    sample_rate as int,
                );
            }
            let t_ms: i64 = ((i2 as i64) * (ENVELOPE_HOP as i64) * 1000) / (sample_rate as i64);
            intro_end = round_to_beat(t_ms, beat_ms);
            found = true;
        } else {
            i2 = i2 + 1;
        }
    }

    let outro_search_start: usize = if intro_search_end <= n {
        n - intro_search_end
    } else {
        0
    };
    let mut outro_start: i64 = if default_outro_raw >= 0 {
        default_outro_raw
    } else {
        0
    };
    let mut found_outro = false;
    let mut j: usize = if n >= 11 {
        n - 11
    } else {
        0
    };
    while j > outro_search_start && n >= 11 && !found_outro
        invariant
            j <= n,
            n == energy_envelope@.len() <= 262_144,
            8000 <= sample_rate <= 192_000,
            2 <= beat_ms <= 6000,
            forall|k: int| 0 <= k < energy_envelope@.len() ==> 0 <= #[trigger] energy_envelope@[k]
                <= UNIT,
            outro_start >= 0,
            outro_start <= 0x41_0000_0000,
            0 <= mean_energy <= UNIT,
            j < n,
        decreases j, (if found_outro { 0int } else { 1int }),
    {
        let current = energy_envelope[j];
        let next_idx = if j + 5 <= n - 1 {
            j + 5
        } else {
            n - 1
        };
        let next = energy_envelope[next_idx];
        if 10 * next < 7 * current && 5 * next < 3 * mean_energy {
            proof {
                assert((j as int) * (ENVELOPE_HOP as int) * 1000 <= 262_144int * 2048 * 1000)
                    by (nonlinear_arith)
                    requires
                        j as int <= 262_144,
                ;
                assert(0 <= (j as int) * (ENVELOPE_HOP as int) * 1000) by (nonlinear_arith)
                    requires
                        0 <= j as int,
                ;
                vstd::arithmetic::div_mod::lemma_div_pos_is_pos(
                    (j as int) * (ENVELOPE_HOP as int) * 1000,
                    sample_rate as int,
                );
                vstd::arithmetic::div_mod::lemma_div_is_ordered(
                    (j as int) * (ENVELOPE_HOP as int) * 1000,
                    262_144int * 2048 * 1000,
                    sample_rate as int,
                );
                vstd::arithmetic::div_mod::lemma_div_is_ordered_by_denominator(
                    262_144int * 2048 * 1000,
                    8000,
                    sample_rate as int,
                );
            }
            let t_ms: i64 = ((j as i64) * (ENVELOPE_HOP as i64) * 1000) / (sample_rate as i64);
            outro_start = round_to_beat(t_ms, beat_ms);
            found_outro = true;
        } else {
            j = j - 1;
        }
    }

    if outro_start - intro_end < min_section {
        intro_end = default_intro;
        outro_start = if default_outro_raw >= 0 {
            default_outro_raw
        } else {
            0
        };
    }
    let lo = intro_end;
    let hi = if outro_start >= lo + min_section {
        outro_start
    } else {
        lo + min_section
    };
    (lo, hi)
}

/// Split a track into intro, main and outro along its energy envelope,
/// count the beats of each section, and propose hot cues at the section
/// edges (plus the midpoint of long tracks).  The hot cues ascend.
pub fn detect_structure(
    mono: &Vec<i64>,
    sample_rate: u32,
    bpm_centi: u32,
    beats_ms: Vec<i64>,
) -> (s: TrackStructure)
    requires
        8000 <= sample_rate <= 192_000,
        1000 <= bpm_centi <= 3_000_000,
        mono.len() <= 0x1fff_ffff,
        forall|k: int| 0 <= k < mono@.len() ==> -UNIT <= #[trigger] mono@[k] <= UNIT,
    ensures
        s.bpm_centi == bpm_centi,
        s.intro.start_ms == 0,
        s.intro.end_ms == s.main.start_ms,
        s.main.end_ms == s.outro.start_ms,
        s.intro.end_ms >= 0,
        s.main.end_ms >= s.main.start_ms,
        s.main.end_ms >= s.main.start_ms + 8 * (6_000_000int / (bpm_centi as int)),
        s.outro.end_ms == ({
            let duration = (mono@.len() as int) * 1000 / (sample_rate as int);
            if duration >= s.outro.start_ms {
                duration
            } else {
                s.outro.start_ms as int
            }
        }),
        s.intro.beats == spec_beats_in(
            s.intro.end_ms as int,
            6_000_000int / (bpm_centi as int),
        ),
        s.main.beats == spec_beats_in(
            s.main.end_ms - s.main.start_ms,
            6_000_000int / (bpm_centi as int),
        ),
        s.outro.beats == spec_beats_in(
            s.outro.end_ms - s.outro.start_ms,
            6_000_000int / (bpm_centi as int),
        ),
        s.intro.beats >= 0 && s.main.beats >= 0 && s.outro.beats >= 0,
        s.hot_cues@ == (if (mono@.len() as int) * 1000 / (sample_rate as int) > 120_000 {
            seq![
                0i64,
                s.intro.end_ms,
                (s.intro.end_ms + (s.outro.start_ms - s.intro.end_ms) / 2) as i64,
                s.outro.start_ms,
            ]
        } else {
            seq![0i64, s.intro.end_ms, s.outro.start_ms]
        }),
        forall|k: int|
            0 <= k && k + 1 < s.hot_cues@.len() ==> #[trigger] s.hot_cues@[k] <= s.hot_cues@[k + 1],
        s.beats == beats_ms,
{
    proof {
        assert((mono@.len() as int) * 1000 <= 0x1fff_ffffi64 * 1000) by (nonlinear_arith)
            requires
                mono@.len() <= 0x1fff_ffff,
        ;
        vstd::arithmetic::div_mod::lemma_div_pos_is_pos((mono@.len() as int) * 1000, sample_rate as int);
        vstd::arithmetic::div_mod::lemma_div_is_ordered(
            (mono@.len() as int) * 1000,
            0x1fff_ffffi64 * 1000,
            sample_rate as int,
        );
        vstd::arithmetic::div_mod::lemma_div_is_ordered_by_denominator(
            0x1fff_ffffi64 * 1000,
            8000,
            sample_rate as int,
        );
        vstd::arithmetic::div_mod::lemma_div_pos_is_pos(6_000_000, bpm_centi as int);
        vstd::arithmetic::div_mod::lemma_div_is_ordered_by_denominator(6_000_000, 1000, bpm_centi as int);
        vstd::arithmetic::div_mod::lemma_div_is_ordered_by_denominator(
            6_000_000,
            bpm_centi as int,
            3_000_000,
        );
    }
    let duration_ms: i64 = ((mono.len() as i64) * 1000) / (sample_rate as i64);
    let beat_ms: i64 = 6_000_000 / (bpm_centi as i64);
    let envelope = calculate_energy_envelope(mono);
    let (intro_end, outro_start) = detect_section_boundaries(
        &envelope,
        sample_rate,
        bpm_centi,
        if duration_ms <= 0x1_0000_0000 {
            duration_ms
        } else {
            0x1_0000_0000
        },
    );
    let outro_end: i64 = if duration_ms >= outro_start {
        duration_ms
    } else {
        outro_start
    };
    let intro_beats = beats_in(intro_end, beat_ms);
    let main_beats = beats_in(outro_start - intro_end, beat_ms);
    let outro_beats = beats_in(outro_end - outro_start, beat_ms);
    let mut hot_cues: Vec<i64> = Vec::new();
    hot_cues.push(0);
    hot_cues.push(intro_end);
    if duration_ms > 120_000 {
        let mid = intro_end + (outro_start - intro_end) / 2;
        proof {
            vstd::arithmetic::div_mod::lemma_div_pos_is_pos(
                (outro_start - intro_end) as int,
                2,
            );
            crate::fixed::lemma_tdiv_within((outro_start - intro_end) as int, 2);
        }
        hot_cues.push(mid);
    }
    hot_cues.push(outro_start);
    proof {
        if duration_ms > 120_000 {
            assert(hot_cues@ =~= seq![
                0i64,
                intro_end,
                (intro_end + (outro_start - intro_end) / 2) as i64,
                outro_start,
            ]);
        } else {
            assert(hot_cues@ =~= seq![0i64, intro_end, outro_start]);
        }
    }
    TrackStructure {
        bpm_centi,
        intro: TrackSection { start_ms: 0, end_ms: intro_end, beats: intro_beats },
        main: TrackSection { start_ms: intro_end, end_ms: outro_start, beats: main_beats },
        outro: TrackSection { start_ms: outro_start, end_ms: outro_end, beats: outro_beats },
        hot_cues,
        beats: beats_ms,
    }
}

/// How many beats fit a span: the span over the beat length, rounded
/// to the nearest whole beat; an empty or negative span holds none.
pub open spec fn spec_beats_in(span: int, beat: int) -> int {
    if span <= 0 {
        0
    } else {
        (2 * span + beat) / (2 * beat)
    }
}

/// How many beats fit a span, rounded to the nearest whole beat and
/// never negative.
fn beats_in(span_ms: i64, beat_ms: i64) -> (n: i64)
    requires
        2 <= beat_ms <= 6000,
        -0x42_0000_0000 <= span_ms <= 0x42_0000_0000,
    ensures
        n == spec_beats_in(span_ms as int, beat_ms as int),
        n >= 0,
{
    if span_ms <= 0 {
        return 0;
    }
    proof {
        vstd::arithmetic::div_mod::lemma_div_pos_is_pos(
            2 * (span_ms as int) + beat_ms,
            2 * (beat_ms as int),
        );
    }
    (2 * span_ms + beat_ms) / (2 * beat_ms)
}

/// Sum of the first `n` channels of one resampled target frame.
pub open spec fn sum_resampled(
    samples: Seq<i64>,
    source_channels: int,
    source_rate: int,
    target_rate: int,
    f: int,
    n: int,
) -> int
    decreases n,
{
    if n <= 0 {
        0
    } else {
        sum_resampled(samples, source_channels, source_rate, target_rate, f, n - 1) + resampled_at(
            samples,
            source_channels,
            source_rate,
            target_rate,
            f,
            n - 1,
        )
    }
}

} // verus!
