//! Three-band EQ with kill switches.
//!
//! The band split follows DJ-mixer practice: the low band is two
//! Butterworth low-pass biquads at 250 Hz in series, the mid band is two
//! high-pass biquads at 250 Hz followed by two low-pass biquads at 5 kHz,
//! and the high band is two high-pass biquads at 5 kHz in series.  Each
//! biquad is Direct Form I with per-channel delay state kept across
//! chunks.  Filter coefficients are fixed-point with `COEFF_ONE` as 1.0.
//!
//! The processing contract: with no band cut the buffer passes through
//! untouched; with every band cut the chunk is silenced; otherwise the
//! output is the sum of the bands whose cut switch is off.

use vstd::prelude::*;

use crate::fixed::{tdiv, tdiv_i64, lemma_mul_bounds_abs};

verus! {

/// 1.0 in the fixed-point format of filter coefficients (two raised to 30).
pub const COEFF_ONE: i64 = 1_073_741_824;

/// Headroom bound for band samples and filter state: two full-scale units.
/// Filter output is saturated here, which keeps every later stage exact.
pub const BAND_LIMIT: i64 = 2_000_000;

/// Biquad coefficients (Direct Form I), fixed-point with `COEFF_ONE` = 1.0.
#[derive(Clone, Copy)]
pub struct BiquadCoeffs {
    pub b0: i64,
    pub b1: i64,
    pub b2: i64,
    pub a1: i64,
    pub a2: i64,
}

/// Delay state of one biquad for one channel.
#[derive(Clone, Copy)]
pub struct BiquadFilterChannel {
    pub x1: i64,
    pub x2: i64,
    pub y1: i64,
    pub y2: i64,
}

/// Stereo biquad: independent delay state per channel.
#[derive(Clone, Copy)]
pub struct BiquadFilter {
    pub left: BiquadFilterChannel,
    pub right: BiquadFilterChannel,
}

/// Kill-switch state, one flag per band.
#[derive(Clone, Copy)]
pub struct EqCutState {
    pub low: bool,
    pub mid: bool,
    pub high: bool,
}

/// Band selector.
#[derive(Clone, Copy, Debug)]
pub enum EqBand {
    Low,
    Mid,
    High,
}

pub open spec fn wf_coeffs(c: BiquadCoeffs) -> bool {
    &&& -0x8000_0000 <= c.b0 <= 0x8000_0000
    &&& -0x8000_0000 <= c.b1 <= 0x8000_0000
    &&& -0x8000_0000 <= c.b2 <= 0x8000_0000
    &&& -0x8000_0000 <= c.a1 <= 0x8000_0000
    &&& -0x8000_0000 <= c.a2 <= 0x8000_0000
}

pub open spec fn wf_chan(ch: BiquadFilterChannel) -> bool {
    &&& -BAND_LIMIT <= ch.x1 <= BAND_LIMIT
    &&& -BAND_LIMIT <= ch.x2 <= BAND_LIMIT
    &&& -BAND_LIMIT <= ch.y1 <= BAND_LIMIT
    &&& -BAND_LIMIT <= ch.y2 <= BAND_LIMIT
}

pub open spec fn wf_filter(f: BiquadFilter) -> bool {
    wf_chan(f.left) && wf_chan(f.right)
}

pub open spec fn spec_clamp_band(s: int) -> int {
    if s < -BAND_LIMIT {
        -BAND_LIMIT as int
    } else if s > BAND_LIMIT {
        BAND_LIMIT as int
    } else {
        s
    }
}

/// The saturated Direct Form I output for one input sample.
pub open spec fn step_y(c: BiquadCoeffs, st: BiquadFilterChannel, x: int) -> int {
    spec_clamp_band(
        tdiv(
            c.b0 * x + c.b1 * st.x1 + c.b2 * st.x2 - c.a1 * st.y1 - c.a2 * st.y2,
            COEFF_ONE as int,
        ),
    )
}

/// Delay-line evolution for one input sample.
pub open spec fn step_chan(c: BiquadCoeffs, st: BiquadFilterChannel, x: int) -> BiquadFilterChannel {
    BiquadFilterChannel {
        x1: x as i64,
        x2: st.x1,
        y1: step_y(c, st, x) as i64,
        y2: st.y1,
    }
}

/// Both channels advanced by one frame.
pub open spec fn step_stereo(c: BiquadCoeffs, st: BiquadFilter, xl: int, xr: int) -> BiquadFilter {
    BiquadFilter { left: step_chan(c, st.left, xl), right: step_chan(c, st.right, xr) }
}

/// Filter state after running one biquad over the interleaved frames
/// `i..frames` of `src`.
pub open spec fn pass_state(
    c: BiquadCoeffs,
    st: BiquadFilter,
    src: Seq<i64>,
    i: int,
    frames: int,
) -> BiquadFilter
    decreases frames - i,
{
    if i < 0 || i >= frames {
        st
    } else {
        pass_state(
            c,
            step_stereo(c, st, src[2 * i] as int, src[2 * i + 1] as int),
            src,
            i + 1,
            frames,
        )
    }
}

/// Interleaved output of running one biquad over frames `i..frames` of `src`.
pub open spec fn pass_out(
    c: BiquadCoeffs,
    st: BiquadFilter,
    src: Seq<i64>,
    i: int,
    frames: int,
) -> Seq<i64>
    decreases frames - i,
{
    if i < 0 || i >= frames {
        Seq::empty()
    } else {
        seq![
            step_y(c, st.left, src[2 * i] as int) as i64,
            step_y(c, st.right, src[2 * i + 1] as int) as i64,
        ] + pass_out(
            c,
            step_stereo(c, st, src[2 * i] as int, src[2 * i + 1] as int),
            src,
            i + 1,
            frames,
        )
    }
}

pub proof fn lemma_pass_out_len(c: BiquadCoeffs, st: BiquadFilter, src: Seq<i64>, i: int, frames: int)
    requires
        0 <= i <= frames,
    ensures
        pass_out(c, st, src, i, frames).len() == 2 * (frames - i),
    decreases frames - i,
{
    if i < frames {
        lemma_pass_out_len(
            c,
            step_stereo(c, st, src[2 * i] as int, src[2 * i + 1] as int),
            src,
            i + 1,
            frames,
        );
    }
}

/// Every sample a pass emits is saturated into the band headroom.
pub proof fn lemma_pass_out_bounded(
    c: BiquadCoeffs,
    st: BiquadFilter,
    src: Seq<i64>,
    i: int,
    frames: int,
)
    requires
        0 <= i <= frames,
    ensures
        forall|k: int|
            0 <= k < pass_out(c, st, src, i, frames).len() ==> -BAND_LIMIT <= #[trigger] pass_out(
                c,
                st,
                src,
                i,
                frames,
            )[k] <= BAND_LIMIT,
    decreases frames - i,
{
    if i < frames {
        let stepped = step_stereo(c, st, src[2 * i] as int, src[2 * i + 1] as int);
        lemma_pass_out_bounded(c, stepped, src, i + 1, frames);
        let rest = pass_out(c, stepped, src, i + 1, frames);
        let full = pass_out(c, st, src, i, frames);
        assert forall|k: int| 0 <= k < full.len() implies -BAND_LIMIT <= #[trigger] full[k]
            <= BAND_LIMIT by {
            if k >= 2 {
                assert(full[k] == rest[k - 2]);
            }
        }
    }
}

impl BiquadFilterChannel {
    pub fn zero() -> (r: BiquadFilterChannel)
        ensures
            r == (BiquadFilterChannel { x1: 0i64, x2: 0i64, y1: 0i64, y2: 0i64 }),
            wf_chan(r),
    {
        BiquadFilterChannel { x1: 0, x2: 0, y1: 0, y2: 0 }
    }

    /// Process one sample through the biquad (Direct Form I), saturating
    /// the output into the band headroom, and shift the delay line.
    pub fn process(&mut self, input: i64, c: &BiquadCoeffs) -> (y: i64)
        requires
            wf_coeffs(*c),
            wf_chan(*old(self)),
            -BAND_LIMIT <= input <= BAND_LIMIT,
        ensures
            y == step_y(*c, *old(self), input as int),
            *final(self) == step_chan(*c, *old(self), input as int),
            wf_chan(*final(self)),
    {
        proof {
            lemma_mul_bounds_abs(c.b0 as int, input as int, 0x8000_0000, BAND_LIMIT as int);
            lemma_mul_bounds_abs(c.b1 as int, self.x1 as int, 0x8000_0000, BAND_LIMIT as int);
            lemma_mul_bounds_abs(c.b2 as int, self.x2 as int, 0x8000_0000, BAND_LIMIT as int);
            lemma_mul_bounds_abs(c.a1 as int, self.y1 as int, 0x8000_0000, BAND_LIMIT as int);
            lemma_mul_bounds_abs(c.a2 as int, self.y2 as int, 0x8000_0000, BAND_LIMIT as int);
        }
        let acc: i64 = c.b0 * input + c.b1 * self.x1 + c.b2 * self.x2 - c.a1 * self.y1
            - c.a2 * self.y2;
        let y = clamp_band(tdiv_i64(acc, COEFF_ONE));
        self.x2 = self.x1;
        self.x1 = input;
        self.y2 = self.y1;
        self.y1 = y;
        y
    }
}

/// Saturate a sample into the band headroom.
pub fn clamp_band(s: i64) -> (r: i64)
    ensures
        r == spec_clamp_band(s as int),
        -BAND_LIMIT <= r <= BAND_LIMIT,
{
    if s < -BAND_LIMIT {
        -BAND_LIMIT
    } else if s > BAND_LIMIT {
        BAND_LIMIT
    } else {
        s
    }
}

impl BiquadFilter {
    pub fn zero() -> (r: BiquadFilter)
        ensures
            r.left == (BiquadFilterChannel { x1: 0i64, x2: 0i64, y1: 0i64, y2: 0i64 }),
            r.right == (BiquadFilterChannel { x1: 0i64, x2: 0i64, y1: 0i64, y2: 0i64 }),
            wf_filter(r),
    {
        BiquadFilter { left: BiquadFilterChannel::zero(), right: BiquadFilterChannel::zero() }
    }

    /// Run this biquad over the first `frames` interleaved stereo frames
    /// of `src`, returning the filtered frames.
    pub fn process_interleaved(&mut self, src: &Vec<i64>, frames: usize, c: &BiquadCoeffs) -> (out:
        Vec<i64>)
        requires
            wf_coeffs(*c),
            wf_filter(*old(self)),
            2 * frames <= src.len(),
            forall|k: int| 0 <= k < 2 * frames ==> -BAND_LIMIT <= #[trigger] src@[k] <= BAND_LIMIT,
        ensures
            out@ == pass_out(*c, *old(self), src@, 0, frames as int),
            *final(self) == pass_state(*c, *old(self), src@, 0, frames as int),
            wf_filter(*final(self)),
            out@.len() == 2 * frames,
            forall|k: int| 0 <= k < out@.len() ==> -BAND_LIMIT <= #[trigger] out@[k] <= BAND_LIMIT,
    {
        let ghost st0 = *self;
        let ghost s = src@;
        let ghost f = frames as int;
        let mut out: Vec<i64> = Vec::new();
        let mut i: usize = 0;
        proof {
            lemma_pass_out_len(*c, st0, s, 0, f);
        }
        while i < frames
            invariant
                i <= frames,
                2 * frames <= src.len(),
                s == src@,
                f == frames as int,
                wf_coeffs(*c),
                wf_filter(*self),
                forall|k: int| 0 <= k < 2 * frames ==> -BAND_LIMIT <= #[trigger] src@[k]
                    <= BAND_LIMIT,
                out@.len() == 2 * i,
                pass_out(*c, st0, s, 0, f) == out@ + pass_out(*c, *self, s, i as int, f),
                pass_state(*c, st0, s, 0, f) == pass_state(*c, *self, s, i as int, f),
                forall|k: int| 0 <= k < out@.len() ==> -BAND_LIMIT <= #[trigger] out@[k]
                    <= BAND_LIMIT,
            decreases frames - i,
        {
            let ghost st_prev = *self;
            let ghost out_prev = out@;
            let xl = src[2 * i];
            let xr = src[2 * i + 1];
            let yl = self.left.process(xl, c);
            let yr = self.right.process(xr, c);
            out.push(yl);
            out.push(yr);
            proof {
                let ii = i as int;
                assert(step_stereo(*c, st_prev, s[2 * ii] as int, s[2 * ii + 1] as int) == *self);
                assert(pass_out(*c, st_prev, s, ii, f) == seq![yl, yr] + pass_out(
                    *c,
                    *self,
                    s,
                    ii + 1,
                    f,
                ));
                assert(out@ == out_prev + seq![yl, yr]);
                assert((out_prev + seq![yl, yr]) + pass_out(*c, *self, s, ii + 1, f) =~= out_prev
                    + (seq![yl, yr] + pass_out(*c, *self, s, ii + 1, f)));
                assert(pass_state(*c, st_prev, s, ii, f) == pass_state(*c, *self, s, ii + 1, f));
            }
            i = i + 1;
        }
        proof {
            assert(pass_out(*c, *self, s, f, f) =~= Seq::<i64>::empty());
            assert(out@ + Seq::<i64>::empty() =~= out@);
        }
        out
    }
}

/// Low-pass Butterworth biquad at 250 Hz for a 44.1 kHz stream.
pub open spec fn spec_lp250() -> BiquadCoeffs {
    BiquadCoeffs { b0: 332_167i64, b1: 664_333i64, b2: 332_167i64, a1: -2_093_407_257i64, a2: 1_020_994_099i64 }
}

/// High-pass Butterworth biquad at 250 Hz for a 44.1 kHz stream.
pub open spec fn spec_hp250() -> BiquadCoeffs {
    BiquadCoeffs {
        b0: 1_047_035_795i64,
        b1: -2_094_071_590i64,
        b2: 1_047_035_795i64,
        a1: -2_093_407_257i64,
        a2: 1_020_994_099i64,
    }
}

/// Low-pass Butterworth biquad at 5 kHz for a 44.1 kHz stream.
pub open spec fn spec_lp5k() -> BiquadCoeffs {
    BiquadCoeffs {
        b0: 89_292_230i64,
        b1: 178_584_461i64,
        b2: 89_292_230i64,
        a1: -1_111_506_623i64,
        a2: 394_933_721i64,
    }
}

/// High-pass Butterworth biquad at 5 kHz for a 44.1 kHz stream.
pub open spec fn spec_hp5k() -> BiquadCoeffs {
    BiquadCoeffs {
        b0: 645_045_542i64,
        b1: -1_290_091_084i64,
        b2: 645_045_542i64,
        a1: -1_111_506_623i64,
        a2: 394_933_721i64,
    }
}

pub fn lp250() -> (c: BiquadCoeffs)
    ensures
        c == spec_lp250(),
        wf_coeffs(c),
{
    BiquadCoeffs { b0: 332_167, b1: 664_333, b2: 332_167, a1: -2_093_407_257, a2: 1_020_994_099 }
}

pub fn hp250() -> (c: BiquadCoeffs)
    ensures
        c == spec_hp250(),
        wf_coeffs(c),
{
    BiquadCoeffs {
        b0: 1_047_035_795,
        b1: -2_094_071_590,
        b2: 1_047_035_795,
        a1: -2_093_407_257,
        a2: 1_020_994_099,
    }
}

pub fn lp5k() -> (c: BiquadCoeffs)
    ensures
        c == spec_lp5k(),
        wf_coeffs(c),
{
    BiquadCoeffs { b0: 89_292_230, b1: 178_584_461, b2: 89_292_230, a1: -1_111_506_623, a2: 394_933_721 }
}

pub fn hp5k() -> (c: BiquadCoeffs)
    ensures
        c == spec_hp5k(),
        wf_coeffs(c),
{
    BiquadCoeffs {
        b0: 645_045_542,
        b1: -1_290_091_084,
        b2: 645_045_542,
        a1: -1_111_506_623,
        a2: 394_933_721,
    }
}

/// Three-band EQ with kill switches.  The band filters keep their delay
/// state across chunks.
pub struct EqProcessor {
    pub low_filter1: BiquadFilter,
    pub low_filter2: BiquadFilter,
    pub mid_filter_low1: BiquadFilter,
    pub mid_filter_low2: BiquadFilter,
    pub mid_filter_high1: BiquadFilter,
    pub mid_filter_high2: BiquadFilter,
    pub high_filter1: BiquadFilter,
    pub high_filter2: BiquadFilter,
    pub cut_state: EqCutState,
}

pub open spec fn wf_eq(p: EqProcessor) -> bool {
    &&& wf_filter(p.low_filter1)
    &&& wf_filter(p.low_filter2)
    &&& wf_filter(p.mid_filter_low1)
    &&& wf_filter(p.mid_filter_low2)
    &&& wf_filter(p.mid_filter_high1)
    &&& wf_filter(p.mid_filter_high2)
    &&& wf_filter(p.high_filter1)
    &&& wf_filter(p.high_filter2)
}

/// The low band: two low-pass biquads at 250 Hz in series.
pub open spec fn low_band(p: EqProcessor, input: Seq<i64>, frames: int) -> Seq<i64> {
    pass_out(
        spec_lp250(),
        p.low_filter2,
        pass_out(spec_lp250(), p.low_filter1, input, 0, frames),
        0,
        frames,
    )
}

/// The mid band: two high-pass biquads at 250 Hz, then two low-pass
/// biquads at 5 kHz, all in series.
pub open spec fn mid_band(p: EqProcessor, input: Seq<i64>, frames: int) -> Seq<i64> {
    let h1 = pass_out(spec_hp250(), p.mid_filter_low1, input, 0, frames);
    let h2 = pass_out(spec_hp250(), p.mid_filter_low2, h1, 0, frames);
    let l1 = pass_out(spec_lp5k(), p.mid_filter_high1, h2, 0, frames);
    pass_out(spec_lp5k(), p.mid_filter_high2, l1, 0, frames)
}

/// The high band: two high-pass biquads at 5 kHz in series.
pub open spec fn high_band(p: EqProcessor, input: Seq<i64>, frames: int) -> Seq<i64> {
    pass_out(
        spec_hp5k(),
        p.high_filter2,
        pass_out(spec_hp5k(), p.high_filter1, input, 0, frames),
        0,
        frames,
    )
}

/// One output sample of the EQ in the general case: the sum of the bands
/// whose cut switch is off.
pub open spec fn eq_mix_at(p: EqProcessor, input: Seq<i64>, frames: int, k: int) -> int {
    (if p.cut_state.low {
        0int
    } else {
        low_band(p, input, frames)[k] as int
    }) + (if p.cut_state.mid {
        0int
    } else {
        mid_band(p, input, frames)[k] as int
    }) + (if p.cut_state.high {
        0int
    } else {
        high_band(p, input, frames)[k] as int
    })
}

/// All filter delay lines advanced over one chunk.
pub open spec fn eq_advance(p: EqProcessor, input: Seq<i64>, frames: int) -> EqProcessor {
    let low1 = pass_out(spec_lp250(), p.low_filter1, input, 0, frames);
    let mh1 = pass_out(spec_hp250(), p.mid_filter_low1, input, 0, frames);
    let mh2 = pass_out(spec_hp250(), p.mid_filter_low2, mh1, 0, frames);
    let ml1 = pass_out(spec_lp5k(), p.mid_filter_high1, mh2, 0, frames);
    let hi1 = pass_out(spec_hp5k(), p.high_filter1, input, 0, frames);
    EqProcessor {
        low_filter1: pass_state(spec_lp250(), p.low_filter1, input, 0, frames),
        low_filter2: pass_state(spec_lp250(), p.low_filter2, low1, 0, frames),
        mid_filter_low1: pass_state(spec_hp250(), p.mid_filter_low1, input, 0, frames),
        mid_filter_low2: pass_state(spec_hp250(), p.mid_filter_low2, mh1, 0, frames),
        mid_filter_high1: pass_state(spec_lp5k(), p.mid_filter_high1, mh2, 0, frames),
        mid_filter_high2: pass_state(spec_lp5k(), p.mid_filter_high2, ml1, 0, frames),
        high_filter1: pass_state(spec_hp5k(), p.high_filter1, input, 0, frames),
        high_filter2: pass_state(spec_hp5k(), p.high_filter2, hi1, 0, frames),
        cut_state: p.cut_state,
    }
}

/// The buffer after one EQ call: untouched on bypass, silenced on a full
/// kill, otherwise the surviving bands summed; the tail beyond the chunk
/// is never touched.
pub open spec fn eq_result(p: EqProcessor, input: Seq<i64>, frames: int) -> Seq<i64> {
    if !p.cut_state.low && !p.cut_state.mid && !p.cut_state.high {
        input
    } else if p.cut_state.low && p.cut_state.mid && p.cut_state.high {
        Seq::new(input.len(), |k: int| if k < 2 * frames {
            0i64
        } else {
            input[k]
        })
    } else {
        Seq::new(input.len(), |k: int| if k < 2 * frames {
            eq_mix_at(p, input, frames, k) as i64
        } else {
            input[k]
        })
    }
}

/// The filter state after one EQ call: untouched unless the band cascade
/// actually ran.
pub open spec fn eq_state_after(p: EqProcessor, input: Seq<i64>, frames: int) -> EqProcessor {
    if (!p.cut_state.low && !p.cut_state.mid && !p.cut_state.high) || (p.cut_state.low
        && p.cut_state.mid && p.cut_state.high) {
        p
    } else {
        eq_advance(p, input, frames)
    }
}

impl EqProcessor {
    pub fn new() -> (p: EqProcessor)
        ensures
            wf_eq(p),
            !p.cut_state.low,
            !p.cut_state.mid,
            !p.cut_state.high,
            p.low_filter2 == p.low_filter1,
            p.mid_filter_low1 == p.low_filter1,
            p.mid_filter_low2 == p.low_filter1,
            p.mid_filter_high1 == p.low_filter1,
            p.mid_filter_high2 == p.low_filter1,
            p.high_filter1 == p.low_filter1,
            p.high_filter2 == p.low_filter1,
            p.low_filter1.left == (BiquadFilterChannel { x1: 0i64, x2: 0i64, y1: 0i64, y2: 0i64 }),
            p.low_filter1.right == (BiquadFilterChannel { x1: 0i64, x2: 0i64, y1: 0i64, y2: 0i64 }),
    {
        EqProcessor {
            low_filter1: BiquadFilter::zero(),
            low_filter2: BiquadFilter::zero(),
            mid_filter_low1: BiquadFilter::zero(),
            mid_filter_low2: BiquadFilter::zero(),
            mid_filter_high1: BiquadFilter::zero(),
            mid_filter_high2: BiquadFilter::zero(),
            high_filter1: BiquadFilter::zero(),
            high_filter2: BiquadFilter::zero(),
            cut_state: EqCutState { low: false, mid: false, high: false },
        }
    }

    /// Set the kill switch of one band; the filter state is untouched.
    pub fn set_cut(&mut self, band: EqBand, enabled: bool)
        ensures
            final(self).cut_state == (match band {
                EqBand::Low => EqCutState {
                    low: enabled,
                    mid: old(self).cut_state.mid,
                    high: old(self).cut_state.high,
                },
                EqBand::Mid => EqCutState {
                    low: old(self).cut_state.low,
                    mid: enabled,
                    high: old(self).cut_state.high,
                },
                EqBand::High => EqCutState {
                    low: old(self).cut_state.low,
                    mid: old(self).cut_state.mid,
                    high: enabled,
                },
            }),
            same_filters(*old(self), *final(self)),
    {
        match band {
            EqBand::Low => self.cut_state.low = enabled,
            EqBand::Mid => self.cut_state.mid = enabled,
            EqBand::High => self.cut_state.high = enabled,
        }
    }

    pub fn get_cut_state(&self) -> (s: EqCutState)
        ensures
            s == self.cut_state,
    {
        self.cut_state
    }

    /// Apply the three-band EQ with kill switches to the first `frames`
    /// stereo frames of `buffer`, in place.
    ///
    /// With no cut the buffer and the filter state are untouched; with
    /// every band cut the chunk is zeroed; otherwise each output sample
    /// is the sum of the surviving bands and the delay lines advance.
    #[verifier::rlimit(80)]
    pub fn process(&mut self, buffer: &mut Vec<i64>, frames: usize)
        requires
            wf_eq(*old(self)),
            frames <= 0x1000_0000,
            2 * frames <= old(buffer).len(),
            forall|k: int|
                0 <= k < 2 * frames ==> -BAND_LIMIT <= #[trigger] old(buffer)@[k] <= BAND_LIMIT,
        ensures
            wf_eq(*final(self)),
            final(self).cut_state == old(self).cut_state,
            final(buffer)@.len() == old(buffer)@.len(),
            forall|k: int|
                2 * frames <= k < final(buffer)@.len() ==> final(buffer)@[k] == old(buffer)@[k],
            (!old(self).cut_state.low && !old(self).cut_state.mid && !old(self).cut_state.high)
                ==> final(buffer)@ == old(buffer)@ && *final(self) == *old(self),
            (old(self).cut_state.low && old(self).cut_state.mid && old(self).cut_state.high) ==> (
            forall|k: int| 0 <= k < 2 * frames ==> final(buffer)@[k] == 0) && *final(self) == *old(
                self,
            ),
            !(!old(self).cut_state.low && !old(self).cut_state.mid && !old(self).cut_state.high)
                && !(old(self).cut_state.low && old(self).cut_state.mid && old(
                self,
            ).cut_state.high) ==> (forall|k: int|
                0 <= k < 2 * frames ==> final(buffer)@[k] == eq_mix_at(
                    *old(self),
                    old(buffer)@,
                    frames as int,
                    k,
                )) && *final(self) == eq_advance(*old(self), old(buffer)@, frames as int),
            forall|k: int|
                0 <= k < 2 * frames ==> -6_000_000 <= #[trigger] final(buffer)@[k] <= 6_000_000,
            final(buffer)@ == eq_result(*old(self), old(buffer)@, frames as int),
            *final(self) == eq_state_after(*old(self), old(buffer)@, frames as int),
    {
        let low_cut = self.cut_state.low;
        let mid_cut = self.cut_state.mid;
        let high_cut = self.cut_state.high;

        if !low_cut && !mid_cut && !high_cut {
            proof {
                assert(buffer@ =~= eq_result(*self, buffer@, frames as int));
            }
            return ;
        }

        if low_cut && mid_cut && high_cut {
            let mut k: usize = 0;
            while k < 2 * frames
                invariant
                    k <= 2 * frames,
                    frames <= 0x1000_0000,
                    2 * frames <= buffer@.len(),
                    buffer@.len() == old(buffer)@.len(),
                    forall|j: int| 0 <= j < k ==> buffer@[j] == 0,
                    forall|j: int| k <= j < buffer@.len() ==> buffer@[j] == old(buffer)@[j],
                decreases 2 * frames - k,
            {
                buffer.set(k, 0);
                k = k + 1;
            }
            proof {
                assert(buffer@ =~= eq_result(*self, old(buffer)@, frames as int));
            }
            return ;
        }

        let ghost p0 = *self;
        let ghost input0 = buffer@;
        let ghost f = frames as int;

        let c_lp250 = lp250();
        let c_hp250 = hp250();
        let c_lp5k = lp5k();
        let c_hp5k = hp5k();

        let low1 = self.low_filter1.process_interleaved(buffer, frames, &c_lp250);
        let low = self.low_filter2.process_interleaved(&low1, frames, &c_lp250);

        let mid1 = self.mid_filter_low1.process_interleaved(buffer, frames, &c_hp250);
        let mid2 = self.mid_filter_low2.process_interleaved(&mid1, frames, &c_hp250);
        let mid3 = self.mid_filter_high1.process_interleaved(&mid2, frames, &c_lp5k);
        let mid = self.mid_filter_high2.process_interleaved(&mid3, frames, &c_lp5k);

        let high1 = self.high_filter1.process_interleaved(buffer, frames, &c_hp5k);
        let high = self.high_filter2.process_interleaved(&high1, frames, &c_hp5k);

        proof {
            assert(low@ == low_band(p0, input0, f));
            assert(mid@ == mid_band(p0, input0, f));
            assert(high@ == high_band(p0, input0, f));
            assert(*self == eq_advance(p0, input0, f));
        }

        let mut k: usize = 0;
        while k < 2 * frames
            invariant
                k <= 2 * frames,
                frames <= 0x1000_0000,
                2 * frames <= buffer@.len(),
                buffer@.len() == input0.len(),
                low@ == low_band(p0, input0, f),
                mid@ == mid_band(p0, input0, f),
                high@ == high_band(p0, input0, f),
                low@.len() == 2 * frames,
                mid@.len() == 2 * frames,
                high@.len() == 2 * frames,
                forall|j: int| 0 <= j < low@.len() ==> -BAND_LIMIT <= #[trigger] low@[j] <= BAND_LIMIT,
                forall|j: int| 0 <= j < mid@.len() ==> -BAND_LIMIT <= #[trigger] mid@[j] <= BAND_LIMIT,
                forall|j: int|
                    0 <= j < high@.len() ==> -BAND_LIMIT <= #[trigger] high@[j] <= BAND_LIMIT,
                p0.cut_state == (EqCutState { low: low_cut, mid: mid_cut, high: high_cut }),
                forall|j: int|
                    0 <= j < k ==> #[trigger] buffer@[j] == eq_mix_at(p0, input0, f, j),
                forall|j: int|
                    0 <= j < k ==> -6_000_000 <= #[trigger] buffer@[j] <= 6_000_000,
                forall|j: int| k <= j < buffer@.len() ==> buffer@[j] == input0[j],
            decreases 2 * frames - k,
        {
            let vl: i64 = if low_cut {
                0
            } else {
                low[k]
            };
            let vm: i64 = if mid_cut {
                0
            } else {
                mid[k]
            };
            let vh: i64 = if high_cut {
                0
            } else {
                high[k]
            };
            buffer.set(k, vl + vm + vh);
            k = k + 1;
        }
        proof {
            assert(buffer@ =~= eq_result(p0, input0, f));
        }
    }
}

/// The two states hold the same filter delay lines.
pub open spec fn same_filters(a: EqProcessor, b: EqProcessor) -> bool {
    &&& a.low_filter1 == b.low_filter1
    &&& a.low_filter2 == b.low_filter2
    &&& a.mid_filter_low1 == b.mid_filter_low1
    &&& a.mid_filter_low2 == b.mid_filter_low2
    &&& a.mid_filter_high1 == b.mid_filter_high1
    &&& a.mid_filter_high2 == b.mid_filter_high2
    &&& a.high_filter1 == b.high_filter1
    &&& a.high_filter2 == b.high_filter2
}

} // verus!
