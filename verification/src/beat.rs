//! Beat tracking: from onset-detection curves to a constant-tempo grid.
//!
//! Spectral onset-detection curves are computed upstream at a hop of 512
//! samples and handed in as fixed-point series.  Here they are combined
//! with equal weight, normalised, and turned into a tempo by
//! autocorrelation; octave folding brings the tempo into the usual DJ
//! range.  Detected beats seed a phase vote whose winning bin aligns a
//! perfectly even grid, and a confidence score says how well the
//! detected beats sit on that grid.

use vstd::prelude::*;

use crate::fixed::UNIT;

verus! {

/// Hop size of the onset curves, in audio samples.
pub const HOP_SIZE: usize = 512;

/// Number of phase-vote bins.
pub const PHASE_BINS: usize = 100;

/// Confidence ceiling in millionths: 5.32.
pub const CONFIDENCE_MAX: i64 = 5_320_000;

/// Half the beat-alignment tolerance window: fifty milliseconds.
pub const TOLERANCE_MS: i64 = 50;

/// A detected tempo and its aligned beat grid.
pub struct BeatDetectionResult {
    /// Tempo in hundredths of a beat per minute.
    pub bpm_centi: u32,
    /// Beat positions in milliseconds from the start of the track.
    pub beats_ms: Vec<i64>,
    /// Alignment confidence in millionths, up to 5.32.
    pub confidence_micro: i64,
}

/// The beat tracker; it only needs the source sample rate.
pub struct BeatDetector {
    pub sample_rate: u32,
}

/// The distance from `t` to the closest of the first `n` grid beats.
pub open spec fn min_dist_to(grid: Seq<i64>, t: int, n: int) -> int
    decreases n,
{
    if n <= 0 {
        0x7fff_ffff_ffff
    } else {
        let d = if grid[n - 1] >= t {
            grid[n - 1] - t
        } else {
            t - grid[n - 1]
        };
        let rest = min_dist_to(grid, t, n - 1);
        if d < rest {
            d
        } else {
            rest
        }
    }
}

/// A beat's alignment error in millionths: its distance to the grid over
/// the tolerance, saturating at one.
pub open spec fn beat_score(grid: Seq<i64>, t: int) -> int {
    let d = min_dist_to(grid, t, grid.len() as int);
    if d < TOLERANCE_MS {
        (d * 20_000)
    } else {
        1_000_000
    }
}

/// Total alignment error of the first `n` detected beats.
pub open spec fn score_sum(detected: Seq<i64>, grid: Seq<i64>, n: int) -> int
    decreases n,
{
    if n <= 0 {
        0
    } else {
        score_sum(detected, grid, n - 1) + beat_score(grid, detected[n - 1] as int)
    }
}

proof fn lemma_min_dist_nonneg(grid: Seq<i64>, t: int, n: int)
    ensures
        min_dist_to(grid, t, n) >= 0,
    decreases n,
{
    if n > 0 {
        lemma_min_dist_nonneg(grid, t, n - 1);
    }
}

proof fn lemma_score_sum_bounds(detected: Seq<i64>, grid: Seq<i64>, n: int)
    requires
        0 <= n <= detected.len(),
    ensures
        0 <= score_sum(detected, grid, n) <= n * 1_000_000,
    decreases n,
{
    if n > 0 {
        lemma_score_sum_bounds(detected, grid, n - 1);
        lemma_min_dist_nonneg(grid, detected[n - 1] as int, grid.len() as int);
        assert((n - 1) * 1_000_000 + 1_000_000 == n * 1_000_000) by (nonlinear_arith);
    }
}

impl BeatDetector {
    pub fn new(sample_rate: u32) -> (d: BeatDetector)
        requires
            8000 <= sample_rate <= 192_000,
        ensures
            d.sample_rate == sample_rate,
    {
        BeatDetector { sample_rate }
    }

    /// Average several onset curves, truncated to the shortest, with
    /// equal weight.  Every input value must already be normalised.
    pub fn combine_odfs(&self, odfs: &Vec<Vec<i64>>) -> (combined: Vec<i64>)
        requires
            odfs.len() >= 1,
            odfs.len() <= 8,
            forall|i: int, k: int|
                0 <= i < odfs@.len() && 0 <= k < odfs@[i]@.len() ==> 0 <= #[trigger] odfs@[i]@[k]
                    <= UNIT,
        ensures
            combined@.len() == min_odf_len(odfs@, odfs@.len() as int),
            forall|k: int| 0 <= k < combined@.len() ==> 0 <= #[trigger] combined@[k] <= UNIT,
            forall|k: int|
                0 <= k < combined@.len() ==> #[trigger] combined@[k] == odf_col_sum(
                    odfs@,
                    odfs@.len() as int,
                    k,
                ) / (odfs@.len() as int),
    {
        let mut min_len: usize = odfs[0].len();
        let mut i: usize = 1;
        while i < odfs.len()
            invariant
                1 <= i <= odfs@.len(),
                min_len == min_odf_len(odfs@, i as int),
            decreases odfs@.len() - i,
        {
            if odfs[i].len() < min_len {
                min_len = odfs[i].len();
            }
            i = i + 1;
        }
        let n = odfs.len();
        let mut combined: Vec<i64> = Vec::new();
        let mut k: usize = 0;
        while k < min_len
            invariant
                k <= min_len,
                combined@.len() == k,
                1 <= n == odfs@.len() <= 8,
                forall|i2: int, k2: int|
                    0 <= i2 < odfs@.len() && 0 <= k2 < odfs@[i2]@.len() ==> 0
                        <= #[trigger] odfs@[i2]@[k2] <= UNIT,
                min_len == min_odf_len(odfs@, odfs@.len() as int),
                forall|k2: int| 0 <= k2 < k ==> 0 <= #[trigger] combined@[k2] <= UNIT,
                forall|k2: int|
                    0 <= k2 < k ==> #[trigger] combined@[k2] == odf_col_sum(
                        odfs@,
                        odfs@.len() as int,
                        k2,
                    ) / (odfs@.len() as int),
            decreases min_len - k,
        {
            let mut sum: i64 = 0;
            let mut j: usize = 0;
            while j < n
                invariant
                    j <= n,
                    n == odfs@.len() <= 8,
                    k < min_len,
                    min_len == min_odf_len(odfs@, odfs@.len() as int),
                    forall|i2: int, k2: int|
                        0 <= i2 < odfs@.len() && 0 <= k2 < odfs@[i2]@.len() ==> 0
                            <= #[trigger] odfs@[i2]@[k2] <= UNIT,
                    0 <= sum <= j * UNIT,
                    sum == odf_col_sum(odfs@, j as int, k as int),
                decreases n - j,
            {
                proof {
                    lemma_min_odf_le(odfs@, odfs@.len() as int, j as int);
                }
                let row = &odfs[j];
                sum = sum + row[k];
                proof {
                    assert((j + 1) * (UNIT as int) == j * (UNIT as int) + UNIT) by (nonlinear_arith);
                }
                j = j + 1;
            }
            proof {
                vstd::arithmetic::div_mod::lemma_div_pos_is_pos(sum as int, n as int);
                vstd::arithmetic::div_mod::lemma_div_is_ordered(sum as int, (n as int) * UNIT, n as int);
                vstd::arithmetic::div_mod::lemma_div_multiples_vanish(UNIT as int, n as int);
                assert((n as int) * UNIT == UNIT * (n as int)) by (nonlinear_arith);
            }
            combined.push(sum / (n as i64));
            k = k + 1;
        }
        combined
    }

    /// Scale a curve so its maximum is full scale, then smooth it with a
    /// short moving average.  The result stays within full scale.
    pub fn normalize_and_smooth(&self, odf: &Vec<i64>) -> (out: Vec<i64>)
        requires
            odf.len() <= 1_000_000,
            forall|k: int| 0 <= k < odf@.len() ==> 0 <= #[trigger] odf@[k] <= 1_000_000_000_000i64,
        ensures
            out@.len() == odf@.len(),
            forall|k: int| 0 <= k < out@.len() ==> 0 <= #[trigger] out@[k] <= UNIT,
            forall|c: int|
                0 <= c < out@.len() ==> #[trigger] out@[c] == ({
                    let lo = if c >= 3 {
                        c - 3
                    } else {
                        0int
                    };
                    let hi = if c + 4 <= odf@.len() {
                        c + 4
                    } else {
                        odf@.len() as int
                    };
                    norm_window_sum(odf@, lo, hi) / (hi - lo)
                }),
    {
        let mut max_val: i64 = 0;
        let mut i: usize = 0;
        while i < odf.len()
            invariant
                i <= odf@.len(),
                0 <= max_val <= 1_000_000_000_000i64,
                forall|k: int|
                    0 <= k < odf@.len() ==> 0 <= #[trigger] odf@[k] <= 1_000_000_000_000i64,
                forall|k: int| 0 <= k < i ==> #[trigger] odf@[k] <= max_val,
                max_val == seq_max(odf@, i as int),
            decreases odf@.len() - i,
        {
            if odf[i] > max_val {
                max_val = odf[i];
            }
            i = i + 1;
        }
        let mut norm: Vec<i64> = Vec::new();
        let mut j: usize = 0;
        while j < odf.len()
            invariant
                j <= odf@.len(),
                norm@.len() == j,
                0 <= max_val <= 1_000_000_000_000i64,
                forall|k: int|
                    0 <= k < odf@.len() ==> 0 <= #[trigger] odf@[k] <= 1_000_000_000_000i64,
                forall|k: int| 0 <= k < odf@.len() ==> #[trigger] odf@[k] <= max_val,
                forall|k: int| 0 <= k < j ==> 0 <= #[trigger] norm@[k] <= UNIT,
                max_val == seq_max(odf@, odf@.len() as int),
                forall|k: int| 0 <= k < j ==> #[trigger] norm@[k] == norm_scaled(odf@, k),
            decreases odf@.len() - j,
        {
            let v: i64 = if max_val > 0 {
                proof {
                    crate::fixed::lemma_mul_bounds_abs(
                        odf@[j as int] as int,
                        UNIT as int,
                        1_000_000_000_000i64 as int,
                        UNIT as int,
                    );
                    assert(odf@[j as int] * (UNIT as int) <= max_val * (UNIT as int))
                        by (nonlinear_arith)
                        requires
                            0 <= odf@[j as int] <= max_val,
                    ;
                    vstd::arithmetic::div_mod::lemma_div_pos_is_pos(
                        odf@[j as int] * (UNIT as int),
                        max_val as int,
                    );
                    vstd::arithmetic::div_mod::lemma_div_is_ordered(
                        odf@[j as int] * (UNIT as int),
                        max_val * (UNIT as int),
                        max_val as int,
                    );
                    vstd::arithmetic::div_mod::lemma_div_multiples_vanish(UNIT as int, max_val as int);
                    assert(max_val * (UNIT as int) == (UNIT as int) * max_val) by (nonlinear_arith);
                }
                (odf[j] * UNIT) / max_val
            } else {
                0
            };
            norm.push(v);
            j = j + 1;
        }
        let mut out: Vec<i64> = Vec::new();
        let mut c: usize = 0;
        while c < norm.len()
            invariant
                c <= norm@.len(),
                norm@.len() == odf@.len() <= 1_000_000,
                out@.len() == c,
                forall|k: int| 0 <= k < norm@.len() ==> 0 <= #[trigger] norm@[k] <= UNIT,
                forall|k: int| 0 <= k < c ==> 0 <= #[trigger] out@[k] <= UNIT,
                forall|k: int| 0 <= k < norm@.len() ==> #[trigger] norm@[k] == norm_scaled(odf@, k),
                forall|k: int|
                    0 <= k < c ==> #[trigger] out@[k] == ({
                        let lo = if k >= 3 {
                            k - 3
                        } else {
                            0int
                        };
                        let hi = if k + 4 <= odf@.len() {
                            k + 4
                        } else {
                            odf@.len() as int
                        };
                        norm_window_sum(odf@, lo, hi) / (hi - lo)
                    }),
            decreases norm@.len() - c,
        {
            let start: usize = if c >= 3 {
                c - 3
            } else {
                0
            };
            let end: usize = if c + 4 <= norm.len() {
                c + 4
            } else {
                norm.len()
            };
            let mut sum: i64 = 0;
            let mut w: usize = start;
            while w < end
                invariant
                    start <= w <= end <= norm@.len(),
                    end - start <= 7,
                    norm@.len() == odf@.len(),
                    forall|k: int| 0 <= k < norm@.len() ==> 0 <= #[trigger] norm@[k] <= UNIT,
                    forall|k: int|
                        0 <= k < norm@.len() ==> #[trigger] norm@[k] == norm_scaled(odf@, k),
                    0 <= sum <= (w - start) * UNIT,
                    sum == norm_window_sum(odf@, start as int, w as int),
                decreases end - w,
            {
                sum = sum + norm[w];
                proof {
                    assert((w - start + 1) * (UNIT as int) == (w - start) * (UNIT as int) + UNIT)
                        by (nonlinear_arith);
                }
                w = w + 1;
            }
            let width = end - start;
            proof {
                vstd::arithmetic::div_mod::lemma_div_pos_is_pos(sum as int, width as int);
                vstd::arithmetic::div_mod::lemma_div_is_ordered(
                    sum as int,
                    (width as int) * UNIT,
                    width as int,
                );
                vstd::arithmetic::div_mod::lemma_div_multiples_vanish(UNIT as int, width as int);
                assert((width as int) * UNIT == UNIT * (width as int)) by (nonlinear_arith);
            }
            out.push(sum / (width as i64));
            c = c + 1;
        }
        out
    }

    /// Estimate the tempo of a combined onset curve by autocorrelation
    /// over lags between 60 and 200 beats per minute, preferring a local
    /// maximum whose tempo lies in the 80 to 160 range; a tempo from
    /// outside that range is octave-folded into it.
    ///
    /// Returns the tempo in hundredths of a beat per minute; a tempo is
    /// owed exactly when the curve covers the lag range.
    pub fn estimate_tempo_from_odf(&self, odf: &Vec<i64>) -> (r: Option<u32>)
        requires
            8000 <= self.sample_rate <= 192_000,
            odf.len() <= 1_000_000,
            forall|k: int| 0 <= k < odf@.len() ==> 0 <= #[trigger] odf@[k] <= UNIT,
        ensures
            r is Some ==> 8000 <= r->0 <= 16_000,
            r is Some <==> tempo_lag_range_ok(self.sample_rate as int, odf@.len() as int),
    {
        let sr = self.sample_rate as usize;
        let min_lag: usize = (60 * sr) / (200 * HOP_SIZE);
        let max_lag_raw: usize = (60 * sr) / (60 * HOP_SIZE);
        let max_lag: usize = if max_lag_raw <= odf.len() / 2 {
            max_lag_raw
        } else {
            odf.len() / 2
        };
        if min_lag >= max_lag || min_lag == 0 {
            return None;
        }
        let mut best_pref_lag: usize = 0;
        let mut best_pref_corr: i64 = -1;
        let mut best_any_lag: usize = 0;
        let mut best_any_corr: i64 = -1;
        let mut lag: usize = min_lag;
        while lag <= max_lag
            invariant
                min_lag <= lag <= max_lag + 1,
                0 < min_lag < max_lag <= odf@.len() / 2,
                odf@.len() <= 1_000_000,
                8000 <= self.sample_rate <= 192_000,
                forall|k: int| 0 <= k < odf@.len() ==> 0 <= #[trigger] odf@[k] <= UNIT,
                best_any_corr >= 0 ==> min_lag <= best_any_lag <= max_lag,
                best_pref_corr >= 0 ==> min_lag <= best_pref_lag <= max_lag,
                lag > min_lag ==> best_any_corr >= 0,
            decreases max_lag + 1 - lag,
        {
            let corr = autocorr_at(odf, lag);
            if corr > best_any_corr {
                best_any_corr = corr;
                best_any_lag = lag;
            }
            let bpm_centi = bpm_of_lag(self.sample_rate, lag);
            if bpm_centi >= 8000 && bpm_centi <= 16_000 && corr > best_pref_corr {
                best_pref_corr = corr;
                best_pref_lag = lag;
            }
            lag = lag + 1;
        }
        let chosen: usize = if best_pref_corr >= 0 {
            best_pref_lag
        } else {
            best_any_lag
        };
        let raw = bpm_of_lag(self.sample_rate, chosen);
        proof {
            lemma_lag_bpm_range(self.sample_rate as int, chosen as int, raw as int);
        }
        if raw == 0 {
            return None;
        }
        let up = octave_fold_up(raw, 8000);
        let folded = octave_fold_down(up, 16_000);
        Some(folded)
    }

    /// Walk the onset curve one beat period at a time, snapping each
    /// expected beat to the local maximum within fifteen percent of the
    /// period.  Returns strictly increasing curve indices.
    pub fn dp_beat_tracking(&self, odf: &Vec<i64>, period_frames: usize) -> (beats: Vec<usize>)
        requires
            1 <= period_frames,
            odf.len() <= 1_000_000,
            forall|k: int| 0 <= k < odf@.len() ==> 0 <= #[trigger] odf@[k] <= UNIT,
        ensures
            forall|i: int| 0 <= i < beats@.len() ==> #[trigger] beats@[i] < odf@.len(),
            forall|i: int| 0 <= i && i + 1 < beats@.len() ==> #[trigger] beats@[i] < beats@[i + 1],
            beats@.len() <= odf@.len() + period_frames + 1,
            odf@.len() == 0 || period_frames >= odf@.len() ==> beats@.len() == 0,
            0 < odf@.len() && period_frames < odf@.len() ==> beats@.len() >= 1,
    {
        let n = odf.len();
        if n == 0 || period_frames >= n {
            return Vec::new();
        }
        proof {
            assert((period_frames as int) * 15 < 100 * (period_frames as int)) by (nonlinear_arith)
                requires
                    period_frames >= 1,
            ;
            vstd::arithmetic::div_mod::lemma_multiply_divide_lt(
                (period_frames as int) * 15,
                100,
                period_frames as int,
            );
        }
        let window: usize = (period_frames * 15) / 100;
        let mut first_beat: usize = 0;
        let mut i: usize = 0;
        let mut found = false;
        let seek_end: usize = if 2 * period_frames <= n {
            2 * period_frames
        } else {
            n
        };
        while i < seek_end && !found
            invariant
                i <= seek_end <= n,
                n == odf@.len(),
                first_beat < n,
                forall|k: int| 0 <= k < odf@.len() ==> 0 <= #[trigger] odf@[k] <= UNIT,
            decreases seek_end - i, (if found { 0int } else { 1int }),
        {
            if odf[i] > 150_000 {
                first_beat = i;
                found = true;
            } else {
                i = i + 1;
            }
        }
        let mut beats: Vec<usize> = Vec::new();
        let mut expected: usize = first_beat;
        while expected < n
            invariant
                n == odf@.len() <= 1_000_000,
                1 <= period_frames < n,
                window < period_frames,
                first_beat < n,
                beats@.len() == 0 ==> expected == first_beat,
                forall|k: int| 0 <= k < odf@.len() ==> 0 <= #[trigger] odf@[k] <= UNIT,
                forall|i2: int| 0 <= i2 < beats@.len() ==> #[trigger] beats@[i2] < n,
                forall|i2: int|
                    0 <= i2 && i2 + 1 < beats@.len() ==> #[trigger] beats@[i2] < beats@[i2 + 1],
                beats@.len() > 0 ==> expected >= beats@[beats@.len() - 1] + period_frames,
                expected <= n + period_frames,
                beats@.len() <= expected + 1,
            decreases n + period_frames - expected,
        {
            let search_start: usize = if expected >= window {
                expected - window
            } else {
                0
            };
            let search_end: usize = if expected + window < n {
                expected + window
            } else {
                n - 1
            };
            let mut best_pos: usize = if expected <= n - 1 {
                expected
            } else {
                n - 1
            };
            let mut best_val: i64 = odf[best_pos];
            let mut s = search_start;
            while s <= search_end
                invariant
                    search_start <= s,
                    s <= search_end + 1,
                    search_end < n,
                    n == odf@.len(),
                    best_pos < n,
                    search_start <= best_pos || best_pos == expected,
                    best_pos >= search_start || best_pos == expected,
                    best_pos <= search_end || best_pos == expected,
                    expected < n,
                    forall|k: int| 0 <= k < odf@.len() ==> 0 <= #[trigger] odf@[k] <= UNIT,
                decreases search_end + 1 - s,
            {
                if odf[s] > best_val {
                    best_val = odf[s];
                    best_pos = s;
                }
                s = s + 1;
            }
            let ghost prev = beats@;
            proof {
                assert(best_pos >= search_start);
                if expected >= window {
                    assert(best_pos >= expected - window);
                } else {
                    assert(expected < window < period_frames);
                }
                assert(best_pos + period_frames > expected);
                if prev.len() > 0 {
                    assert(expected >= prev[prev.len() - 1] + period_frames);
                    assert(expected >= period_frames);
                    assert(expected >= window);
                    assert(best_pos >= expected - window);
                    assert(best_pos > prev[prev.len() - 1]);
                }
            }
            beats.push(best_pos);
            proof {
                assert(beats@ == prev.push(best_pos));
                assert forall|i2: int|
                    0 <= i2 && i2 + 1 < beats@.len() implies #[trigger] beats@[i2] < beats@[i2
                    + 1] by {
                    assert(beats@.len() == prev.len() + 1);
                    if i2 + 1 < prev.len() {
                        assert(beats@[i2] == prev[i2]);
                        assert(beats@[i2 + 1] == prev[i2 + 1]);
                        assert(prev[i2] < prev[i2 + 1]);
                    } else {
                        assert(i2 + 1 == prev.len());
                        assert(beats@[i2 + 1] == best_pos);
                        assert(i2 == prev.len() - 1);
                        assert(beats@[i2] == prev[i2]);
                        assert(prev.len() > 0);
                        assert(best_pos > prev[prev.len() - 1]);
                    }
                }
            }
            expected = best_pos + period_frames;
        }
        beats
    }

    /// Smooth a circular histogram with a five-bin moving sum; for
    /// picking the fullest bin a sum serves as well as an average.
    pub fn smooth_histogram(&self, histogram: &Vec<i64>) -> (out: Vec<i64>)
        requires
            histogram.len() <= 1_000_000,
            forall|k: int| 0 <= k < histogram@.len() ==> 0 <= #[trigger] histogram@[k]
                <= 1_000_000_000i64,
        ensures
            out@.len() == histogram@.len(),
            forall|k: int| 0 <= k < out@.len() ==> 0 <= #[trigger] out@[k] <= 5_000_000_000i64,
            forall|k: int| 0 <= k < out@.len() ==> #[trigger] out@[k] == circ5_sum(histogram@, k),
    {
        let len = histogram.len();
        let mut out: Vec<i64> = Vec::new();
        if len == 0 {
            return out;
        }
        let mut i: usize = 0;
        while i < len
            invariant
                i <= len,
                len == histogram@.len() >= 1,
                len <= 1_000_000,
                out@.len() == i,
                forall|k: int|
                    0 <= k < histogram@.len() ==> 0 <= #[trigger] histogram@[k] <= 1_000_000_000i64,
                forall|k: int| 0 <= k < i ==> 0 <= #[trigger] out@[k] <= 5_000_000_000i64,
                forall|k: int| 0 <= k < i ==> #[trigger] out@[k] == circ5_sum(histogram@, k),
            decreases len - i,
        {
            let mut sum: i64 = 0;
            let mut j: usize = 0;
            while j < 5
                invariant
                    j <= 5,
                    len == histogram@.len() >= 1,
                    len <= 1_000_000,
                    i < len,
                    forall|k: int|
                        0 <= k < histogram@.len() ==> 0 <= #[trigger] histogram@[k]
                            <= 1_000_000_000i64,
                    0 <= sum <= (j as int) * 1_000_000_000i64,
                    sum == circ_window_prefix(histogram@, i as int, j as int),
                decreases 5 - j,
            {
                let idx = (i + 2 * len + j - 2) % len;
                proof {
                    vstd::arithmetic::div_mod::lemma_mod_division_less_than_divisor(
                        (i + 2 * len + j - 2) as int,
                        len as int,
                    );
                }
                sum = sum + histogram[idx];
                proof {
                    assert((j as int + 1) * 1_000_000_000i64 == (j as int) * 1_000_000_000i64
                        + 1_000_000_000i64) by (nonlinear_arith);
                }
                j = j + 1;
            }
            proof {
                reveal_with_fuel(circ_window_prefix, 6);
                assert(sum == circ5_sum(histogram@, i as int));
            }
            out.push(sum);
            i = i + 1;
        }
        out
    }

    /// Pick the grid phase by letting every detected beat vote for its
    /// phase within the beat interval, smoothing the votes circularly,
    /// and taking the winning bin's centre; a phase past half the
    /// interval wraps to the beat before, floored at zero.
    pub fn find_optimal_first_beat(&self, detected_ms: &Vec<i64>, beat_interval_ms: i64) -> (r:
        i64)
        requires
            1 <= beat_interval_ms <= 100_000,
            detected_ms.len() <= 4_000_000,
            forall|k: int| 0 <= k < detected_ms@.len() ==> 0 <= #[trigger] detected_ms@[k],
        ensures
            0 <= r < beat_interval_ms,
    {
        if detected_ms.len() == 0 {
            return 0;
        }
        let mut histogram: Vec<i64> = Vec::new();
        let mut z: usize = 0;
        while z < PHASE_BINS
            invariant
                z <= PHASE_BINS,
                histogram@.len() == z,
                forall|k: int| 0 <= k < z ==> #[trigger] histogram@[k] == 0,
            decreases PHASE_BINS - z,
        {
            histogram.push(0);
            z = z + 1;
        }
        let mut i: usize = 0;
        while i < detected_ms.len()
            invariant
                i <= detected_ms@.len(),
                detected_ms@.len() <= 4_000_000,
                histogram@.len() == PHASE_BINS,
                1 <= beat_interval_ms <= 100_000,
                forall|k: int| 0 <= k < detected_ms@.len() ==> 0 <= #[trigger] detected_ms@[k],
                forall|k: int|
                    0 <= k < histogram@.len() ==> 0 <= #[trigger] histogram@[k] <= i as int,
            decreases detected_ms@.len() - i,
        {
            let t = detected_ms[i];
            let phase = t % beat_interval_ms;
            proof {
                vstd::arithmetic::div_mod::lemma_mod_division_less_than_divisor(
                    t as int,
                    beat_interval_ms as int,
                );
                crate::fixed::lemma_mul_bounds_abs(phase as int, PHASE_BINS as int, 100_000, 100);
                vstd::arithmetic::div_mod::lemma_div_pos_is_pos(
                    (phase as int) * (PHASE_BINS as int),
                    beat_interval_ms as int,
                );
                assert((phase as int) * (PHASE_BINS as int) < (beat_interval_ms as int) * (
                PHASE_BINS as int)) by (nonlinear_arith)
                    requires
                        0 <= phase < beat_interval_ms,
                ;
                vstd::arithmetic::div_mod::lemma_multiply_divide_lt(
                    (phase as int) * (PHASE_BINS as int),
                    beat_interval_ms as int,
                    PHASE_BINS as int,
                );
            }
            let bin_raw: i64 = (phase * (PHASE_BINS as i64)) / beat_interval_ms;
            let bin: usize = if (bin_raw as usize) < PHASE_BINS - 1 {
                bin_raw as usize
            } else {
                PHASE_BINS - 1
            };
            let v = histogram[bin];
            histogram.set(bin, v + 1);
            i = i + 1;
        }
        let smoothed = self.smooth_histogram(&histogram);
        let mut max_bin: usize = 0;
        let mut max_votes: i64 = smoothed[0];
        let mut b: usize = 1;
        while b < smoothed.len()
            invariant
                1 <= b <= smoothed@.len(),
                smoothed@.len() == PHASE_BINS,
                max_bin < PHASE_BINS,
            decreases smoothed@.len() - b,
        {
            if smoothed[b] > max_votes {
                max_votes = smoothed[b];
                max_bin = b;
            }
            b = b + 1;
        }
        proof {
            crate::fixed::lemma_mul_bounds_abs(
                2 * (max_bin as int) + 1,
                beat_interval_ms as int,
                201,
                100_000,
            );
            vstd::arithmetic::div_mod::lemma_div_pos_is_pos(
                (2 * (max_bin as int) + 1) * (beat_interval_ms as int),
                2 * (PHASE_BINS as int),
            );
            assert((2 * (max_bin as int) + 1) * (beat_interval_ms as int) < (2 * (
            PHASE_BINS as int)) * (beat_interval_ms as int)) by (nonlinear_arith)
                requires
                    max_bin < PHASE_BINS as int,
                    beat_interval_ms >= 1,
            ;
            vstd::arithmetic::div_mod::lemma_multiply_divide_lt(
                (2 * (max_bin as int) + 1) * (beat_interval_ms as int),
                2 * (PHASE_BINS as int),
                beat_interval_ms as int,
            );
        }
        let best_phase: i64 = ((2 * (max_bin as i64) + 1) * beat_interval_ms) / (2 * (
        PHASE_BINS as i64));
        if best_phase < beat_interval_ms / 2 {
            if best_phase >= 0 {
                best_phase
            } else {
                0
            }
        } else {
            let shifted = best_phase - beat_interval_ms;
            if shifted >= 0 {
                shifted
            } else {
                0
            }
        }
    }

    /// An evenly spaced grid from the first beat to the end of the
    /// track: beat `i` sits exactly `i` intervals after the first, so
    /// consecutive beats are always exactly one interval apart.
    pub fn generate_beat_grid(&self, first_beat_ms: i64, beat_interval_ms: i64, duration_ms: i64)
        -> (beats: Vec<i64>)
        requires
            0 <= first_beat_ms <= 0x1_0000_0000,
            1 <= beat_interval_ms <= 100_000,
            0 <= duration_ms <= 0x1_0000_0000,
        ensures
            beats@.len() * beat_interval_ms <= duration_ms + beat_interval_ms,
            forall|i: int|
                0 <= i < beats@.len() ==> #[trigger] beats@[i] == first_beat_ms + i
                    * beat_interval_ms,
            forall|i: int|
                0 <= i && i + 1 < beats@.len() ==> #[trigger] beats@[i + 1] - beats@[i]
                    == beat_interval_ms,
            forall|i: int| 0 <= i < beats@.len() ==> #[trigger] beats@[i] < duration_ms,
            first_beat_ms < duration_ms ==> beats@.len() >= 1,
    {
        let mut beats: Vec<i64> = Vec::new();
        let mut pos: i64 = first_beat_ms;
        proof {
            assert(beats@.len() * beat_interval_ms == 0) by (nonlinear_arith)
                requires
                    beats@.len() == 0,
            ;
        }
        while pos < duration_ms
            invariant
                0 <= first_beat_ms <= 0x1_0000_0000,
                1 <= beat_interval_ms <= 100_000,
                duration_ms <= 0x1_0000_0000,
                first_beat_ms <= pos <= 0x1_0000_0000 + 100_000,
                pos == first_beat_ms + beats@.len() * beat_interval_ms,
                beats@.len() == 0 || pos <= duration_ms + beat_interval_ms - 1,
                forall|i: int|
                    0 <= i < beats@.len() ==> #[trigger] beats@[i] == first_beat_ms + i
                        * beat_interval_ms,
                forall|i: int| 0 <= i < beats@.len() ==> #[trigger] beats@[i] < duration_ms,
            decreases duration_ms + 100_000 - pos,
        {
            beats.push(pos);
            proof {
                assert((beats@.len() as int) * beat_interval_ms == (beats@.len() - 1)
                    * beat_interval_ms + beat_interval_ms) by (nonlinear_arith);
            }
            pos = pos + beat_interval_ms;
        }
        proof {
            assert forall|i: int|
                0 <= i && i + 1 < beats@.len() implies #[trigger] beats@[i + 1] - beats@[i]
                == beat_interval_ms by {
                assert(beats@[i] == first_beat_ms + i * beat_interval_ms);
                assert(beats@[i + 1] == first_beat_ms + (i + 1) * beat_interval_ms);
                assert((i + 1) * beat_interval_ms == i * beat_interval_ms + beat_interval_ms)
                    by (nonlinear_arith);
            }
        }
        beats
    }

    /// Detect the tempo and beat grid of a track from its onset curves.
    ///
    /// The curves are averaged, normalised, and autocorrelated into a
    /// tempo that octave folding pins between 80 and 170 beats per
    /// minute.  Detected beats vote for the grid phase, and the result
    /// is a perfectly even grid whose spacing is the beat interval of
    /// the returned tempo, with an alignment confidence up to 5.32.
    /// Tracks shorter than two seconds yield nothing.
    pub fn detect_from_odfs(&self, odfs: &Vec<Vec<i64>>, total_samples: usize) -> (r: Option<
        BeatDetectionResult>)
        requires
            8000 <= self.sample_rate <= 192_000,
            odfs.len() >= 1,
            odfs.len() <= 8,
            total_samples <= 0x7fff_ffff,
            forall|i: int, k: int|
                0 <= i < odfs@.len() && 0 <= k < odfs@[i]@.len() ==> 0 <= #[trigger] odfs@[i]@[k]
                    <= UNIT,
            forall|i: int| 0 <= i < odfs@.len() ==> #[trigger] odfs@[i]@.len() <= 1_000_000,
        ensures
            r is Some ==> 8000 <= r->0.bpm_centi <= 17_000,
            r is Some ==> 0 <= r->0.confidence_micro <= CONFIDENCE_MAX,
            r is Some ==> forall|i: int|
                0 <= i && i + 1 < r->0.beats_ms@.len() ==> #[trigger] r->0.beats_ms@[i + 1]
                    - r->0.beats_ms@[i] == 6_000_000int / (r->0.bpm_centi as int),
            r is Some ==> forall|i: int|
                0 <= i < r->0.beats_ms@.len() ==> 0 <= #[trigger] r->0.beats_ms@[i] < (
                total_samples as int) * 1000 / (self.sample_rate as int),
            r is Some ==> forall|i: int|
                0 <= i < r->0.beats_ms@.len() ==> #[trigger] r->0.beats_ms@[i]
                    == r->0.beats_ms@[0] + i * (6_000_000int / (r->0.bpm_centi as int)),
            total_samples < 2 * self.sample_rate ==> r is None,
            total_samples >= 2 * self.sample_rate && min_odf_len(odfs@, odfs@.len() as int) >= 282
                && tempo_lag_range_ok(
                self.sample_rate as int,
                min_odf_len(odfs@, odfs@.len() as int),
            ) ==> r is Some,
    {
        if total_samples < 2 * (self.sample_rate as usize) {
            return None;
        }
        let combined = self.combine_odfs(odfs);
        proof {
            lemma_min_odf_le(odfs@, odfs@.len() as int, 0);
        }
        if combined.len() == 0 {
            return None;
        }
        let normalized = self.normalize_and_smooth(&combined);
        let bpm0 = match self.estimate_tempo_from_odf(&normalized) {
            Some(b) => b,
            None => {
                return None;
            },
        };
        let bpm = octave_fold_down(octave_fold_up(bpm0, 8000), 17_000);
        let num: u64 = 6000u64 * (self.sample_rate as u64);
        proof {
            assert((bpm as int) * 512 >= 8000 * 512 && (bpm as int) * 512 <= 17_000 * 512)
                by (nonlinear_arith)
                requires
                    8000 <= bpm as int <= 17_000,
            ;
        }
        let den: u64 = (bpm as u64) * 512;
        let period64: u64 = (2 * num + den) / (2 * den);
        let period = period64 as usize;
        proof {
            vstd::arithmetic::div_mod::lemma_div_pos_is_pos((2 * num + den) as int, (2 * den) as int);
            vstd::arithmetic::div_mod::lemma_div_is_ordered(
                (2 * den) as int,
                (2 * num + den) as int,
                (2 * den) as int,
            );
            vstd::arithmetic::div_mod::lemma_div_multiples_vanish(1, (2 * den) as int);
            assert(period64 >= 1);
            assert(((2 * num + den) as int) < ((2 * den) as int) * 282);
            vstd::arithmetic::div_mod::lemma_multiply_divide_lt(
                (2 * num + den) as int,
                (2 * den) as int,
                282,
            );
            assert(period64 <= 281);
        }
        if period == 0 || period > 1_000_000 {
            return None;
        }
        let detected_idx = self.dp_beat_tracking(&normalized, period);
        if detected_idx.len() == 0 {
            return None;
        }
        let sr = self.sample_rate as i64;
        let mut detected_ms: Vec<i64> = Vec::new();
        let mut i: usize = 0;
        while i < detected_idx.len()
            invariant
                i <= detected_idx@.len(),
                detected_ms@.len() == i,
                8000 <= sr <= 192_000,
                forall|j: int|
                    0 <= j < detected_idx@.len() ==> #[trigger] detected_idx@[j] <= 1_000_000,
                forall|j: int|
                    0 <= j < i ==> 0 <= #[trigger] detected_ms@[j] <= 0x1_0000_0000,
            decreases detected_idx@.len() - i,
        {
            let idx = detected_idx[i];
            proof {
                assert((idx as int) * 512_000 <= 512_000_000_000i64) by (nonlinear_arith)
                    requires
                        idx <= 1_000_000,
                ;
                assert((idx as int) * 512_000 >= 0) by (nonlinear_arith)
                    requires
                        idx >= 0,
                ;
                vstd::arithmetic::div_mod::lemma_div_pos_is_pos((idx as int) * 512_000, sr as int);
                vstd::arithmetic::div_mod::lemma_div_is_ordered(
                    (idx as int) * 512_000,
                    512_000_000_000i64 as int,
                    sr as int,
                );
                vstd::arithmetic::div_mod::lemma_div_is_ordered_by_denominator(
                    512_000_000_000i64 as int,
                    8000,
                    sr as int,
                );
            }
            detected_ms.push(((idx as i64) * 512_000) / sr);
            i = i + 1;
        }
        proof {
            vstd::arithmetic::div_mod::lemma_div_pos_is_pos(6_000_000, bpm as int);
            vstd::arithmetic::div_mod::lemma_div_is_ordered_by_denominator(6_000_000, 8000, bpm as int);
            vstd::arithmetic::div_mod::lemma_div_is_ordered_by_denominator(6_000_000, 352, bpm as int);
            assert(6_000_000int / (bpm as int) >= 352) by {
                vstd::arithmetic::div_mod::lemma_div_is_ordered_by_denominator(
                    6_000_000,
                    bpm as int,
                    17_000,
                );
                assert(6_000_000int / 17_000 == 352);
            }
        }
        let interval_ms: i64 = 6_000_000 / (bpm as i64);
        let first = self.find_optimal_first_beat(&detected_ms, interval_ms);
        proof {
            assert((total_samples as int) * 1000 <= 0x7fff_ffffi64 * 1000) by (nonlinear_arith)
                requires
                    total_samples <= 0x7fff_ffff,
            ;
            vstd::arithmetic::div_mod::lemma_div_pos_is_pos((total_samples as int) * 1000, sr as int);
            vstd::arithmetic::div_mod::lemma_div_is_ordered(
                (total_samples as int) * 1000,
                0x7fff_ffffi64 * 1000,
                sr as int,
            );
            vstd::arithmetic::div_mod::lemma_div_is_ordered_by_denominator(
                0x7fff_ffffi64 * 1000,
                8000,
                sr as int,
            );
        }
        let duration_ms: i64 = ((total_samples as i64) * 1000) / sr;
        let grid = self.generate_beat_grid(first, interval_ms, duration_ms);
        proof {
            assert(duration_ms <= 268_435_460);
            assert(grid@.len() <= 1_000_000) by (nonlinear_arith)
                requires
                    grid@.len() * (interval_ms as int) <= duration_ms + interval_ms,
                    duration_ms <= 268_435_460,
                    352 <= interval_ms <= 100_000,
            ;
            assert forall|k: int| 0 <= k < grid@.len() implies 0 <= #[trigger] grid@[k]
                <= 0x1_0000_0000 by {
                assert(grid@[k] == first + k * interval_ms);
                assert(k * interval_ms >= 0) by (nonlinear_arith)
                    requires
                        k >= 0,
                        interval_ms >= 0,
                ;
            }
            if grid@.len() > 0 {
                assert(grid@[0] == first + 0 * interval_ms);
                assert(0 * interval_ms == 0) by (nonlinear_arith);
            }
            assert forall|k: int|
                0 <= k < grid@.len() implies #[trigger] grid@[k] == grid@[0] + k * (
            6_000_000int / (bpm as int)) by {
                assert(grid@[k] == first + k * interval_ms);
                assert(grid@[0] == first);
            }
        }
        let confidence = self.calculate_grid_confidence(&detected_ms, &grid);
        Some(BeatDetectionResult { bpm_centi: bpm, beats_ms: grid, confidence_micro: confidence })
    }

    /// Score how well the detected beats sit on the grid: each beat's
    /// distance to the nearest grid line, over a fifty-millisecond
    /// tolerance and saturating at one, averaged and inverted onto the
    /// confidence scale.  Always between zero and 5.32.
    pub fn calculate_grid_confidence(&self, detected_ms: &Vec<i64>, grid_ms: &Vec<i64>) -> (c: i64)
        requires
            detected_ms.len() <= 4_000_000,
            grid_ms.len() <= 1_000_000,
            forall|k: int|
                0 <= k < detected_ms@.len() ==> 0 <= #[trigger] detected_ms@[k] <= 0x1_0000_0000,
            forall|k: int| 0 <= k < grid_ms@.len() ==> 0 <= #[trigger] grid_ms@[k] <= 0x1_0000_0000,
        ensures
            0 <= c <= CONFIDENCE_MAX,
            detected_ms@.len() == 0 || grid_ms@.len() == 0 ==> c == 0,
            detected_ms@.len() > 0 && grid_ms@.len() > 0 ==> c == ((1_000_000 - score_sum(
                detected_ms@,
                grid_ms@,
                detected_ms@.len() as int,
            ) / (detected_ms@.len() as int)) * 532) / 100,
    {
        if detected_ms.len() == 0 || grid_ms.len() == 0 {
            return 0;
        }
        let mut total: i64 = 0;
        let mut i: usize = 0;
        proof {
            lemma_score_sum_bounds(detected_ms@, grid_ms@, 0);
        }
        while i < detected_ms.len()
            invariant
                i <= detected_ms@.len() <= 4_000_000,
                grid_ms@.len() >= 1,
                grid_ms@.len() <= 1_000_000,
                forall|k: int|
                    0 <= k < detected_ms@.len() ==> 0 <= #[trigger] detected_ms@[k]
                        <= 0x1_0000_0000,
                forall|k: int|
                    0 <= k < grid_ms@.len() ==> 0 <= #[trigger] grid_ms@[k] <= 0x1_0000_0000,
                total == score_sum(detected_ms@, grid_ms@, i as int),
                0 <= total <= (i as int) * 1_000_000,
            decreases detected_ms@.len() - i,
        {
            let d = min_dist_exec(grid_ms, detected_ms[i]);
            let score: i64 = if d < TOLERANCE_MS {
                d * 20_000
            } else {
                1_000_000
            };
            proof {
                lemma_score_sum_bounds(detected_ms@, grid_ms@, i as int + 1);
            }
            total = total + score;
            i = i + 1;
        }
        let n = detected_ms.len() as i64;
        proof {
            vstd::arithmetic::div_mod::lemma_div_pos_is_pos(total as int, n as int);
            vstd::arithmetic::div_mod::lemma_div_is_ordered(
                total as int,
                (n as int) * 1_000_000,
                n as int,
            );
            vstd::arithmetic::div_mod::lemma_div_multiples_vanish(1_000_000, n as int);
            assert((n as int) * 1_000_000 == 1_000_000 * (n as int)) by (nonlinear_arith);
        }
        let avg: i64 = total / n;
        let conf: i64 = ((1_000_000 - avg) * 532) / 100;
        proof {
            vstd::arithmetic::div_mod::lemma_div_pos_is_pos((1_000_000 - avg as int) * 532, 100);
            vstd::arithmetic::div_mod::lemma_div_is_ordered(
                (1_000_000 - avg as int) * 532,
                532_000_000,
                100,
            );
            assert((1_000_000 - avg as int) * 532 <= 532_000_000) by (nonlinear_arith)
                requires
                    0 <= avg,
            ;
            assert((1_000_000 - avg as int) * 532 >= 0) by (nonlinear_arith)
                requires
                    avg <= 1_000_000,
            ;
        }
        conf
    }
}

/// The sum of the first `n` curves' values at index `k`.
pub open spec fn odf_col_sum(odfs: Seq<Vec<i64>>, n: int, k: int) -> int
    decreases n,
{
    if n <= 0 {
        0
    } else {
        odf_col_sum(odfs, n - 1, k) + odfs[n - 1]@[k]
    }
}

/// The first `j` bins of the five-bin circular window that starts two
/// bins before bin `i`, summed.
pub open spec fn circ_window_prefix(h: Seq<i64>, i: int, j: int) -> int
    decreases j,
{
    if j <= 0 {
        0
    } else {
        circ_window_prefix(h, i, j - 1) + h[(i + 2 * h.len() + (j - 1) - 2) % (h.len() as int)]
    }
}

/// The five-bin circular window sum around bin `i`: the bin itself and
/// its two neighbours on either side, wrapping at the ends.
pub open spec fn circ5_sum(h: Seq<i64>, i: int) -> int {
    circ_window_prefix(h, i, 5)
}

/// The largest of the first `n` values of a curve; zero for an empty
/// prefix.
pub open spec fn seq_max(s: Seq<i64>, n: int) -> int
    decreases n,
{
    if n <= 0 {
        0
    } else {
        let r = seq_max(s, n - 1);
        if s[n - 1] > r {
            s[n - 1] as int
        } else {
            r
        }
    }
}

/// One curve value scaled so that the curve's maximum is full scale; an
/// all-zero curve stays zero.
pub open spec fn norm_scaled(s: Seq<i64>, k: int) -> int {
    let m = seq_max(s, s.len() as int);
    if m > 0 {
        (s[k] * (UNIT as int)) / m
    } else {
        0
    }
}

/// The sum of the scaled curve over the index window `[lo, hi)`.
pub open spec fn norm_window_sum(s: Seq<i64>, lo: int, hi: int) -> int
    decreases hi - lo,
{
    if hi <= lo {
        0
    } else {
        norm_window_sum(s, lo, hi - 1) + norm_scaled(s, hi - 1)
    }
}

/// The length of the shortest of the first `n` curves.
pub open spec fn min_odf_len(odfs: Seq<Vec<i64>>, n: int) -> int
    decreases n,
{
    if n <= 1 {
        odfs[0]@.len() as int
    } else {
        let rest = min_odf_len(odfs, n - 1);
        if odfs[n - 1]@.len() < rest {
            odfs[n - 1]@.len() as int
        } else {
            rest
        }
    }
}

proof fn lemma_min_odf_le(odfs: Seq<Vec<i64>>, n: int, j: int)
    requires
        0 <= j < n,
        n <= odfs.len(),
    ensures
        min_odf_len(odfs, n) <= odfs[j]@.len(),
    decreases n,
{
    if n > 1 {
        if j < n - 1 {
            lemma_min_odf_le(odfs, n - 1, j);
        }
    }
}

/// Whether a curve of `n` hops at rate `sr` covers the autocorrelation
/// lag range: the 200-BPM lag must be at least one hop and sit strictly
/// below both the 60-BPM lag and half the curve.
pub open spec fn tempo_lag_range_ok(sr: int, n: int) -> bool {
    let min_lag = (60 * sr) / (200 * HOP_SIZE as int);
    let max_raw = (60 * sr) / (60 * HOP_SIZE as int);
    let max_lag = if max_raw <= n / 2 {
        max_raw
    } else {
        n / 2
    };
    min_lag >= 1 && min_lag < max_lag
}

/// Any lag between the 200-BPM and the 60-BPM lag maps to a tempo
/// between 60 and 255 beats per minute: the hop size divides the rate
/// range so that the lag endpoints cannot overshoot.
pub proof fn lemma_lag_bpm_range(sr: int, lag: int, bpm: int)
    requires
        8000 <= sr <= 192_000,
        1 <= lag,
        (60 * sr) / 102_400 <= lag <= (60 * sr) / 30_720,
        bpm == (6000 * sr) / (lag * 512),
    ensures
        6000 <= bpm <= 25_500,
{
    let min_lag = (60 * sr) / 102_400;
    let max_lag = (60 * sr) / 30_720;
    let d = lag * 512;
    assert(lag * 512 >= 512) by (nonlinear_arith)
        requires
            lag >= 1,
    ;
    assert(d >= 512);
    vstd::arithmetic::div_mod::lemma_fundamental_div_mod(60 * sr, 30_720);
    vstd::arithmetic::div_mod::lemma_mod_division_less_than_divisor(60 * sr, 30_720);
    assert(30_720 * max_lag <= 60 * sr);
    assert(d <= sr) by (nonlinear_arith)
        requires
            30_720 * max_lag <= 60 * sr,
            lag <= max_lag,
            d == lag * 512,
    ;
    assert(6000 * d <= 6000 * sr);
    vstd::arithmetic::div_mod::lemma_div_is_ordered(6000 * d, 6000 * sr, d);
    vstd::arithmetic::div_mod::lemma_div_multiples_vanish(6000, d);
    assert(d * 6000 == 6000 * d) by (nonlinear_arith);
    assert(bpm >= 6000);
    vstd::arithmetic::div_mod::lemma_fundamental_div_mod(6000 * sr, d);
    vstd::arithmetic::div_mod::lemma_mod_division_less_than_divisor(6000 * sr, d);
    assert(d * bpm <= 6000 * sr);
    vstd::arithmetic::div_mod::lemma_fundamental_div_mod(60 * sr, 102_400);
    vstd::arithmetic::div_mod::lemma_mod_division_less_than_divisor(60 * sr, 102_400);
    assert(102_400 * min_lag >= 60 * sr - 102_399);
    if bpm > 25_500 {
        assert(25_501 * (min_lag * 512) <= 6000 * sr) by (nonlinear_arith)
            requires
                d * bpm <= 6000 * sr,
                bpm >= 25_501,
                min_lag <= lag,
                min_lag >= 0,
                d == lag * 512,
        ;
        assert(false) by (nonlinear_arith)
            requires
                25_501 * (min_lag * 512) <= 6000 * sr,
                102_400 * min_lag >= 60 * sr - 102_399,
                sr >= 8000,
        ;
    }
}

/// Autocorrelation of the curve with itself at one lag.
fn autocorr_at(odf: &Vec<i64>, lag: usize) -> (corr: i64)
    requires
        lag < odf.len(),
        odf.len() <= 1_000_000,
        forall|k: int| 0 <= k < odf@.len() ==> 0 <= #[trigger] odf@[k] <= UNIT,
    ensures
        corr >= 0,
{
    let n = odf.len() - lag;
    let mut corr: i64 = 0;
    let mut i: usize = 0;
    while i < n
        invariant
            i <= n,
            n + lag == odf@.len(),
            odf@.len() <= 1_000_000,
            forall|k: int| 0 <= k < odf@.len() ==> 0 <= #[trigger] odf@[k] <= UNIT,
            0 <= corr <= (i as int) * 1_000_000_000_000i64,
        decreases n - i,
    {
        proof {
            crate::fixed::lemma_mul_bounds_abs(
                odf@[i as int] as int,
                odf@[i as int + lag as int] as int,
                UNIT as int,
                UNIT as int,
            );
            assert(odf@[i as int] * odf@[i as int + lag as int] >= 0) by (nonlinear_arith)
                requires
                    odf@[i as int] >= 0,
                    odf@[i as int + lag as int] >= 0,
            ;
            assert((i as int + 1) * 1_000_000_000_000i64 == (i as int) * 1_000_000_000_000i64
                + 1_000_000_000_000i64) by (nonlinear_arith);
        }
        corr = corr + odf[i] * odf[i + lag];
        i = i + 1;
    }
    corr
}

/// The tempo of a lag, in hundredths of a beat per minute.
fn bpm_of_lag(sample_rate: u32, lag: usize) -> (bpm: u32)
    requires
        8000 <= sample_rate <= 192_000,
        lag <= 1_000_000,
    ensures
        lag >= 1 ==> bpm as int == (6000 * (sample_rate as int)) / ((lag as int) * (HOP_SIZE as int)),
        lag == 0 ==> bpm == 0,
        bpm <= 6000 * 192_000 / 512,
{
    if lag == 0 {
        return 0;
    }
    proof {
        assert((lag as int) * (HOP_SIZE as int) >= 512) by (nonlinear_arith)
            requires
                lag as int >= 1,
        ;
        assert((lag as int) * (HOP_SIZE as int) <= 512_000_000) by (nonlinear_arith)
            requires
                lag as int <= 1_000_000,
        ;
        vstd::arithmetic::div_mod::lemma_div_pos_is_pos(
            6000 * (sample_rate as int),
            (lag as int) * (HOP_SIZE as int),
        );
        vstd::arithmetic::div_mod::lemma_div_is_ordered_by_denominator(
            6000 * (sample_rate as int),
            512,
            (lag as int) * (HOP_SIZE as int),
        );
    }
    let denom: u64 = (lag as u64) * (HOP_SIZE as u64);
    let bpm64: u64 = (6000u64 * (sample_rate as u64)) / denom;
    bpm64 as u32
}

/// Double a positive tempo by octaves until it reaches the floor; a
/// tempo already at the floor is untouched.
pub fn octave_fold_up(bpm_centi: u32, floor: u32) -> (r: u32)
    requires
        1 <= bpm_centi,
        bpm_centi <= 3_000_000,
        1 <= floor <= 20_000,
    ensures
        bpm_centi >= floor ==> r == bpm_centi,
        bpm_centi < floor ==> floor <= r < 2 * floor,
        r >= bpm_centi,
{
    let mut b = bpm_centi;
    while b < floor
        invariant
            1 <= b,
            floor <= 20_000,
            b >= bpm_centi,
            b < 2 * floor || b == bpm_centi,
            b >= floor && bpm_centi < floor ==> floor <= b < 2 * floor,
            b >= floor && bpm_centi >= floor ==> b == bpm_centi,
        decreases 2 * floor - b,
    {
        b = 2 * b;
    }
    b
}

/// Halve a tempo by octaves until it is at or below the ceiling; a tempo
/// already inside is untouched, and folding never undershoots half the
/// ceiling.
pub fn octave_fold_down(bpm_centi: u32, ceiling: u32) -> (r: u32)
    requires
        1 <= ceiling,
    ensures
        r <= ceiling,
        bpm_centi <= ceiling ==> r == bpm_centi,
        bpm_centi > ceiling ==> r >= ceiling / 2,
{
    let mut b = bpm_centi;
    while b > ceiling
        invariant
            bpm_centi <= ceiling ==> b == bpm_centi,
            bpm_centi > ceiling ==> b >= ceiling / 2,
        decreases b,
    {
        b = b / 2;
    }
    b
}

/// The distance from `t` to the nearest grid beat.
fn min_dist_exec(grid: &Vec<i64>, t: i64) -> (d: i64)
    requires
        grid.len() >= 1,
        grid.len() <= 1_000_000,
        0 <= t <= 0x1_0000_0000,
        forall|k: int| 0 <= k < grid@.len() ==> 0 <= #[trigger] grid@[k] <= 0x1_0000_0000,
    ensures
        d == min_dist_to(grid@, t as int, grid@.len() as int),
        0 <= d,
{
    let mut d: i64 = 0x7fff_ffff_ffff;
    let mut i: usize = 0;
    proof {
        assert(min_dist_to(grid@, t as int, 0) == 0x7fff_ffff_ffff);
    }
    while i < grid.len()
        invariant
            i <= grid@.len(),
            0 <= t <= 0x1_0000_0000,
            forall|k: int| 0 <= k < grid@.len() ==> 0 <= #[trigger] grid@[k] <= 0x1_0000_0000,
            d == min_dist_to(grid@, t as int, i as int),
            0 <= d <= 0x7fff_ffff_ffff,
        decreases grid@.len() - i,
    {
        let g = grid[i];
        let dist = if g >= t {
            g - t
        } else {
            t - g
        };
        if dist < d {
            d = dist;
        }
        i = i + 1;
    }
    d
}

} // verus!
