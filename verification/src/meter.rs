//! Level metering with peak hold.
//!
//! Each deck has a live peak (the largest absolute sample of the last
//! chunk, scaled by the deck gain) and a held peak.  The held peak rides
//! on top of the live peak; after `HOLD_MS` without a new maximum it
//! decays exponentially, multiplying by `DECAY_PER_MS` (in millionths)
//! once per elapsed millisecond, which is six decibels per second of
//! perceptually linear release.  The held value never falls below the
//! live peak and never below zero.

use vstd::prelude::*;

use crate::fixed::{tdiv, tdiv_i64, lemma_mul_bounds_abs, lemma_tdiv_within};

verus! {

/// How long a new maximum is held before it starts to decay.
pub const HOLD_MS: i64 = 1500;

/// Per-millisecond decay factor in millionths: six decibels per second.
pub const DECAY_PER_MS: i64 = 999_309;

/// Upper bound for meter values: three bands of EQ headroom.
pub const PEAK_LIMIT: i64 = 6_000_000;

/// Per-deck meter state.  Ages are audio time in milliseconds since the
/// held value was last raised.
pub struct LevelMeterState {
    pub deck_a_peak: i64,
    pub deck_b_peak: i64,
    pub deck_a_peak_hold: i64,
    pub deck_b_peak_hold: i64,
    pub deck_a_hold_age_ms: i64,
    pub deck_b_hold_age_ms: i64,
}

pub open spec fn wf_side(peak: i64, hold: i64, age: i64) -> bool {
    &&& 0 <= peak <= PEAK_LIMIT
    &&& 0 <= hold <= PEAK_LIMIT
    &&& hold >= peak
    &&& 0 <= age <= AGE_CAP
}

/// Hold ages saturate here; anything beyond the hold time behaves alike.
pub const AGE_CAP: i64 = 1_000_000;

pub open spec fn wf_meter(m: LevelMeterState) -> bool {
    &&& wf_side(m.deck_a_peak, m.deck_a_peak_hold, m.deck_a_hold_age_ms)
    &&& wf_side(m.deck_b_peak, m.deck_b_peak_hold, m.deck_b_hold_age_ms)
}

impl LevelMeterState {
    pub fn new() -> (m: LevelMeterState)
        ensures
            m.deck_a_peak == 0 && m.deck_b_peak == 0,
            m.deck_a_peak_hold == 0 && m.deck_b_peak_hold == 0,
            m.deck_a_hold_age_ms == 0 && m.deck_b_hold_age_ms == 0,
            wf_meter(m),
    {
        LevelMeterState {
            deck_a_peak: 0,
            deck_b_peak: 0,
            deck_a_peak_hold: 0,
            deck_b_peak_hold: 0,
            deck_a_hold_age_ms: 0,
            deck_b_hold_age_ms: 0,
        }
    }
}

/// The largest absolute value among the first `n` samples.
pub open spec fn peak_of(s: Seq<i64>, n: int) -> int
    decreases n,
{
    if n <= 0 {
        0
    } else {
        let a = if s[n - 1] < 0 {
            -(s[n - 1] as int)
        } else {
            s[n - 1] as int
        };
        let rest = peak_of(s, n - 1);
        if a > rest {
            a
        } else {
            rest
        }
    }
}

/// The held value after `n` milliseconds of exponential decay.
pub open spec fn decay_steps(h: int, n: nat) -> int
    decreases n,
{
    if n == 0 {
        h
    } else {
        tdiv(decay_steps(h, (n - 1) as nat) * DECAY_PER_MS, 1_000_000)
    }
}

/// Decay keeps a value within `[0, start]`.
pub proof fn lemma_decay_bounds(h: int, n: nat)
    requires
        0 <= h <= PEAK_LIMIT,
    ensures
        0 <= decay_steps(h, n) <= h,
    decreases n,
{
    if n > 0 {
        lemma_decay_bounds(h, (n - 1) as nat);
        let prev = decay_steps(h, (n - 1) as nat);
        lemma_mul_bounds_abs(prev, DECAY_PER_MS as int, PEAK_LIMIT as int, 1_000_000);
        assert(prev * DECAY_PER_MS <= prev * 1_000_000) by (nonlinear_arith)
            requires
                0 <= prev,
                0 <= DECAY_PER_MS <= 1_000_000,
        ;
        vstd::arithmetic::div_mod::lemma_div_pos_is_pos(prev * DECAY_PER_MS, 1_000_000);
        vstd::arithmetic::div_mod::lemma_div_is_ordered(
            prev * DECAY_PER_MS,
            prev * 1_000_000,
            1_000_000,
        );
        vstd::arithmetic::div_mod::lemma_div_multiples_vanish(prev, 1_000_000);
    }
}

/// The sample count the meter reads for `frames` frames of `buffer`:
/// two channels per frame, never past the buffer.
pub open spec fn metered_samples(len: int, frames: int) -> int {
    if frames <= len / 2 {
        2 * frames
    } else {
        2 * (len / 2)
    }
}

/// Peak of the chunk as the meter sees it: the largest absolute sample
/// of up to `frames` stereo frames, shortened to what the buffer holds.
pub fn calculate_peak(buffer: &Vec<i64>, frames: usize) -> (p: i64)
    requires
        frames <= 0x1000_0000,
        forall|k: int| 0 <= k < buffer@.len() ==> -PEAK_LIMIT <= #[trigger] buffer@[k] <= PEAK_LIMIT,
    ensures
        p == peak_of(buffer@, metered_samples(buffer@.len() as int, frames as int)),
        0 <= p <= PEAK_LIMIT,
{
    let half = buffer.len() / 2;
    let avail = if frames <= half {
        frames
    } else {
        half
    };
    proof {
        vstd::arithmetic::div_mod::lemma_fundamental_div_mod(buffer@.len() as int, 2);
        vstd::arithmetic::div_mod::lemma_mod_division_less_than_divisor(buffer@.len() as int, 2);
    }
    let mut p: i64 = 0;
    let mut k: usize = 0;
    while k < 2 * avail
        invariant
            k <= 2 * avail,
            2 * avail <= buffer.len(),
            2 * avail == metered_samples(buffer@.len() as int, frames as int),
            forall|i: int| 0 <= i < buffer@.len() ==> -PEAK_LIMIT <= #[trigger] buffer@[i] <= PEAK_LIMIT,
            p == peak_of(buffer@, k as int),
            0 <= p <= PEAK_LIMIT,
        decreases 2 * avail - k,
    {
        let s = buffer[k];
        let a = if s < 0 {
            -s
        } else {
            s
        };
        if a > p {
            p = a;
        }
        k = k + 1;
    }
    p
}

/// The hold age after one update: zero on a rising peak, otherwise the
/// old age plus the elapsed time, saturating at `AGE_CAP`.
pub open spec fn hold_age_next(peak: int, hold: int, age: int, elapsed: int) -> int {
    if peak > hold {
        0
    } else if age + elapsed > AGE_CAP {
        AGE_CAP as int
    } else {
        age + elapsed
    }
}

/// The held value after one update: a rising live peak takes over;
/// otherwise the hold stands untouched until its age passes `HOLD_MS`,
/// and past that it decays one `DECAY_PER_MS` step per elapsed
/// millisecond, floored at the live peak.
pub open spec fn hold_next(peak: int, hold: int, age: int, elapsed: int) -> int {
    if peak > hold {
        peak
    } else if age + elapsed <= HOLD_MS {
        hold
    } else if peak <= decay_steps(hold, elapsed as nat) {
        decay_steps(hold, elapsed as nat)
    } else {
        peak
    }
}

/// Advance one deck's hold state by `elapsed_ms` of audio time, given the
/// deck's live peak for this chunk.
///
/// A rising peak becomes the new held value and resets the hold age; a
/// peak at or below the held value lets the hold age grow, and once the
/// age passes `HOLD_MS` the held value decays exponentially, floored at
/// the live peak.
pub fn hold_update(peak: i64, hold: i64, age_ms: i64, elapsed_ms: i64) -> (r: (i64, i64))
    requires
        0 <= peak <= PEAK_LIMIT,
        0 <= hold <= PEAK_LIMIT,
        0 <= age_ms <= AGE_CAP,
        0 <= elapsed_ms <= 1000,
    ensures
        r.0 == hold_next(peak as int, hold as int, age_ms as int, elapsed_ms as int),
        r.1 == hold_age_next(peak as int, hold as int, age_ms as int, elapsed_ms as int),
        r.0 >= peak,
        0 <= r.0 <= PEAK_LIMIT,
        0 <= r.1 <= AGE_CAP,
        peak > hold ==> r.0 == peak && r.1 == 0,
        peak <= hold ==> r.1 == (if age_ms + elapsed_ms > AGE_CAP {
            AGE_CAP as int
        } else {
            age_ms + elapsed_ms
        }),
        peak <= hold && age_ms + elapsed_ms <= HOLD_MS ==> r.0 == hold,
        peak <= hold && age_ms + elapsed_ms > HOLD_MS ==> r.0 == (if peak
            <= decay_steps(hold as int, elapsed_ms as nat) {
            decay_steps(hold as int, elapsed_ms as nat) as i64
        } else {
            peak
        }),
        peak <= hold ==> r.0 <= hold,
{
    if peak > hold {
        (peak, 0)
    } else {
        let age = if age_ms + elapsed_ms > AGE_CAP {
            AGE_CAP
        } else {
            age_ms + elapsed_ms
        };
        if age > HOLD_MS {
            let mut h = hold;
            let mut i: i64 = 0;
            while i < elapsed_ms
                invariant
                    0 <= i <= elapsed_ms,
                    0 <= hold <= PEAK_LIMIT,
                    h == decay_steps(hold as int, i as nat),
                    0 <= h <= hold,
                decreases elapsed_ms - i,
            {
                proof {
                    lemma_decay_bounds(hold as int, i as nat);
                    lemma_mul_bounds_abs(h as int, DECAY_PER_MS as int, PEAK_LIMIT as int, 1_000_000);
                    lemma_decay_bounds(hold as int, (i + 1) as nat);
                }
                h = tdiv_i64(h * DECAY_PER_MS, 1_000_000);
                i = i + 1;
            }
            proof {
                lemma_decay_bounds(hold as int, elapsed_ms as nat);
            }
            let floored = if peak <= h {
                h
            } else {
                peak
            };
            (floored, age)
        } else {
            (hold, age)
        }
    }
}

/// Advance both decks' peak-hold state by `elapsed_ms` of audio time.
///
/// Each deck follows `hold_next` and `hold_age_next`: a rising live
/// peak becomes the held value and resets the hold age to zero; an
/// unchanged or falling peak lets the age grow, and once it passes
/// `HOLD_MS` the held value decays by exactly one `DECAY_PER_MS` step
/// per elapsed millisecond, floored at the live peak and at zero.
pub fn update_peak_hold(levels: &mut LevelMeterState, elapsed_ms: i64)
    requires
        0 <= old(levels).deck_a_peak <= PEAK_LIMIT,
        0 <= old(levels).deck_b_peak <= PEAK_LIMIT,
        0 <= old(levels).deck_a_peak_hold <= PEAK_LIMIT,
        0 <= old(levels).deck_b_peak_hold <= PEAK_LIMIT,
        0 <= old(levels).deck_a_hold_age_ms <= AGE_CAP,
        0 <= old(levels).deck_b_hold_age_ms <= AGE_CAP,
        0 <= elapsed_ms <= 1000,
    ensures
        wf_meter(*final(levels)),
        final(levels).deck_a_peak == old(levels).deck_a_peak,
        final(levels).deck_b_peak == old(levels).deck_b_peak,
        final(levels).deck_a_peak_hold == hold_next(
            old(levels).deck_a_peak as int,
            old(levels).deck_a_peak_hold as int,
            old(levels).deck_a_hold_age_ms as int,
            elapsed_ms as int,
        ),
        final(levels).deck_a_hold_age_ms == hold_age_next(
            old(levels).deck_a_peak as int,
            old(levels).deck_a_peak_hold as int,
            old(levels).deck_a_hold_age_ms as int,
            elapsed_ms as int,
        ),
        final(levels).deck_b_peak_hold == hold_next(
            old(levels).deck_b_peak as int,
            old(levels).deck_b_peak_hold as int,
            old(levels).deck_b_hold_age_ms as int,
            elapsed_ms as int,
        ),
        final(levels).deck_b_hold_age_ms == hold_age_next(
            old(levels).deck_b_peak as int,
            old(levels).deck_b_peak_hold as int,
            old(levels).deck_b_hold_age_ms as int,
            elapsed_ms as int,
        ),
        final(levels).deck_a_peak_hold >= old(levels).deck_a_peak,
        final(levels).deck_b_peak_hold >= old(levels).deck_b_peak,
        old(levels).deck_a_peak <= old(levels).deck_a_peak_hold ==> final(levels).deck_a_peak_hold
            <= old(levels).deck_a_peak_hold,
        old(levels).deck_b_peak <= old(levels).deck_b_peak_hold ==> final(levels).deck_b_peak_hold
            <= old(levels).deck_b_peak_hold,
        old(levels).deck_a_peak > old(levels).deck_a_peak_hold ==> final(levels).deck_a_peak_hold
            == old(levels).deck_a_peak,
        old(levels).deck_b_peak > old(levels).deck_b_peak_hold ==> final(levels).deck_b_peak_hold
            == old(levels).deck_b_peak,
{
    let (ha, aa) = hold_update(
        levels.deck_a_peak,
        levels.deck_a_peak_hold,
        levels.deck_a_hold_age_ms,
        elapsed_ms,
    );
    levels.deck_a_peak_hold = ha;
    levels.deck_a_hold_age_ms = aa;
    let (hb, ab) = hold_update(
        levels.deck_b_peak,
        levels.deck_b_peak_hold,
        levels.deck_b_hold_age_ms,
        elapsed_ms,
    );
    levels.deck_b_peak_hold = hb;
    levels.deck_b_hold_age_ms = ab;
}

} // verus!
