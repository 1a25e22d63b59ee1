//! Crossfader state and the constant-power gain curve.
//!
//! The fader position runs from 0 (deck A alone) to `UNIT` (deck B
//! alone).  The curve keeps perceived loudness constant: the squared
//! gains of the two decks always sum to full power, so each deck's gain
//! is the square root of its share.  An auto-crossfade animates the
//! position over a fixed number of frames and, on completion, snaps to
//! the target and stops the deck that was faded out.

use vstd::prelude::*;

use crate::fixed::{
    UNIT, tdiv, tdiv_i64, isqrt, spec_isqrt, lemma_mul_bounds_abs, lemma_tdiv_abs_le,
};

verus! {

/// Which deck fades out.
#[derive(Clone, Copy)]
pub enum CrossfadeDirection {
    AtoB,
    BtoA,
}

/// Crossfader state.  When no auto-fade is active only `position` is
/// meaningful.
pub struct CrossfadeState {
    /// Fader position in millionths: 0 is full A, `UNIT` is full B.
    pub position: i64,
    pub active: bool,
    pub direction: Option<CrossfadeDirection>,
    pub remaining_frames: usize,
    pub total_frames: usize,
    pub start_position: i64,
    pub target_position: i64,
}

pub open spec fn wf_xfade(c: CrossfadeState) -> bool {
    &&& 0 <= c.position <= UNIT
    &&& 0 <= c.start_position <= UNIT
    &&& 0 <= c.target_position <= UNIT
    &&& c.remaining_frames <= c.total_frames <= 0x7fff_ffff
    &&& (c.active ==> c.direction is Some)
}

/// The crossfade state after one chunk of `frames` frames: an inactive
/// or exhausted fade stands still; a fade that ends within the chunk
/// snaps to its target and deactivates; an ongoing fade loses the chunk
/// from its remaining count and interpolates the position between start
/// and target in proportion to the elapsed share.
pub open spec fn xfade_after(c: CrossfadeState, frames: int) -> CrossfadeState {
    if !(c.active && c.remaining_frames > 0) {
        c
    } else if c.remaining_frames <= frames {
        CrossfadeState {
            position: c.target_position,
            active: false,
            direction: None,
            remaining_frames: 0,
            ..c
        }
    } else {
        CrossfadeState {
            remaining_frames: (c.remaining_frames - frames) as usize,
            position: (c.start_position + tdiv(
                (c.target_position - c.start_position) * (c.total_frames - (c.remaining_frames
                    - frames)),
                c.total_frames as int,
            )) as i64,
            ..c
        }
    }
}

/// The direction of a fade that finishes within this chunk, if any.
pub open spec fn xfade_completion(c: CrossfadeState, frames: int) -> Option<CrossfadeDirection> {
    if c.active && 0 < c.remaining_frames <= frames {
        c.direction
    } else {
        None
    }
}

impl CrossfadeState {
    /// Fader at full A, no auto-fade.
    pub fn new() -> (c: CrossfadeState)
        ensures
            c.position == 0,
            !c.active,
            c.direction is None,
            c.remaining_frames == 0,
            c.total_frames == 0,
            c.start_position == 0,
            c.target_position == 0,
            wf_xfade(c),
    {
        CrossfadeState {
            position: 0,
            active: false,
            direction: None,
            remaining_frames: 0,
            total_frames: 0,
            start_position: 0,
            target_position: 0,
        }
    }

    /// Advance an active auto-fade by one chunk of `frames` frames.
    ///
    /// The remaining count falls by the chunk size, saturating at zero.
    /// While frames remain the position interpolates between start and
    /// target in proportion to the elapsed share; when the count reaches
    /// zero the position snaps to the target, the fade deactivates, and
    /// the direction it ran in is returned so the caller can stop the
    /// faded-out deck.
    pub fn advance(&mut self, frames: usize) -> (completed: Option<CrossfadeDirection>)
        requires
            wf_xfade(*old(self)),
            frames <= 0x100_000,
        ensures
            wf_xfade(*final(self)),
            *final(self) == xfade_after(*old(self), frames as int),
            completed == xfade_completion(*old(self), frames as int),
            final(self).total_frames == old(self).total_frames,
            final(self).start_position == old(self).start_position,
            final(self).target_position == old(self).target_position,
            !(old(self).active && old(self).remaining_frames > 0) ==> *final(self) == *old(self)
                && completed is None,
            old(self).active && 0 < old(self).remaining_frames <= frames ==> {
                &&& final(self).position == old(self).target_position
                &&& !final(self).active
                &&& final(self).direction is None
                &&& final(self).remaining_frames == 0
                &&& completed == old(self).direction
            },
            old(self).active && old(self).remaining_frames > frames ==> {
                &&& final(self).remaining_frames == old(self).remaining_frames - frames
                &&& final(self).position == old(self).start_position + tdiv(
                    (old(self).target_position - old(self).start_position) * (old(
                        self,
                    ).total_frames - (old(self).remaining_frames - frames)),
                    old(self).total_frames as int,
                )
                &&& final(self).active
                &&& final(self).direction == old(self).direction
                &&& completed is None
            },
    {
        if !self.active || self.remaining_frames == 0 {
            return None;
        }
        if self.remaining_frames <= frames {
            self.remaining_frames = 0;
            self.position = self.target_position;
            self.active = false;
            let dir = self.direction;
            self.direction = None;
            dir
        } else {
            self.remaining_frames = self.remaining_frames - frames;
            let elapsed: i64 = (self.total_frames - self.remaining_frames) as i64;
            let delta: i64 = self.target_position - self.start_position;
            proof {
                lemma_mul_bounds_abs(
                    delta as int,
                    elapsed as int,
                    UNIT as int,
                    self.total_frames as int,
                );
                assert((UNIT as int) * (self.total_frames as int) <= 0x7fff_ffff_000_000i64)
                    by (nonlinear_arith)
                    requires
                        self.total_frames as int <= 0x7fff_ffff,
                ;
            }
            let num: i64 = delta * elapsed;
            let off: i64 = tdiv_i64(num, self.total_frames as i64);
            proof {
                let d = delta as int;
                let x = elapsed as int;
                let tot = self.total_frames as int;
                if d >= 0 {
                    lemma_mul_bounds_abs(d, x, d, tot);
                    lemma_tdiv_abs_le(d * x, tot, d);
                    assert(d * x >= 0) by (nonlinear_arith)
                        requires
                            d >= 0,
                            x >= 0,
                    ;
                    crate::fixed::lemma_tdiv_within(d * x, tot);
                } else {
                    lemma_mul_bounds_abs(d, x, -d, tot);
                    lemma_tdiv_abs_le(d * x, tot, -d);
                    assert(d * x <= 0) by (nonlinear_arith)
                        requires
                            d < 0,
                            x >= 0,
                    ;
                    crate::fixed::lemma_tdiv_within(d * x, tot);
                }
            }
            self.position = self.start_position + off;
            None
        }
    }
}

/// Squared gain share of deck A at fader position `p`.
pub open spec fn spec_gain_sq_a(p: int) -> int {
    (UNIT - p) * (UNIT as int)
}

/// Squared gain share of deck B at fader position `p`.
pub open spec fn spec_gain_sq_b(p: int) -> int {
    p * (UNIT as int)
}

/// Constant-power law: at every fader position the squared gains of the
/// two decks sum to full power, so two playing decks keep constant
/// perceived loudness across the fader.
pub proof fn lemma_constant_power(p: int)
    requires
        0 <= p <= UNIT,
    ensures
        spec_gain_sq_a(p) + spec_gain_sq_b(p) == (UNIT as int) * (UNIT as int),
{
    assert((UNIT - p) * (UNIT as int) + p * (UNIT as int) == (UNIT as int) * (UNIT as int))
        by (nonlinear_arith);
}

/// Deck A's curve gain: the integer square root of its power share.
///
/// The curve is the square-root form of the constant-power law rather
/// than a trigonometric one: in millionths arithmetic the square root
/// keeps the two squared gains summing to full power exactly up to
/// rounding, where any fixed-point approximation of a cosine would
/// trade that equality for an unprovable error bound.  The two forms
/// agree at the ends and the midpoint of the fader's travel.
pub fn xfade_gain_a(p: i64) -> (g: i64)
    requires
        0 <= p <= UNIT,
    ensures
        g == spec_isqrt(spec_gain_sq_a(p as int)),
        g * g <= spec_gain_sq_a(p as int) < (g + 1) * (g + 1),
        0 <= g <= UNIT,
{
    proof {
        assert(((UNIT - p) as int) * (UNIT as int) < 0x4000_0000_0000_0000) by (nonlinear_arith)
            requires
                0 <= (UNIT - p) as int <= 1_000_000,
        ;
    }
    let x: u64 = ((UNIT - p) as u64) * (UNIT as u64);
    let g64 = isqrt(x);
    proof {
        assert(g64 <= 1_000_000) by (nonlinear_arith)
            requires
                (g64 as int) * (g64 as int) <= 1_000_000_000_000i64,
        ;
    }
    g64 as i64
}

/// Deck B's curve gain: the integer square root of its power share.
pub fn xfade_gain_b(p: i64) -> (g: i64)
    requires
        0 <= p <= UNIT,
    ensures
        g == spec_isqrt(spec_gain_sq_b(p as int)),
        g * g <= spec_gain_sq_b(p as int) < (g + 1) * (g + 1),
        0 <= g <= UNIT,
{
    proof {
        assert((p as int) * (UNIT as int) < 0x4000_0000_0000_0000) by (nonlinear_arith)
            requires
                0 <= p as int <= 1_000_000,
        ;
    }
    let x: u64 = (p as u64) * (UNIT as u64);
    let g64 = isqrt(x);
    proof {
        assert(g64 <= 1_000_000) by (nonlinear_arith)
            requires
                (g64 as int) * (g64 as int) <= 1_000_000_000_000i64,
        ;
    }
    g64 as i64
}

} // verus!
