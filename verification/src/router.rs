//! Channel routing: stereo mix and cue taps onto the device channels.
//!
//! Every output frame has `output_channels` slots, all silent unless
//! written.  The main mix goes to the configured main channels — both
//! sides when both are mapped, the mono fold to a single mapped side.
//! When at least one deck has cue enabled and a cue channel is mapped,
//! the cue-enabled decks' pre-mix signals are averaged, clamped, and
//! routed the same way; a cue write lands after the main write, so on a
//! shared channel the cue wins.  Every emitted sample is clamped to full
//! scale.

use vstd::prelude::*;

use crate::fixed::{UNIT, tdiv, tdiv_i64, clamp_unit, spec_clamp_unit, lemma_tdiv_within};
use crate::meter::PEAK_LIMIT;
use crate::mic::MIC_OUT_LIMIT;

verus! {

/// Output routing configuration.  A `None` slot is disabled; a mapped
/// slot holds a device channel index below `output_channels`.
#[derive(Clone, Copy)]
pub struct ChannelConfig {
    pub output_channels: u16,
    pub main_left: Option<u16>,
    pub main_right: Option<u16>,
    pub cue_left: Option<u16>,
    pub cue_right: Option<u16>,
    pub deck_a_cue: bool,
    pub deck_b_cue: bool,
}

pub open spec fn slot_ok(slot: Option<u16>, output_channels: int) -> bool {
    match slot {
        Some(i) => i < output_channels,
        None => true,
    }
}

pub open spec fn wf_config(c: ChannelConfig) -> bool {
    &&& 1 <= c.output_channels
    &&& slot_ok(c.main_left, c.output_channels as int)
    &&& slot_ok(c.main_right, c.output_channels as int)
    &&& slot_ok(c.cue_left, c.output_channels as int)
    &&& slot_ok(c.cue_right, c.output_channels as int)
}

pub open spec fn slot_idx(slot: Option<u16>) -> int {
    match slot {
        Some(i) => i as int,
        None => -1,
    }
}

impl ChannelConfig {
    /// Stereo out on channels 0 and 1, no cue routing.
    pub fn new() -> (c: ChannelConfig)
        ensures
            c.output_channels == 2,
            c.main_left == Some(0u16),
            c.main_right == Some(1u16),
            c.cue_left is None,
            c.cue_right is None,
            !c.deck_a_cue,
            !c.deck_b_cue,
            wf_config(c),
    {
        ChannelConfig {
            output_channels: 2,
            main_left: Some(0),
            main_right: Some(1),
            cue_left: None,
            cue_right: None,
            deck_a_cue: false,
            deck_b_cue: false,
        }
    }
}

/// How many decks contribute to the cue bus.
pub open spec fn cue_sources(c: ChannelConfig) -> int {
    (if c.deck_a_cue {
        1int
    } else {
        0int
    }) + (if c.deck_b_cue {
        1int
    } else {
        0int
    })
}

/// The cue bus is live: some deck taps it and some cue channel is mapped.
pub open spec fn cue_active(c: ChannelConfig) -> bool {
    cue_sources(c) > 0 && (c.cue_left is Some || c.cue_right is Some)
}

/// One cue-bus sample: the enabled decks summed, normalised by the
/// number of contributors, clamped to full scale.
pub open spec fn cue_value(c: ChannelConfig, a: int, b: int) -> int {
    let sum = (if c.deck_a_cue {
        a
    } else {
        0int
    }) + (if c.deck_b_cue {
        b
    } else {
        0int
    });
    if cue_sources(c) > 0 {
        spec_clamp_unit(tdiv(sum, cue_sources(c)))
    } else {
        0int
    }
}

/// The raw routed value of output channel `ch` for one frame, before the
/// final clamp.  Writes land in the order of the router: main first, cue
/// second, so on a shared channel the cue wins, and the right side of a
/// pair wins over the left.
pub open spec fn route_at(
    c: ChannelConfig,
    ml: int,
    mr: int,
    al: int,
    ar: int,
    bl: int,
    br: int,
    ch: int,
) -> int {
    let mono_main = tdiv(ml + mr, 2);
    let cue_l_val = cue_value(c, al, bl);
    let cue_r_val = cue_value(c, ar, br);
    let mono_cue = tdiv(cue_l_val + cue_r_val, 2);
    if cue_active(c) && c.cue_left is Some && c.cue_right is Some && ch == slot_idx(c.cue_right) {
        cue_r_val
    } else if cue_active(c) && c.cue_left is Some && c.cue_right is Some && ch == slot_idx(
        c.cue_left,
    ) {
        cue_l_val
    } else if cue_active(c) && c.cue_left is Some && c.cue_right is None && ch == slot_idx(
        c.cue_left,
    ) {
        mono_cue
    } else if cue_active(c) && c.cue_left is None && c.cue_right is Some && ch == slot_idx(
        c.cue_right,
    ) {
        mono_cue
    } else if c.main_left is Some && c.main_right is Some && ch == slot_idx(c.main_right) {
        mr
    } else if c.main_left is Some && c.main_right is Some && ch == slot_idx(c.main_left) {
        ml
    } else if c.main_left is Some && c.main_right is None && ch == slot_idx(c.main_left) {
        mono_main
    } else if c.main_left is None && c.main_right is Some && ch == slot_idx(c.main_right) {
        mono_main
    } else {
        0int
    }
}

/// Route one chunk onto the device channels.
///
/// The result holds `frames * output_channels` samples; sample
/// `f * output_channels + ch` is the routed value of channel `ch` for
/// frame `f`, clamped to full scale.
pub fn map_channels(
    mix: &Vec<i64>,
    frames: usize,
    output_channels: usize,
    config: &ChannelConfig,
    buffer_a: &Vec<i64>,
    buffer_b: &Vec<i64>,
) -> (out: Vec<i64>)
    requires
        frames <= 0x1000_0000,
        1 <= output_channels <= 0xffff,
        frames * output_channels <= 0x4000_0000,
        config.output_channels == output_channels,
        wf_config(*config),
        2 * frames <= mix.len(),
        2 * frames <= buffer_a.len(),
        2 * frames <= buffer_b.len(),
        forall|k: int| 0 <= k < mix@.len() ==> -MIC_OUT_LIMIT <= #[trigger] mix@[k] <= MIC_OUT_LIMIT,
        forall|k: int|
            0 <= k < buffer_a@.len() ==> -PEAK_LIMIT <= #[trigger] buffer_a@[k] <= PEAK_LIMIT,
        forall|k: int|
            0 <= k < buffer_b@.len() ==> -PEAK_LIMIT <= #[trigger] buffer_b@[k] <= PEAK_LIMIT,
    ensures
        out@.len() == frames * output_channels,
        forall|f: int, ch: int|
            0 <= f < frames && 0 <= ch < output_channels ==> #[trigger] out@[f * output_channels
                + ch] == spec_clamp_unit(
                route_at(
                    *config,
                    mix@[2 * f] as int,
                    mix@[2 * f + 1] as int,
                    buffer_a@[2 * f] as int,
                    buffer_a@[2 * f + 1] as int,
                    buffer_b@[2 * f] as int,
                    buffer_b@[2 * f + 1] as int,
                    ch,
                ),
            ),
        forall|k: int| 0 <= k < out@.len() ==> -UNIT <= #[trigger] out@[k] <= UNIT,
{
    let oc = output_channels;
    let n = frames * oc;
    let mut out: Vec<i64> = Vec::new();
    let mut z: usize = 0;
    while z < n
        invariant
            z <= n,
            out@.len() == z,
            forall|k: int| 0 <= k < z ==> #[trigger] out@[k] == 0,
        decreases n - z,
    {
        out.push(0);
        z = z + 1;
    }

    let cue_on = (config.deck_a_cue || config.deck_b_cue) && (config.cue_left.is_some()
        || config.cue_right.is_some());
    let sources: i64 = (if config.deck_a_cue {
        1i64
    } else {
        0i64
    }) + (if config.deck_b_cue {
        1i64
    } else {
        0i64
    });

    let mut f: usize = 0;
    while f < frames
        invariant
            f <= frames,
            frames <= 0x1000_0000,
            1 <= oc <= 0xffff,
            oc == output_channels,
            frames * oc <= 0x4000_0000,
            n == frames * oc,
            out@.len() == n,
            config.output_channels == oc,
            wf_config(*config),
            2 * frames <= mix.len(),
            2 * frames <= buffer_a.len(),
            2 * frames <= buffer_b.len(),
            forall|k: int|
                0 <= k < mix@.len() ==> -MIC_OUT_LIMIT <= #[trigger] mix@[k] <= MIC_OUT_LIMIT,
            forall|k: int|
                0 <= k < buffer_a@.len() ==> -PEAK_LIMIT <= #[trigger] buffer_a@[k] <= PEAK_LIMIT,
            forall|k: int|
                0 <= k < buffer_b@.len() ==> -PEAK_LIMIT <= #[trigger] buffer_b@[k] <= PEAK_LIMIT,
            cue_on == cue_active(*config),
            sources == cue_sources(*config),
            forall|g: int, ch: int|
                0 <= g < f && 0 <= ch < oc ==> #[trigger] out@[g * oc + ch] == route_at(
                    *config,
                    mix@[2 * g] as int,
                    mix@[2 * g + 1] as int,
                    buffer_a@[2 * g] as int,
                    buffer_a@[2 * g + 1] as int,
                    buffer_b@[2 * g] as int,
                    buffer_b@[2 * g + 1] as int,
                    ch,
                ),
            forall|k: int| f * oc <= k < n ==> #[trigger] out@[k] == 0,
        decreases frames - f,
    {
        proof {
            assert(f * oc + oc <= frames * oc) by (nonlinear_arith)
                requires
                    0 <= f < frames,
                    oc >= 1,
            ;
            assert(0 <= f * oc) by (nonlinear_arith)
                requires
                    0 <= f,
                    oc >= 1,
            ;
            assert(2 * f + 1 < 2 * frames);
        }
        let fb = f * oc;
        let ml = mix[2 * f];
        let mr = mix[2 * f + 1];
        let mono_main = tdiv_i64(ml + mr, 2);
        proof {
            lemma_tdiv_within(ml as int + mr as int, 2);
        }

        if let (Some(l), Some(r)) = (config.main_left, config.main_right) {
            out.set(fb + l as usize, ml);
            out.set(fb + r as usize, mr);
        } else if let Some(l) = config.main_left {
            out.set(fb + l as usize, mono_main);
        } else if let Some(r) = config.main_right {
            out.set(fb + r as usize, mono_main);
        }

        if cue_on {
            let al = buffer_a[2 * f];
            let ar = buffer_a[2 * f + 1];
            let bl = buffer_b[2 * f];
            let br = buffer_b[2 * f + 1];
            let sum_l: i64 = (if config.deck_a_cue {
                al
            } else {
                0i64
            }) + (if config.deck_b_cue {
                bl
            } else {
                0i64
            });
            let sum_r: i64 = (if config.deck_a_cue {
                ar
            } else {
                0i64
            }) + (if config.deck_b_cue {
                br
            } else {
                0i64
            });
            proof {
                lemma_tdiv_within(sum_l as int, sources as int);
                lemma_tdiv_within(sum_r as int, sources as int);
            }
            let cue_l_val = clamp_unit(tdiv_i64(sum_l, sources));
            let cue_r_val = clamp_unit(tdiv_i64(sum_r, sources));
            let mono_cue = tdiv_i64(cue_l_val + cue_r_val, 2);
            proof {
                assert(cue_l_val == cue_value(*config, al as int, bl as int));
                assert(cue_r_val == cue_value(*config, ar as int, br as int));
            }
            if let (Some(l), Some(r)) = (config.cue_left, config.cue_right) {
                out.set(fb + l as usize, cue_l_val);
                out.set(fb + r as usize, cue_r_val);
            } else if let Some(l) = config.cue_left {
                out.set(fb + l as usize, mono_cue);
            } else if let Some(r) = config.cue_right {
                out.set(fb + r as usize, mono_cue);
            }
        }

        proof {
            assert forall|ch: int| 0 <= ch < oc implies #[trigger] out@[f * oc + ch] == route_at(
                *config,
                mix@[2 * f] as int,
                mix@[2 * f + 1] as int,
                buffer_a@[2 * f] as int,
                buffer_a@[2 * f + 1] as int,
                buffer_b@[2 * f] as int,
                buffer_b@[2 * f + 1] as int,
                ch,
            ) by {
                assert(out@.len() == n);
            }
            assert forall|g: int, ch: int| 0 <= g < f && 0 <= ch < oc implies #[trigger] out@[g
                * oc + ch] == route_at(
                *config,
                mix@[2 * g] as int,
                mix@[2 * g + 1] as int,
                buffer_a@[2 * g] as int,
                buffer_a@[2 * g + 1] as int,
                buffer_b@[2 * g] as int,
                buffer_b@[2 * g + 1] as int,
                ch,
            ) by {
                assert(g * oc + ch < f * oc) by (nonlinear_arith)
                    requires
                        0 <= g < f,
                        0 <= ch < oc,
                ;
                assert(g * oc + ch >= 0) by (nonlinear_arith)
                    requires
                        0 <= g,
                        0 <= ch,
                        oc >= 1,
                ;
            }
        }
        f = f + 1;
        proof {
            assert forall|k: int| f * oc <= k < n implies #[trigger] out@[k] == 0 by {
                assert((f - 1) * oc + oc == f * oc) by (nonlinear_arith);
            }
        }
    }

    let ghost raw = out@;
    let mut k: usize = 0;
    while k < n
        invariant
            k <= n,
            out@.len() == n,
            raw.len() == n,
            forall|j: int|
                0 <= j < k ==> #[trigger] out@[j] == spec_clamp_unit(raw[j] as int),
            forall|j: int| 0 <= j < k ==> -UNIT <= #[trigger] out@[j] <= UNIT,
            forall|j: int| k <= j < n ==> #[trigger] out@[j] == raw[j],
        decreases n - k,
    {
        let v = clamp_unit(out[k]);
        out.set(k, v);
        k = k + 1;
    }
    proof {
        assert forall|f2: int, ch: int|
            0 <= f2 < frames && 0 <= ch < output_channels implies #[trigger] out@[f2
            * output_channels + ch] == spec_clamp_unit(
            route_at(
                *config,
                mix@[2 * f2] as int,
                mix@[2 * f2 + 1] as int,
                buffer_a@[2 * f2] as int,
                buffer_a@[2 * f2 + 1] as int,
                buffer_b@[2 * f2] as int,
                buffer_b@[2 * f2 + 1] as int,
                ch,
            ),
        ) by {
            let j = f2 * (output_channels as int) + ch;
            assert(0 <= j < n) by (nonlinear_arith)
                requires
                    j == f2 * (output_channels as int) + ch,
                    0 <= f2 < frames,
                    0 <= ch < output_channels,
                    n == frames * output_channels,
            ;
            assert(raw[j] == route_at(
                *config,
                mix@[2 * f2] as int,
                mix@[2 * f2 + 1] as int,
                buffer_a@[2 * f2] as int,
                buffer_a@[2 * f2 + 1] as int,
                buffer_b@[2 * f2] as int,
                buffer_b@[2 * f2 + 1] as int,
                ch,
            ));
            assert(out@[j] == spec_clamp_unit(raw[j] as int));
        }
    }
        out
}

} // verus!
