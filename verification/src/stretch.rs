//! Tempo resampling for deck playback.
//!
//! A deck plays its PCM at a variable rate: a tempo of `UNIT` (1.0) plays
//! at normal speed, `2 * UNIT` plays twice as fast.  Each call produces
//! exactly `frames_needed` stereo output frames.  Output frame `j` reads
//! the source frame at `position + j * tempo / UNIT`; once the source is
//! exhausted the remainder is zero-filled, matching the contract "the
//! caller receives exactly the frames it asked for, or the track has
//! ended and the tail is silence".

use vstd::prelude::*;

use crate::fixed::UNIT;

verus! {

/// The source frame that feeds output frame `j` at the given tempo.
pub open spec fn src_frame(position: int, tempo_ppm: int, j: int) -> int {
    position + (j * tempo_ppm) / (UNIT as int)
}

/// The expected output amplitude for output frame `j`, channel `ch`:
/// the source sample while the track lasts, silence after its end.
pub open spec fn stretched_sample(
    pcm: Seq<i64>,
    position: int,
    tempo_ppm: int,
    j: int,
    ch: int,
) -> int {
    let sf = src_frame(position, tempo_ppm, j);
    if sf < pcm.len() / 2 {
        pcm[2 * sf + ch] as int
    } else {
        0
    }
}

/// How many source frames one output chunk consumes: the span covered at
/// this tempo, capped at the end of the track.
pub open spec fn spec_consumed(
    total_frames: int,
    position: int,
    tempo_ppm: int,
    frames_needed: int,
) -> int {
    let span = (frames_needed * tempo_ppm) / (UNIT as int);
    if span <= total_frames - position {
        span
    } else {
        total_frames - position
    }
}

/// Fill `out` with exactly `frames_needed` stereo frames of `pcm` read at
/// `tempo_ppm` from `position`, zero-filling past the end of the track,
/// and report how many source frames were consumed.
pub fn stretch_chunk(
    pcm: &Vec<i64>,
    position: usize,
    tempo_ppm: i64,
    frames_needed: usize,
    out: &mut Vec<i64>,
) -> (consumed: usize)
    requires
        old(out).len() == 2 * frames_needed,
        pcm.len() % 2 == 0,
        pcm.len() <= 0x7fff_ffff,
        position <= pcm.len() / 2,
        500_000 <= tempo_ppm <= 2_000_000,
        frames_needed <= 0x1000_0000,
    ensures
        final(out).len() == 2 * frames_needed,
        forall|j: int, ch: int|
            0 <= j < frames_needed && 0 <= ch < 2 ==> final(out)@[2 * j + ch] == stretched_sample(
                pcm@,
                position as int,
                tempo_ppm as int,
                j,
                ch,
            ),
        consumed == spec_consumed(
            pcm.len() as int / 2,
            position as int,
            tempo_ppm as int,
            frames_needed as int,
        ),
        position + consumed <= pcm.len() / 2,
{
    let total_frames = pcm.len() / 2;
    let mut j: usize = 0;
    while j < frames_needed
        invariant
            j <= frames_needed,
            out.len() == 2 * frames_needed,
            pcm.len() % 2 == 0,
            pcm.len() <= 0x7fff_ffff,
            position <= pcm.len() / 2,
            total_frames == pcm.len() / 2,
            500_000 <= tempo_ppm <= 2_000_000,
            frames_needed <= 0x1000_0000,
            forall|i: int, ch: int|
                0 <= i < j && 0 <= ch < 2 ==> out@[2 * i + ch] == stretched_sample(
                    pcm@,
                    position as int,
                    tempo_ppm as int,
                    i,
                    ch,
                ),
        decreases frames_needed - j,
    {
        proof {
            assert((j as int) * (tempo_ppm as int) <= 0x1000_0000i64 * 2_000_000) by (nonlinear_arith)
                requires
                    0 <= j as int <= 0x1000_0000,
                    0 <= tempo_ppm as int <= 2_000_000,
            ;
            assert((j as int) * (tempo_ppm as int) >= 0) by (nonlinear_arith)
                requires
                    0 <= j as int,
                    0 <= tempo_ppm as int,
            ;
            vstd::arithmetic::div_mod::lemma_div_pos_is_pos((j as int) * (tempo_ppm as int), UNIT as int);
            vstd::arithmetic::div_mod::lemma_div_is_ordered(
                (j as int) * (tempo_ppm as int),
                0x1000_0000i64 * 2_000_000,
                UNIT as int,
            );
        }
        let step: i64 = ((j as i64) * tempo_ppm) / UNIT;
        let sf_i64: i64 = position as i64 + step;
        let ghost sf = src_frame(position as int, tempo_ppm as int, j as int);
        assert(sf_i64 == sf);
        let (l, r): (i64, i64) = if sf_i64 < total_frames as i64 {
            let sfu = sf_i64 as usize;
            assert(2 * sf + 1 < pcm@.len());
            (pcm[2 * sfu], pcm[2 * sfu + 1])
        } else {
            (0, 0)
        };
        out.set(2 * j, l);
        out.set(2 * j + 1, r);
        j = j + 1;
    }
    proof {
        assert((frames_needed as int) * (tempo_ppm as int) <= 0x1000_0000i64 * 2_000_000)
            by (nonlinear_arith)
            requires
                0 <= frames_needed as int <= 0x1000_0000,
                0 <= tempo_ppm as int <= 2_000_000,
        ;
        assert((frames_needed as int) * (tempo_ppm as int) >= 0) by (nonlinear_arith)
            requires
                0 <= frames_needed as int,
                0 <= tempo_ppm as int,
        ;
        vstd::arithmetic::div_mod::lemma_div_pos_is_pos(
            (frames_needed as int) * (tempo_ppm as int),
            UNIT as int,
        );
        vstd::arithmetic::div_mod::lemma_div_is_ordered(
            (frames_needed as int) * (tempo_ppm as int),
            0x1000_0000i64 * 2_000_000,
            UNIT as int,
        );
    }
    let span_i64: i64 = ((frames_needed as i64) * tempo_ppm) / UNIT;
    let span = span_i64 as usize;
    let remaining = total_frames - position;
    if span <= remaining {
        span
    } else {
        remaining
    }
}

} // verus!
