//! A fixed-size stereo ring buffer for direct input-to-output
//! passthrough.
//!
//! The writer appends stereo frames, wrapping over the oldest data; the
//! reader consumes frames in order and hears silence when it catches up
//! with the writer.

use vstd::prelude::*;

verus! {

/// Capacity in frames: a tenth of a second of audio at the engine rate.
pub const RING_FRAMES: usize = 4410;

pub struct RingBuffer {
    pub buffer: Vec<i64>,
    pub write_pos: usize,
    pub read_pos: usize,
}

pub open spec fn wf_ring(r: RingBuffer) -> bool {
    &&& r.buffer@.len() == 2 * RING_FRAMES
    &&& r.read_pos <= r.write_pos
    &&& r.write_pos <= 0x7fff_ff00
}

impl RingBuffer {
    /// An empty ring of silence.
    pub fn new() -> (r: RingBuffer)
        ensures
            wf_ring(r),
            r.write_pos == 0,
            r.read_pos == 0,
            forall|k: int| 0 <= k < r.buffer@.len() ==> #[trigger] r.buffer@[k] == 0,
    {
        let mut buffer: Vec<i64> = Vec::new();
        let mut i: usize = 0;
        while i < 2 * RING_FRAMES
            invariant
                i <= 2 * RING_FRAMES,
                buffer@.len() == i,
                forall|k: int| 0 <= k < i ==> #[trigger] buffer@[k] == 0,
            decreases 2 * RING_FRAMES - i,
        {
            buffer.push(0);
            i = i + 1;
        }
        RingBuffer { buffer, write_pos: 0, read_pos: 0 }
    }

    /// Append one stereo frame, overwriting the oldest slot when full.
    pub fn write(&mut self, left: i64, right: i64)
        requires
            wf_ring(*old(self)),
            old(self).write_pos < 0x7fff_ff00,
        ensures
            wf_ring(*final(self)),
            final(self).write_pos == old(self).write_pos + 1,
            final(self).read_pos == old(self).read_pos,
            final(self).buffer@ == old(self).buffer@.update(
                2 * ((old(self).write_pos % RING_FRAMES) as int),
                left,
            ).update(2 * ((old(self).write_pos % RING_FRAMES) as int) + 1, right),
    {
        proof {
            vstd::arithmetic::div_mod::lemma_mod_division_less_than_divisor(
                old(self).write_pos as int,
                RING_FRAMES as int,
            );
        }
        let ghost wslot = old(self).write_pos as int % (RING_FRAMES as int);
        let idx = (self.write_pos % RING_FRAMES) * 2;
        proof {
            assert(wslot * 2 + 1 < 2 * RING_FRAMES && wslot * 2 == 2 * wslot) by (nonlinear_arith)
                requires
                    0 <= wslot,
                    wslot < RING_FRAMES as int,
            ;
        }
        self.buffer.set(idx, left);
        self.buffer.set(idx + 1, right);
        self.write_pos = self.write_pos + 1;
    }

    /// Read the next stereo frame; silence when no unread data remains.
    pub fn read(&mut self) -> (r: (i64, i64))
        requires
            wf_ring(*old(self)),
        ensures
            wf_ring(*final(self)),
            final(self).buffer@ == old(self).buffer@,
            final(self).write_pos == old(self).write_pos,
            old(self).write_pos <= old(self).read_pos ==> r == (0i64, 0i64) && final(self).read_pos == old(self).read_pos,
            old(self).write_pos > old(self).read_pos ==> final(self).read_pos == old(self).read_pos + 1 && r.0 == old(self).buffer@[2 * ((old(self).read_pos % RING_FRAMES) as int)]
                && r.1 == old(self).buffer@[2 * ((old(self).read_pos % RING_FRAMES) as int) + 1],
    {
        if self.write_pos <= self.read_pos {
            return (0, 0);
        }
        let ghost rslot = old(self).read_pos as int % (RING_FRAMES as int);
        proof {
            vstd::arithmetic::div_mod::lemma_mod_division_less_than_divisor(
                old(self).read_pos as int,
                RING_FRAMES as int,
            );
            assert(rslot * 2 + 1 < 2 * RING_FRAMES && rslot * 2 == 2 * rslot) by (nonlinear_arith)
                requires
                    0 <= rslot,
                    rslot < RING_FRAMES as int,
            ;
        }
        let idx = (self.read_pos % RING_FRAMES) * 2;
        let left = self.buffer[idx];
        let right = self.buffer[idx + 1];
        self.read_pos = self.read_pos + 1;
        (left, right)
    }
}

} // verus!
