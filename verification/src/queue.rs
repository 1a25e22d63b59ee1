//! The sample queue between the processing task and the output device.
//!
//! The processing task pushes whole chunks while the queue sits below
//! twice its target depth; the output callback pops one sample at a time
//! and substitutes silence on underrun.  Guarding every push behind
//! `needs_fill` keeps the queue no longer than the high-water mark plus
//! one chunk.

use std::collections::VecDeque;

use vstd::prelude::*;

use crate::fixed::UNIT;

verus! {

/// Largest chunk the engine ever pushes, in samples: one chunk of 2048
/// frames at the widest possible device channel count.
pub const CHUNK_SAMPLES_MAX: usize = 2048 * 0xffff;

pub struct SampleQueue {
    pub buf: VecDeque<i64>,
    /// Target depth in samples; pushes are allowed below twice this.
    pub target_samples: usize,
}

pub open spec fn wf_queue(q: SampleQueue) -> bool {
    &&& q.target_samples <= 0x1000_0000
    &&& q.buf@.len() <= 2 * q.target_samples + CHUNK_SAMPLES_MAX
    &&& forall|k: int| 0 <= k < q.buf@.len() ==> -UNIT <= #[trigger] q.buf@[k] <= UNIT
}

impl SampleQueue {
    pub fn new(target_samples: usize) -> (q: SampleQueue)
        requires
            target_samples <= 0x1000_0000,
        ensures
            q.buf@.len() == 0,
            q.target_samples == target_samples,
            wf_queue(q),
    {
        SampleQueue { buf: VecDeque::new(), target_samples }
    }

    pub fn len(&self) -> (n: usize)
        ensures
            n == self.buf@.len(),
    {
        self.buf.len()
    }

    /// The processing task refills while the queue is below twice the
    /// target depth.
    pub fn needs_fill(&self) -> (r: bool)
        requires
            wf_queue(*self),
        ensures
            r == (self.buf@.len() < 2 * self.target_samples),
    {
        self.buf.len() < 2 * self.target_samples
    }

    /// Append one chunk.  Only called below the refill mark, which keeps
    /// the queue within the high-water mark plus one chunk.
    pub fn push_chunk(&mut self, chunk: &Vec<i64>)
        requires
            wf_queue(*old(self)),
            old(self).buf@.len() < 2 * old(self).target_samples,
            chunk.len() <= CHUNK_SAMPLES_MAX,
            forall|k: int| 0 <= k < chunk@.len() ==> -UNIT <= #[trigger] chunk@[k] <= UNIT,
        ensures
            wf_queue(*final(self)),
            final(self).target_samples == old(self).target_samples,
            final(self).buf@ == old(self).buf@ + chunk@,
    {
        let mut i: usize = 0;
        while i < chunk.len()
            invariant
                i <= chunk.len(),
                self.target_samples == old(self).target_samples,
                self.buf@ == old(self).buf@ + chunk@.take(i as int),
                forall|k: int| 0 <= k < chunk@.len() ==> -UNIT <= #[trigger] chunk@[k] <= UNIT,
            decreases chunk.len() - i,
        {
            let ghost before = self.buf@;
            self.buf.push_back(chunk[i]);
            proof {
                assert(chunk@.take(i as int + 1) =~= chunk@.take(i as int).push(chunk@[i as int]));
                assert(self.buf@ =~= old(self).buf@ + chunk@.take(i as int + 1));
            }
            i = i + 1;
        }
        proof {
            assert(chunk@.take(chunk@.len() as int) =~= chunk@);
        }
    }

    /// Pop one sample for the output device; silence on underrun.
    pub fn pop_sample(&mut self) -> (s: i64)
        requires
            wf_queue(*old(self)),
        ensures
            wf_queue(*final(self)),
            final(self).target_samples == old(self).target_samples,
            old(self).buf@.len() > 0 ==> s == old(self).buf@[0] && final(self).buf@ == old(
                self,
            ).buf@.skip(1),
            old(self).buf@.len() == 0 ==> s == 0 && final(self).buf@ == old(self).buf@,
            -UNIT <= s <= UNIT,
    {
        match self.buf.pop_front() {
            Some(v) => {
                proof {
                    assert(old(self).buf@.subrange(1, old(self).buf@.len() as int) =~= old(
                        self,
                    ).buf@.skip(1));
                }
                v
            },
            None => 0,
        }
    }

    pub fn clear(&mut self)
        ensures
            final(self).buf@.len() == 0,
            final(self).target_samples == old(self).target_samples,
            old(self).target_samples <= 0x1000_0000 ==> wf_queue(*final(self)),
    {
        self.buf.clear();
    }
}

} // verus!
