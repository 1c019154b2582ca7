//! The two sides of the running engine.
//!
//! The audio side owns the handoff's reader and the peak tracker and
//! drives one block at a time: pull the latest table, shape the block,
//! feed the extrema into the peaks.  The control side rebuilds or
//! normalizes a table and publishes it.  Which published table a block
//! sees depends on thread timing, so the block contract speaks of some
//! well-formed table; everything else — the gain staging, the extrema and
//! the peak update — is exact.

use vstd::prelude::*;
use vstd::string::StringSliceAdditionalSpecFns;

use crate::handoff::{table_handoff, TablePublisher, TableReader};
use crate::peak::{next_peak_max, next_peak_min, PeakTracker};
use crate::shaper::{block_max, block_min, max_mag, prompt_outcome, shaped_sample, Shaper};
use crate::{fixed::fdiv, ShaperError, GAIN_LIMIT, PEAK_LIMIT, SAMPLE_LIMIT};

verus! {

/// One block's worth of shaping, against some table of at least two
/// entries: every sample is pre-gained, looked up, post-gained.
pub open spec fn block_shaped_by(
    t: Seq<i64>,
    before: Seq<i64>,
    after: Seq<i64>,
    pre: int,
    post: int,
) -> bool {
    &&& 2 <= t.len()
    &&& after.len() == before.len()
    &&& forall|i: int|
        0 <= i < after.len() ==> #[trigger] after[i] as int == shaped_sample(
            t,
            before[i] as int,
            pre,
            post,
        )
}

/// The realtime side: the reader half of the handoff and the decaying
/// peaks, driven once per audio block.
pub struct AudioEngine {
    reader: TableReader,
    peaks: PeakTracker,
}

impl View for AudioEngine {
    type V = (i64, i64);

    closed spec fn view(&self) -> (i64, i64) {
        self.peaks@
    }
}

/// Start an engine around an initial table: the control side gets the
/// publisher, the audio side the reader and peaks reset to zero.
pub fn start_engine(initial: &Shaper) -> (r: (TablePublisher, AudioEngine))
    ensures
        r.1@ == (0i64, 0i64),
{
    let (publisher, reader) = table_handoff(initial);
    (publisher, AudioEngine { reader, peaks: PeakTracker::new() })
}

impl AudioEngine {
    /// One audio block: pull the latest published table without blocking,
    /// shape the block through it, and feed the block extrema into the
    /// peaks.  The extrema and the peak update are exact functions of the
    /// input block; the shaped samples are exact with respect to the
    /// table the pull returned.
    pub fn process_block(
        &mut self,
        samples: &mut Vec<i64>,
        pre_gain: i64,
        post_gain: i64,
        decay_rate: i64,
    ) -> (extrema: (i64, i64))
        requires
            0 <= pre_gain <= GAIN_LIMIT,
            0 <= post_gain <= GAIN_LIMIT,
            forall|i: int|
                0 <= i < old(samples)@.len() ==> -SAMPLE_LIMIT <= #[trigger] old(samples)@[i]
                    <= SAMPLE_LIMIT,
        ensures
            exists|t: Seq<i64>|
                block_shaped_by(
                    t,
                    old(samples)@,
                    final(samples)@,
                    pre_gain as int,
                    post_gain as int,
                ),
            extrema.0 as int == block_max(old(samples)@, pre_gain as int),
            extrema.1 as int == block_min(old(samples)@, pre_gain as int),
            final(self)@.0 == next_peak_max(old(self)@.0 as int, extrema.0 as int, decay_rate as int),
            final(self)@.1 == next_peak_min(old(self)@.1 as int, extrema.1 as int, decay_rate as int),
    {
        let table: &Shaper = self.reader.latest();
        let (bmax, bmin) = table.process_block(samples, pre_gain, post_gain);
        proof {
            assert(block_shaped_by(
                table@,
                old(samples)@,
                samples@,
                pre_gain as int,
                post_gain as int,
            ));
        }
        self.peaks.update(bmax, bmin, decay_rate);
        (bmax, bmin)
    }

    /// The current peaks, for display; never blocks.
    pub fn peaks(&self) -> (r: (i64, i64))
        ensures
            r == self@,
    {
        self.peaks.read()
    }
}

/// A rebuild request on the control side: rebuild `current` from the
/// text and publish the new table on success.  On failure nothing is
/// published and the audio side keeps the table it has.
pub fn rebuild_and_publish(current: &mut Shaper, publisher: &mut TablePublisher, text: &str) -> (r:
    Result<(), ShaperError>)
    ensures
        prompt_outcome(old(current)@, final(current)@, text.spec_bytes(), r),
{
    let r = current.prompt(text);
    if r.is_ok() {
        publisher.publish(current.clone());
    }
    r
}

/// A normalize request on the control side: peak-normalize `current` and
/// publish it.
pub fn normalize_and_publish(current: &mut Shaper, publisher: &mut TablePublisher)
    ensures
        final(current)@.len() == old(current)@.len(),
        max_mag(old(current)@) == 0 ==> final(current)@ == old(current)@,
        max_mag(old(current)@) > 0 ==> forall|i: int|
            0 <= i < final(current)@.len() ==> #[trigger] final(current)@[i] as int == fdiv(
                old(current)@[i] as int,
                max_mag(old(current)@),
            ),
{
    current.normalize();
    publisher.publish(current.clone());
}

} // verus!
