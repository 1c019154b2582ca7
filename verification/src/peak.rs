//! The decaying peak tracker: per block, a new extreme replaces the stored
//! peak, and otherwise the stored peak decays toward zero by the decay
//! rate.

use vstd::prelude::*;

use crate::fixed::{mag, mag_u64};
use crate::{PEAK_LIMIT, SCALE};

verus! {

/// Decay rates are taken in [0, 1]; anything outside is clamped first.
pub open spec fn clamp_rate(d: int) -> int {
    if d < 0 {
        0
    } else if d > SCALE as int {
        SCALE as int
    } else {
        d
    }
}

/// One decay step toward zero: scale the peak by (1 - rate), rounding the
/// magnitude down.  `d` is an already clamped rate.
pub open spec fn decayed(p: int, d: int) -> int {
    if p >= 0 {
        (p * ((SCALE as int) - d)) / (SCALE as int)
    } else {
        -(((-p) * ((SCALE as int) - d)) / (SCALE as int))
    }
}

/// The next stored maximum: the block maximum if it exceeds the stored
/// peak, the decayed peak otherwise.
pub open spec fn next_peak_max(p: int, block_max: int, rate: int) -> int {
    if block_max > p {
        block_max
    } else {
        decayed(p, clamp_rate(rate))
    }
}

/// The next stored minimum: the block minimum if it falls below the stored
/// peak, the decayed peak otherwise.
pub open spec fn next_peak_min(p: int, block_min: int, rate: int) -> int {
    if block_min < p {
        block_min
    } else {
        decayed(p, clamp_rate(rate))
    }
}

/// One decay step, executable.
fn decay_exec(p: i64, rate: i64) -> (r: i64)
    requires
        -PEAK_LIMIT <= p <= PEAK_LIMIT,
    ensures
        r == decayed(p as int, clamp_rate(rate as int)),
        mag(r as int) <= mag(p as int),
{
    let d: i64 = if rate < 0 {
        0
    } else if rate > SCALE {
        SCALE
    } else {
        rate
    };
    let factor: u64 = (SCALE - d) as u64;
    let mp: u64 = mag_u64(p);
    assert(mp * factor <= 4_000_000_000_000u64 * 1_000_000u64) by (nonlinear_arith)
        requires
            mp <= 4_000_000_000_000u64,
            factor <= 1_000_000u64,
    ;
    let prod: u64 = mp * factor;
    let q: u64 = prod / 1_000_000u64;
    assert(prod / 1_000_000u64 <= mp) by (nonlinear_arith)
        requires
            prod == mp * factor,
            factor <= 1_000_000u64,
    ;
    proof {
        if p >= 0 {
            assert(prod == (p as int) * ((SCALE as int) - d));
        } else {
            assert(prod == (-(p as int)) * ((SCALE as int) - d));
        }
    }
    if p < 0 {
        -(q as i64)
    } else {
        q as i64
    }
}

/// The next stored maximum, executable; shared by the tracker and by any
/// caller that keeps the two peaks in its own cells.
pub fn next_max(p: i64, block_max: i64, rate: i64) -> (r: i64)
    requires
        -PEAK_LIMIT <= p <= PEAK_LIMIT,
        -PEAK_LIMIT <= block_max <= PEAK_LIMIT,
    ensures
        r == next_peak_max(p as int, block_max as int, rate as int),
        -PEAK_LIMIT <= r <= PEAK_LIMIT,
{
    if block_max > p {
        block_max
    } else {
        decay_exec(p, rate)
    }
}

/// The next stored minimum, executable.
pub fn next_min(p: i64, block_min: i64, rate: i64) -> (r: i64)
    requires
        -PEAK_LIMIT <= p <= PEAK_LIMIT,
        -PEAK_LIMIT <= block_min <= PEAK_LIMIT,
    ensures
        r == next_peak_min(p as int, block_min as int, rate as int),
        -PEAK_LIMIT <= r <= PEAK_LIMIT,
{
    if block_min < p {
        block_min
    } else {
        decay_exec(p, rate)
    }
}

/// Running maximum and minimum observed sample values, decayed once per
/// block; reset to zero only at construction.
pub struct PeakTracker {
    peak_max: i64,
    peak_min: i64,
}

impl View for PeakTracker {
    type V = (i64, i64);

    closed spec fn view(&self) -> (i64, i64) {
        (self.peak_max, self.peak_min)
    }
}

impl PeakTracker {
    /// Both peaks stay in the range the block processor can produce.
    #[verifier::type_invariant]
    spec fn wf(self) -> bool {
        -PEAK_LIMIT <= self.peak_max <= PEAK_LIMIT && -PEAK_LIMIT <= self.peak_min <= PEAK_LIMIT
    }

    /// A fresh tracker: both peaks at zero.
    pub fn new() -> (t: PeakTracker)
        ensures
            t@ == (0i64, 0i64),
    {
        PeakTracker { peak_max: 0, peak_min: 0 }
    }

    /// The current peaks, for display.
    pub fn read(&self) -> (r: (i64, i64))
        ensures
            r == self@,
    {
        (self.peak_max, self.peak_min)
    }

    /// Feed one block's extrema into the tracker.
    pub fn update(&mut self, block_max: i64, block_min: i64, rate: i64)
        requires
            -PEAK_LIMIT <= block_max <= PEAK_LIMIT,
            -PEAK_LIMIT <= block_min <= PEAK_LIMIT,
        ensures
            final(self)@.0 == next_peak_max(old(self)@.0 as int, block_max as int, rate as int),
            final(self)@.1 == next_peak_min(old(self)@.1 as int, block_min as int, rate as int),
    {
        proof {
            use_type_invariant(&*self);
        }
        self.peak_max = next_max(self.peak_max, block_max, rate);
        self.peak_min = next_min(self.peak_min, block_min, rate);
    }
}

} // verus!
