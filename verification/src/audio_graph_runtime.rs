//! Callback timing counters for the audio graph: per-callback totals, missed
//! deadlines, and a fixed one-microsecond histogram for percentiles.
use vstd::prelude::*;

verus! {

pub const TIMING_HISTOGRAM_BUCKET_NANOSECONDS: u64 = 1000;
pub const TIMING_HISTOGRAM_BUCKETS: usize = 8193;

/// A plan compilation failure with its message.
#[derive(Clone, Debug, PartialEq, Eq)]
pub struct PlanError(pub String);

impl PlanError {
    pub fn new(message: &str) -> (r: Self)
        ensures
            r.0@ == message@,
    {
        PlanError(message.to_owned())
    }
}

#[derive(Clone, Copy, Debug, PartialEq, Eq, Structural)]
pub enum ProcessStatus {
    Complete,
    OversizedBlock,
}

#[derive(Clone, Copy, Debug, Default, PartialEq, Eq, Structural)]
pub struct CallbackTimingSnapshot {
    pub callbacks: u64,
    pub total_nanoseconds: u64,
    pub maximum_nanoseconds: u64,
    pub p95_nanoseconds: u64,
    pub p99_nanoseconds: u64,
    pub missed_deadlines: u64,
    pub oversized_callbacks: u64,
}

impl CallbackTimingSnapshot {
    /// Mean callback time, or zero before the first callback.
    pub fn mean_nanoseconds(self) -> (r: u64)
        ensures
            r == if self.callbacks == 0 {
                0
            } else {
                (self.total_nanoseconds / self.callbacks) as u64
            },
    {
        if self.callbacks == 0 {
            0
        } else {
            self.total_nanoseconds / self.callbacks
        }
    }
}

/// `x + 1` as an unsigned 64-bit counter that wraps.
pub open spec fn inc(x: u64) -> u64 {
    if x == u64::MAX {
        0
    } else {
        (x + 1) as u64
    }
}

/// `a + b` as an unsigned 64-bit counter that wraps.
pub open spec fn wrapping_sum(a: u64, b: u64) -> u64 {
    if a + b > u64::MAX {
        (a + b - u64::MAX - 1) as u64
    } else {
        (a + b) as u64
    }
}

/// The histogram bucket of an elapsed time: whole microseconds rounded up,
/// the last bucket collecting everything longer.
pub open spec fn bucket_of(elapsed: u64) -> int {
    let rounded = if elapsed + 999 > u64::MAX { u64::MAX as int } else { elapsed + 999 };
    let b = rounded / 1000;
    if b > 8192 {
        8192
    } else {
        b
    }
}

/// The callback deadline in nanoseconds for a block, zero when the sample
/// rate is zero.
pub open spec fn deadline_of(frames: u32, sample_rate: u32) -> int {
    let product = if frames * 1_000_000_000 > u64::MAX { u64::MAX as int } else { frames * 1_000_000_000 };
    if sample_rate == 0 {
        0
    } else {
        product / (sample_rate as int)
    }
}

/// Sum of the first `i` buckets.
pub open spec fn prefix_total(h: Seq<u64>, i: int) -> int
    decreases i,
{
    if i <= 0 {
        0
    } else {
        prefix_total(h, i - 1) + h[i - 1]
    }
}

/// The percentile read from the histogram, scanning from bucket `i`.
pub open spec fn percentile_from(h: Seq<u64>, target: int, i: int, maximum: u64) -> u64
    decreases h.len() - i,
{
    if i < 0 || i >= h.len() {
        maximum
    } else if prefix_total(h, i + 1) >= target {
        if i == h.len() - 1 {
            maximum
        } else {
            (i * 1000) as u64
        }
    } else {
        percentile_from(h, target, i + 1, maximum)
    }
}

/// The smallest bucket (in nanoseconds) by which `percentile` percent of the
/// samples are counted; the recorded maximum stands for the overflow bucket;
/// zero when nothing was recorded.
pub open spec fn spec_percentile(h: Seq<u64>, percentile: u64, maximum: u64) -> u64 {
    let samples = prefix_total(h, h.len() as int);
    if samples == 0 {
        0
    } else {
        percentile_from(h, target_of(samples, percentile), 0, maximum)
    }
}

/// The number of samples a percentile must cover, computed with saturating
/// 64-bit arithmetic and rounded up.
pub open spec fn target_of(samples: int, percentile: u64) -> int {
    let product = if samples * percentile > u64::MAX { u64::MAX as int } else { samples * percentile };
    (if product + 99 > u64::MAX { u64::MAX as int } else { product + 99 }) / 100
}

/// Counters written once per audio callback and sampled by the owner.
pub struct CallbackTimingCounters {
    callbacks: u64,
    total_nanoseconds: u64,
    maximum_nanoseconds: u64,
    missed_deadlines: u64,
    oversized_callbacks: u64,
    histogram: [u64; 8193],
}

impl CallbackTimingCounters {
    pub closed spec fn callbacks_count(self) -> u64 { self.callbacks }
    pub closed spec fn total(self) -> u64 { self.total_nanoseconds }
    pub closed spec fn maximum(self) -> u64 { self.maximum_nanoseconds }
    pub closed spec fn missed(self) -> u64 { self.missed_deadlines }
    pub closed spec fn oversized(self) -> u64 { self.oversized_callbacks }
    pub closed spec fn buckets(self) -> Seq<u64> { self.histogram@ }

    /// Counters with nothing recorded.
    pub fn new() -> (r: Self)
        ensures
            r.callbacks_count() == 0 && r.total() == 0 && r.maximum() == 0 && r.missed() == 0
                && r.oversized() == 0,
            r.buckets().len() == TIMING_HISTOGRAM_BUCKETS,
            forall|i: int| 0 <= i < r.buckets().len() ==> r.buckets()[i] == 0,
    {
        CallbackTimingCounters {
            callbacks: 0,
            total_nanoseconds: 0,
            maximum_nanoseconds: 0,
            missed_deadlines: 0,
            oversized_callbacks: 0,
            histogram: [0u64; 8193],
        }
    }

    /// Records one callback of `frames` frames at `sample_rate` that took
    /// `elapsed_nanoseconds`. Every counter wraps like an atomic add.
    pub fn record(
        &mut self,
        frames: u32,
        sample_rate: u32,
        elapsed_nanoseconds: u64,
        status: ProcessStatus,
    )
        ensures
            final(self).callbacks_count() == inc(old(self).callbacks_count()),
            final(self).total() == wrapping_sum(old(self).total(), elapsed_nanoseconds),
            final(self).maximum() == if elapsed_nanoseconds > old(self).maximum() {
                elapsed_nanoseconds
            } else {
                old(self).maximum()
            },
            final(self).buckets().len() == TIMING_HISTOGRAM_BUCKETS,
            final(self).buckets() == old(self).buckets().update(
                bucket_of(elapsed_nanoseconds),
                inc(old(self).buckets()[bucket_of(elapsed_nanoseconds)]),
            ),
            final(self).oversized() == if status is OversizedBlock {
                inc(old(self).oversized())
            } else {
                old(self).oversized()
            },
            final(self).missed() == if deadline_of(frames, sample_rate) > 0 && elapsed_nanoseconds
                > deadline_of(frames, sample_rate) {
                inc(old(self).missed())
            } else {
                old(self).missed()
            },
    {
        self.callbacks = self.callbacks.wrapping_add(1);
        self.total_nanoseconds = self.total_nanoseconds.wrapping_add(elapsed_nanoseconds);
        if elapsed_nanoseconds > self.maximum_nanoseconds {
            self.maximum_nanoseconds = elapsed_nanoseconds;
        }
        let rounded = elapsed_nanoseconds.saturating_add(TIMING_HISTOGRAM_BUCKET_NANOSECONDS - 1);
        let whole = rounded / TIMING_HISTOGRAM_BUCKET_NANOSECONDS;
        let bucket: usize = if whole > 8192 {
            TIMING_HISTOGRAM_BUCKETS - 1
        } else {
            whole as usize
        };
        self.histogram[bucket] = self.histogram[bucket].wrapping_add(1);
        if let ProcessStatus::OversizedBlock = status {
            self.oversized_callbacks = self.oversized_callbacks.wrapping_add(1);
        }
        let product = saturating_mul(frames as u64, 1_000_000_000);
        let deadline = if sample_rate == 0 {
            0
        } else {
            product / (sample_rate as u64)
        };
        if deadline > 0 && elapsed_nanoseconds > deadline {
            self.missed_deadlines = self.missed_deadlines.wrapping_add(1);
        }
    }

    /// The current totals with the 95th and 99th percentiles read from the
    /// histogram.
    pub fn snapshot(&self) -> (r: CallbackTimingSnapshot)
        requires
            prefix_total(self.buckets(), self.buckets().len() as int) <= u64::MAX,
        ensures
            r.callbacks == self.callbacks_count(),
            r.total_nanoseconds == self.total(),
            r.maximum_nanoseconds == self.maximum(),
            r.missed_deadlines == self.missed(),
            r.oversized_callbacks == self.oversized(),
            r.p95_nanoseconds == spec_percentile(self.buckets(), 95, self.maximum()),
            r.p99_nanoseconds == spec_percentile(self.buckets(), 99, self.maximum()),
    {
        let maximum = self.maximum_nanoseconds;
        CallbackTimingSnapshot {
            callbacks: self.callbacks,
            total_nanoseconds: self.total_nanoseconds,
            maximum_nanoseconds: maximum,
            p95_nanoseconds: percentile_nanoseconds(&self.histogram, 95, maximum),
            p99_nanoseconds: percentile_nanoseconds(&self.histogram, 99, maximum),
            missed_deadlines: self.missed_deadlines,
            oversized_callbacks: self.oversized_callbacks,
        }
    }
}

impl Default for CallbackTimingCounters {
    fn default() -> (r: Self)
        ensures
            r.callbacks_count() == 0 && r.total() == 0 && r.maximum() == 0 && r.missed() == 0
                && r.oversized() == 0,
            r.buckets().len() == TIMING_HISTOGRAM_BUCKETS,
            forall|i: int| 0 <= i < r.buckets().len() ==> r.buckets()[i] == 0,
    {
        CallbackTimingCounters::new()
    }
}

fn saturating_mul(a: u64, b: u64) -> (r: u64)
    ensures
        r == if a * b > u64::MAX { u64::MAX as int } else { a * b },
{
    match a.checked_mul(b) {
        Some(p) => p,
        None => u64::MAX,
    }
}

proof fn lemma_prefix_monotone(h: Seq<u64>, i: int, j: int)
    requires
        0 <= i <= j <= h.len(),
    ensures
        prefix_total(h, i) <= prefix_total(h, j),
    decreases j - i,
{
    if i < j {
        lemma_prefix_monotone(h, i, j - 1);
    }
}

fn percentile_nanoseconds(histogram: &[u64; 8193], percentile: u64, maximum: u64) -> (r: u64)
    requires
        prefix_total(histogram@, histogram@.len() as int) <= u64::MAX,
    ensures
        r == spec_percentile(histogram@, percentile, maximum),
{
    let ghost h = histogram@;
    let mut samples: u64 = 0;
    let mut i: usize = 0;
    while i < TIMING_HISTOGRAM_BUCKETS
        invariant
            i <= TIMING_HISTOGRAM_BUCKETS,
            h == histogram@,
            h.len() == TIMING_HISTOGRAM_BUCKETS,
            prefix_total(h, h.len() as int) <= u64::MAX,
            samples == prefix_total(h, i as int),
        decreases TIMING_HISTOGRAM_BUCKETS - i,
    {
        proof {
            lemma_prefix_monotone(h, i + 1, h.len() as int);
        }
        samples = samples + histogram[i];
        i += 1;
    }
    if samples == 0 {
        return 0;
    }
    let target = saturating_mul(samples, percentile).saturating_add(99) / 100;
    let mut seen: u64 = 0;
    let mut index: usize = 0;
    while index < TIMING_HISTOGRAM_BUCKETS
        invariant
            index <= TIMING_HISTOGRAM_BUCKETS,
            h == histogram@,
            h.len() == TIMING_HISTOGRAM_BUCKETS,
            prefix_total(h, h.len() as int) <= u64::MAX,
            samples == prefix_total(h, h.len() as int),
            samples > 0,
            seen == prefix_total(h, index as int),
            target == target_of(samples as int, percentile),
            spec_percentile(h, percentile, maximum) == percentile_from(h, target as int, index as int, maximum),
        decreases TIMING_HISTOGRAM_BUCKETS - index,
    {
        proof {
            lemma_prefix_monotone(h, index + 1, h.len() as int);
        }
        seen = seen + histogram[index];
        if seen >= target {
            if index == TIMING_HISTOGRAM_BUCKETS - 1 {
                return maximum;
            }
            return (index as u64) * TIMING_HISTOGRAM_BUCKET_NANOSECONDS;
        }
        index += 1;
    }
    maximum
}

/// Recording a callback, where no counter wraps, adds it to each count:
/// one more callback, its time added to the total, the maximum raised to
/// it, one more oversized block when it was one, one more missed deadline
/// when a deadline was set and passed. A snapshot reads these counts.
pub proof fn lemma_record_adds_one_callback(before: CallbackTimingCounters, after: CallbackTimingCounters, frames: u32,
    sample_rate: u32, elapsed: u64, status: ProcessStatus)
    requires
        after.callbacks_count() == inc(before.callbacks_count()),
        after.total() == wrapping_sum(before.total(), elapsed),
        after.maximum() == if elapsed > before.maximum() { elapsed } else { before.maximum() },
        after.oversized() == if status is OversizedBlock { inc(before.oversized()) } else { before.oversized() },
        after.missed() == if deadline_of(frames, sample_rate) > 0 && elapsed > deadline_of(frames, sample_rate) {
            inc(before.missed())
        } else {
            before.missed()
        },
        before.callbacks_count() < u64::MAX,
        before.total() + elapsed <= u64::MAX,
        before.oversized() < u64::MAX,
        before.missed() < u64::MAX,
    ensures
        after.callbacks_count() == before.callbacks_count() + 1,
        after.total() == before.total() + elapsed,
        after.maximum() == if elapsed > before.maximum() { elapsed } else { before.maximum() },
        after.oversized() == before.oversized() + if status is OversizedBlock { 1int } else { 0int },
        after.missed() == before.missed() + if deadline_of(frames, sample_rate) > 0 && elapsed > deadline_of(frames, sample_rate) {
            1int
        } else {
            0int
        },
{
}

} // verus!
