use shr_daw::audio_graph_runtime::{CallbackTimingCounters, CallbackTimingSnapshot, ProcessStatus};

#[test]
fn callback_timing_counts_deadlines_and_oversized_blocks_without_allocating() {
    let mut counters = CallbackTimingCounters::default();
    counters.record(128, 48_000, 1_000_000, ProcessStatus::Complete);
    counters.record(128, 48_000, 3_000_000, ProcessStatus::Complete);
    counters.record(8_192, 48_000, 500_000, ProcessStatus::OversizedBlock);
    assert_eq!(
        counters.snapshot(),
        CallbackTimingSnapshot {
            callbacks: 3,
            total_nanoseconds: 4_500_000,
            maximum_nanoseconds: 3_000_000,
            p95_nanoseconds: 3_000_000,
            p99_nanoseconds: 3_000_000,
            missed_deadlines: 1,
            oversized_callbacks: 1,
        }
    );
    assert_eq!(counters.snapshot().mean_nanoseconds(), 1_500_000);
}

#[test]
fn callback_timing_percentiles_are_calculated_from_fixed_buckets() {
    let mut counters = CallbackTimingCounters::default();
    for microseconds in 1..=100 {
        counters.record(128, 48_000, microseconds * 1_000, ProcessStatus::Complete);
    }
    let snapshot = counters.snapshot();
    assert_eq!(snapshot.p95_nanoseconds, 95_000);
    assert_eq!(snapshot.p99_nanoseconds, 99_000);
}

#[test]
fn empty_counters_report_zero_mean() {
    let counters = CallbackTimingCounters::new();
    let snapshot = counters.snapshot();
    assert_eq!(snapshot.callbacks, 0);
    assert_eq!(snapshot.mean_nanoseconds(), 0);
    assert_eq!(snapshot.p95_nanoseconds, 0);
}
