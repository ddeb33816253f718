use std::time::{Duration, Instant};
use styx::metrics::Metrics;
use styx::stats::{CodecStats, DEFAULT_WINDOW};

#[test]
fn metrics_count_hits_and_leases() {
    let mut metrics = Metrics::default();
    metrics.hit();
    assert_eq!(metrics.hits(), 1);
    metrics.miss();
    metrics.record_alloc();
    metrics.backpressure();
    assert_eq!(metrics.misses(), 1);
    assert_eq!(metrics.allocations(), 1);
    assert_eq!(metrics.backpressure_count(), 1);
    metrics.lease_acquired();
    metrics.lease_acquired();
    metrics.lease_released();
    assert_eq!(metrics.leases_out(), 1);
    assert_eq!(metrics.peak_leases_out(), 2);
    metrics.lease_released();
    assert_eq!(metrics.leases_out(), 0);
    assert_eq!(metrics.peak_leases_out(), 2);
    // The lease count wraps like the atomic counter it models.
    metrics.lease_released();
    assert_eq!(metrics.leases_out(), u64::MAX);
}

#[test]
fn codec_stats_keep_a_bounded_window() {
    let mut stats = CodecStats::new();
    assert_eq!(stats.processed(), 0);
    stats.inc_processed();
    stats.inc_errors();
    stats.inc_backpressure();
    assert_eq!(stats.processed(), 1);
    assert_eq!(stats.errors(), 1);
    assert_eq!(stats.backpressure(), 1);
    stats.set_window_size(2);
    let t0 = Instant::now();
    stats.record_sample(t0, 10);
    stats.record_sample(t0 + Duration::from_millis(1), 20);
    stats.record_sample(t0 + Duration::from_millis(2), 30);
    assert_eq!(stats.samples(), 2);
    assert_eq!(stats.last_nanos(), 30);
    assert_eq!(stats.sample_nanos(), vec![20, 30]);
    let (first, last) = stats.window_bounds().unwrap();
    assert_eq!(first, t0 + Duration::from_millis(1));
    assert_eq!(last, t0 + Duration::from_millis(2));
    assert!(DEFAULT_WINDOW > 2);
}

#[test]
fn record_duration_keeps_the_nanoseconds() {
    let mut stats = CodecStats::new();
    stats.record_duration(Duration::from_micros(3));
    assert_eq!(stats.last_nanos(), 3000);
    assert_eq!(stats.samples(), 1);
    stats.record_duration(Duration::from_secs(u64::MAX));
    assert_eq!(stats.last_nanos(), u64::MAX);
    assert_eq!(stats.samples(), 2);
}
