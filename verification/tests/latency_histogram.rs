use io_reactor::latency_histogram::{LatencyHistogram, NUM_BUCKETS, SUB_BITS};

fn error_bound() -> f64 {
    2f64.powi(-(SUB_BITS as i32))
}

/// The value at the `p`-th percentile.
fn percentile(h: &LatencyHistogram, p: f64) -> u64 {
    let rank = (p / 100.0 * h.count() as f64).ceil() as u64;
    h.value_at_rank(rank)
}

#[test]
fn every_bucket_round_trips() {
    for bucket in 0..NUM_BUCKETS {
        let midpoint = LatencyHistogram::bucket_midpoint(bucket);
        assert_eq!(
            LatencyHistogram::bucket_of(midpoint),
            bucket,
            "bucket {bucket} (midpoint {midpoint} ns) did not round-trip"
        );
    }
}

#[test]
fn ramp_percentiles_within_error_bound() {
    let mut h = LatencyHistogram::new();
    let n = 1_000_000u64;
    for v in 1..=n {
        h.record(v);
    }
    for (p, exact) in [(50.0, n / 2), (90.0, n * 9 / 10), (99.0, n * 99 / 100)] {
        let got = percentile(&h, p) as f64;
        let rel = (got - exact as f64).abs() / exact as f64;
        assert!(
            rel <= error_bound(),
            "p{p}: got {got} vs exact {exact}, rel {rel}"
        );
    }
}

#[test]
fn count_min_max_are_exact() {
    let mut h = LatencyHistogram::new();
    for sample_ns in [1_000u64, 50_000, 13_000_000] {
        h.record(sample_ns);
    }
    assert_eq!(h.count(), 3);
    assert_eq!(h.min(), 1_000);
    assert_eq!(h.max(), 13_000_000);
}

#[test]
fn buckets_at_the_edges() {
    assert_eq!(LatencyHistogram::bucket_of(0), 0);
    assert_eq!(LatencyHistogram::bucket_of(15), 15);
    assert_eq!(LatencyHistogram::bucket_of(16), 16);
    assert_eq!(LatencyHistogram::bucket_of(31), 31);
    assert_eq!(LatencyHistogram::bucket_of(32), 32);
    assert_eq!(LatencyHistogram::bucket_of(33), 32);
    assert_eq!(LatencyHistogram::bucket_of(u64::MAX), NUM_BUCKETS - 1);
    assert_eq!(LatencyHistogram::bucket_midpoint(32), 33);
}

#[test]
fn an_empty_histogram_reads_zero() {
    let h = LatencyHistogram::new();
    assert_eq!(h.count(), 0);
    assert_eq!(h.min(), 0);
    assert_eq!(h.max(), 0);
    assert_eq!(h.value_at_rank(1), 0);
}

#[test]
fn ranks_past_the_ends() {
    let mut h = LatencyHistogram::new();
    h.record(3);
    h.record(7);
    assert_eq!(h.value_at_rank(0), 3);
    assert_eq!(h.value_at_rank(1), 3);
    assert_eq!(h.value_at_rank(2), 7);
    assert_eq!(h.value_at_rank(3), 7);
}
