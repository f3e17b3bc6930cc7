use trading_stack::common::time::{LatencyStats, Nanos};

#[test]
fn test_nanos_creation() {
    let n = Nanos::new(12345);
    assert_eq!(n.as_u64(), 12345);
    assert_eq!(n.0, 12345);
}

#[test]
fn test_nanos_from_u64() {
    let n: Nanos = 42u64.into();
    assert_eq!(n.0, 42);

    let v: u64 = n.into();
    assert_eq!(v, 42);
}

#[test]
fn test_nanos_ordering() {
    let a = Nanos(100);
    let b = Nanos(200);
    let c = Nanos(100);

    assert!(a < b);
    assert!(b > a);
    assert_eq!(a, c);
}

#[test]
fn test_nanos_subtraction() {
    let a = Nanos(200);
    let b = Nanos(100);
    assert_eq!(a - b, 100);

    // Test saturating subtraction (no underflow)
    assert_eq!(b - a, 0);
}

#[test]
fn test_nanos_addition() {
    let n = Nanos(100);
    let result = n + 50;
    assert_eq!(result.0, 150);
}

#[test]
fn test_latency_stats_new() {
    let stats = LatencyStats::new();
    assert_eq!(stats.count(), 0);
    assert_eq!(stats.mean_floor(), 0);
    assert_eq!(stats.min(), u64::MAX);
    assert_eq!(stats.max(), 0);
}

#[test]
fn test_latency_stats_single_record() {
    let mut stats = LatencyStats::new();
    stats.record(100);

    assert_eq!(stats.count(), 1);
    assert_eq!(stats.mean_floor(), 100);
    assert_eq!(stats.min(), 100);
    assert_eq!(stats.max(), 100);
}

#[test]
fn test_latency_stats_multiple_records() {
    let mut stats = LatencyStats::new();
    stats.record(100);
    stats.record(200);
    stats.record(300);

    assert_eq!(stats.count(), 3);
    assert_eq!(stats.mean_floor(), 200);
    assert_eq!(stats.min(), 100);
    assert_eq!(stats.max(), 300);
}

#[test]
fn test_latency_stats_reset() {
    let mut stats = LatencyStats::new();
    stats.record(100);
    stats.record(200);

    stats.reset();

    assert_eq!(stats.count(), 0);
    assert_eq!(stats.mean_floor(), 0);
    assert_eq!(stats.min(), u64::MAX);
    assert_eq!(stats.max(), 0);
}

#[test]
fn test_latency_stats_default() {
    let stats: LatencyStats = Default::default();
    assert_eq!(stats.count(), 0);
}
