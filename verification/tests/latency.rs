use mynah::latency::{feed_stats, FeedStats, CHUNK_BUDGET_NANOS};

#[test]
fn no_feeds() {
    let s = feed_stats(&vec![]);
    assert_eq!(s, FeedStats { count: 0, avg_nanos: 0, p95_nanos: 0, max_nanos: 0, realtime: true });
}

#[test]
fn first_feed_is_warmup() {
    let s = feed_stats(&vec![500]);
    assert_eq!(s, FeedStats { count: 1, avg_nanos: 500, p95_nanos: 0, max_nanos: 500, realtime: true });
    let s = feed_stats(&vec![900_000_000, 30, 10, 20]);
    assert_eq!(s.count, 4);
    assert_eq!(s.avg_nanos, 225_000_015);
    assert_eq!(s.p95_nanos, 20);
    assert_eq!(s.max_nanos, 900_000_000);
    assert!(s.realtime);
}

#[test]
fn p95_of_a_hundred_steady_feeds() {
    let mut times = vec![1u64];
    times.extend((1..=100u64).rev().map(|i| i * 2_000_000));
    let s = feed_stats(&times);
    assert_eq!(s.p95_nanos, 190_000_000);
    assert_eq!(s.max_nanos, 200_000_000);
    assert!(!s.realtime);
    let fast: Vec<u64> = times.iter().map(|t| t / 2).collect();
    let s = feed_stats(&fast);
    assert_eq!(s.p95_nanos, 95_000_000);
    assert!(s.realtime);
    assert_eq!(CHUNK_BUDGET_NANOS, 160_000_000);
}

#[test]
fn budget_edge() {
    assert!(!feed_stats(&vec![0, CHUNK_BUDGET_NANOS]).realtime);
    assert!(feed_stats(&vec![0, CHUNK_BUDGET_NANOS - 1]).realtime);
}
