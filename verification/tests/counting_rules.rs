use log_analyzer::models::LogEntry;
use log_analyzer::stats::{LineTally, Stats};
use log_analyzer::tally::CountMap;

fn entry(method: &str, endpoint: &str, status: u16, latency: u64) -> LogEntry {
    LogEntry {
        timestamp: "T".to_string(),
        method: method.to_string(),
        endpoint: endpoint.to_string(),
        status,
        response_time_ms: latency,
    }
}

fn counts(m: &CountMap) -> Vec<(String, u64)> {
    let mut v = m.entries();
    v.sort();
    v
}

#[test]
fn status_classes_are_counted_apart() {
    let mut stats = Stats::new();
    for status in [199u16, 200, 299, 300, 399, 400, 499, 500, 599, 600] {
        stats.add_entry(&entry("GET", "/a", status, 1));
    }
    assert_eq!(stats.total_requests, 10);
    assert_eq!(stats.status_2xx, 2);
    assert_eq!(stats.status_3xx, 2);
    assert_eq!(stats.status_4xx, 2);
    assert_eq!(stats.status_5xx, 2);
    assert_eq!(*stats.server_errors.get("/a").unwrap(), 2);
    assert_eq!(*stats.endpoint_counts.get("/a").unwrap(), 10);
}

#[test]
fn server_errors_only_for_5xx() {
    let mut stats = Stats::new();
    stats.add_entry(&entry("GET", "/ok", 200, 3));
    stats.add_entry(&entry("GET", "/bad", 503, 4));
    assert!(stats.server_errors.get("/ok").is_none());
    assert_eq!(stats.server_errors.len(), 1);
    assert_eq!(*stats.endpoint_latencies.get("/bad").unwrap(), 4);
    assert_eq!(*stats.method_counts.get("GET").unwrap(), 2);
}

#[test]
fn latencies_are_summed_by_endpoint() {
    let mut stats = Stats::new();
    stats.add_entry(&entry("GET", "/a", 200, 10));
    stats.add_entry(&entry("POST", "/a", 201, 32));
    stats.add_entry(&entry("GET", "/b", 200, 5));
    assert_eq!(*stats.endpoint_latencies.get("/a").unwrap(), 42);
    assert_eq!(*stats.endpoint_counts.get("/a").unwrap(), 2);
    assert_eq!(stats.latencies, vec![10, 32, 5]);
    assert_eq!(counts(&stats.method_counts), vec![("GET".to_string(), 2), ("POST".to_string(), 1)]);
}

#[test]
fn split_then_merge_equals_one_pass() {
    let all = vec![
        entry("GET", "/a", 200, 10),
        entry("POST", "/b", 500, 20),
        entry("GET", "/a", 404, 30),
        entry("PUT", "/c", 302, 40),
        entry("GET", "/b", 502, 50),
    ];
    let mut whole = Stats::new();
    for e in &all {
        whole.add_entry(e);
    }
    let mut first = Stats::new();
    let mut second = Stats::new();
    for e in &all[..2] {
        first.add_entry(e);
    }
    for e in &all[2..] {
        second.add_entry(e);
    }
    first.merge(second);
    assert_eq!(first.total_requests, whole.total_requests);
    assert_eq!(first.status_2xx, whole.status_2xx);
    assert_eq!(first.status_3xx, whole.status_3xx);
    assert_eq!(first.status_4xx, whole.status_4xx);
    assert_eq!(first.status_5xx, whole.status_5xx);
    assert_eq!(first.latencies, whole.latencies);
    assert_eq!(counts(&first.endpoint_counts), counts(&whole.endpoint_counts));
    assert_eq!(counts(&first.endpoint_latencies), counts(&whole.endpoint_latencies));
    assert_eq!(counts(&first.method_counts), counts(&whole.method_counts));
    assert_eq!(counts(&first.server_errors), counts(&whole.server_errors));
}

#[test]
fn merging_empty_statistics_changes_nothing() {
    let mut stats = Stats::new();
    stats.add_entry(&entry("GET", "/a", 200, 10));
    stats.merge(Stats::new());
    assert_eq!(stats.total_requests, 1);
    assert_eq!(stats.latencies, vec![10]);
    let mut empty = Stats::new();
    empty.merge(stats.clone());
    assert_eq!(empty.total_requests, 1);
    assert_eq!(counts(&empty.endpoint_counts), vec![("/a".to_string(), 1)]);
}

#[test]
fn merge_order_only_changes_latency_order() {
    let mut a = Stats::new();
    a.add_entry(&entry("GET", "/a", 200, 1));
    let mut b = Stats::new();
    b.add_entry(&entry("POST", "/b", 500, 2));
    let mut ab = a.clone();
    ab.merge(b.clone());
    let mut ba = b.clone();
    ba.merge(a.clone());
    assert_eq!(ab.total_requests, ba.total_requests);
    assert_eq!(counts(&ab.method_counts), counts(&ba.method_counts));
    assert_eq!(ab.latencies, vec![1, 2]);
    assert_eq!(ba.latencies, vec![2, 1]);
}

#[test]
fn overflow_is_detected_before_counting() {
    let mut stats = Stats::new();
    stats.add_entry(&entry("GET", "/a", 200, u64::MAX - 1));
    assert!(stats.can_add(&entry("GET", "/a", 200, 1)));
    assert!(!stats.can_add(&entry("GET", "/a", 200, 2)));
    assert!(stats.can_add(&entry("GET", "/b", 200, u64::MAX)));
    let mut other = Stats::new();
    other.add_entry(&entry("GET", "/a", 200, 2));
    assert!(!stats.can_merge(&other));
    let mut small = Stats::new();
    small.add_entry(&entry("GET", "/a", 200, 1));
    assert!(stats.can_merge(&small));
}

#[test]
fn lines_are_counted_skipped_or_refused() {
    let mut stats = Stats::new();
    assert!(matches!(stats.add_line("t GET /a 200 5ms"), LineTally::Counted));
    assert!(matches!(stats.add_line("garbage"), LineTally::Skipped(_)));
    assert!(matches!(stats.add_line("t GET /a 200 18446744073709551615ms"), LineTally::Overflow));
    assert_eq!(stats.total_requests, 1);
    assert_eq!(stats.latencies, vec![5]);
}

#[test]
fn count_map_basics() {
    let mut m = CountMap::new();
    assert!(m.is_empty());
    m.add("x".to_string(), 2);
    m.add("y".to_string(), 1);
    m.add("x".to_string(), 3);
    assert_eq!(m.len(), 2);
    assert_eq!(*m.get("x").unwrap(), 5);
    assert!(m.get("z").is_none());
    let copy = m.clone();
    assert_eq!(counts(&copy), vec![("x".to_string(), 5), ("y".to_string(), 1)]);
    let mut n = CountMap::new();
    n.add("y".to_string(), 4);
    n.add("z".to_string(), 1);
    assert!(m.can_absorb(&n));
    m.absorb(n);
    assert_eq!(counts(&m), vec![("x".to_string(), 5), ("y".to_string(), 5), ("z".to_string(), 1)]);
}

#[test]
fn counting_order_is_immaterial() {
    let all = vec![
        entry("GET", "/a", 200, 10),
        entry("POST", "/b", 500, 20),
        entry("GET", "/a", 404, 30),
    ];
    let mut forward = Stats::new();
    for e in &all {
        forward.add_entry(e);
    }
    let mut backward = Stats::new();
    for e in all.iter().rev() {
        backward.add_entry(e);
    }
    assert_eq!(forward.total_requests, backward.total_requests);
    assert_eq!(forward.status_4xx, backward.status_4xx);
    assert_eq!(counts(&forward.endpoint_latencies), counts(&backward.endpoint_latencies));
    assert_eq!(counts(&forward.server_errors), counts(&backward.server_errors));
    let mut f = forward.latencies.clone();
    let mut b = backward.latencies.clone();
    f.sort();
    b.sort();
    assert_eq!(f, b);
    assert_eq!(backward.latencies, vec![30, 20, 10]);
}

#[test]
fn merge_is_associative() {
    let make = |m: &str, ep: &str, s: u16, l: u64| {
        let mut st = Stats::new();
        st.add_entry(&entry(m, ep, s, l));
        st
    };
    let a = make("GET", "/a", 200, 1);
    let b = make("GET", "/b", 500, 2);
    let c = make("PUT", "/a", 302, 3);
    let mut left = a.clone();
    left.merge(b.clone());
    left.merge(c.clone());
    let mut bc = b.clone();
    bc.merge(c.clone());
    let mut right = a.clone();
    right.merge(bc);
    assert_eq!(left.latencies, right.latencies);
    assert_eq!(left.total_requests, 3);
    assert_eq!(counts(&left.endpoint_counts), counts(&right.endpoint_counts));
    assert_eq!(counts(&left.method_counts), counts(&right.method_counts));
}

#[test]
fn counting_keeps_one_latency_per_request() {
    let mut stats = Stats::new();
    for i in 0..20u64 {
        stats.add_entry(&entry("GET", "/x", 200 + (i as u16) * 20, i));
    }
    assert_eq!(stats.latencies.len() as u64, stats.total_requests);
    assert!(stats.status_2xx + stats.status_3xx + stats.status_4xx + stats.status_5xx <= stats.total_requests);
    assert!(*stats.server_errors.get("/x").unwrap() <= *stats.endpoint_counts.get("/x").unwrap());
}

#[test]
fn tallies_sum_to_the_counters() {
    let mut a = Stats::new();
    a.add_entry(&entry("GET", "/a", 200, 10));
    a.add_entry(&entry("POST", "/b", 503, 20));
    let mut b = Stats::new();
    b.add_entry(&entry("GET", "/b", 500, 5));
    b.add_entry(&entry("PUT", "/c", 404, 1));
    a.merge(b);
    let sum = |m: &CountMap| m.entries().iter().map(|e| e.1).sum::<u64>();
    assert_eq!(sum(&a.endpoint_counts), a.total_requests);
    assert_eq!(sum(&a.method_counts), a.total_requests);
    assert_eq!(sum(&a.server_errors), a.status_5xx);
    assert_eq!(sum(&a.endpoint_latencies), a.latencies.iter().sum::<u64>());
    assert_eq!(sum(&a.server_errors), 2);
}
