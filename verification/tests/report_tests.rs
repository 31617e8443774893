use log_analyzer::models::LogEntry;
use log_analyzer::report::{
    calculate_latency_metrics, ranked, top_entries, ConsoleReporter, JsonReporter,
};
use log_analyzer::stats::Stats;
use log_analyzer::tally::CountMap;

fn entry(method: &str, endpoint: &str, status: u16, latency: u64) -> LogEntry {
    LogEntry {
        timestamp: "T".to_string(),
        method: method.to_string(),
        endpoint: endpoint.to_string(),
        status,
        response_time_ms: latency,
    }
}

fn stats_with_latencies(latencies: &[u64]) -> Stats {
    let mut stats = Stats::new();
    for &l in latencies {
        stats.add_entry(&entry("GET", "/a", 200, l));
    }
    stats
}

#[test]
fn metrics_of_no_latency_are_zero() {
    let mut stats = Stats::new();
    assert_eq!(calculate_latency_metrics(&mut stats), (0, 0, 0, 0, 0, 0));
}

#[test]
fn metrics_of_five_latencies() {
    let mut stats = stats_with_latencies(&[5, 1, 3, 2, 4]);
    assert_eq!(calculate_latency_metrics(&mut stats), (1, 5, 3, 3, 5, 5));
    assert_eq!(stats.latencies, vec![1, 2, 3, 4, 5]);
}

#[test]
fn metrics_of_a_hundred_latencies() {
    let values: Vec<u64> = (1..=100).rev().collect();
    let mut stats = stats_with_latencies(&values);
    assert_eq!(calculate_latency_metrics(&mut stats), (1, 100, 50, 51, 96, 100));
}

#[test]
fn metrics_round_the_average_down() {
    let mut stats = stats_with_latencies(&[1, 2]);
    assert_eq!(calculate_latency_metrics(&mut stats), (1, 2, 1, 2, 2, 2));
}

#[test]
fn latency_total_detects_overflow() {
    let stats = stats_with_latencies(&[u64::MAX, 1]);
    assert_eq!(stats.latency_total(), None);
    let stats = stats_with_latencies(&[u64::MAX - 1, 1]);
    assert_eq!(stats.latency_total(), Some(u64::MAX));
}

#[test]
fn ranking_puts_largest_counts_first() {
    let mut m = CountMap::new();
    m.add("a".to_string(), 1);
    m.add("b".to_string(), 3);
    m.add("c".to_string(), 2);
    m.add("d".to_string(), 3);
    assert_eq!(
        ranked(&m),
        vec![("b".to_string(), 3), ("d".to_string(), 3), ("c".to_string(), 2), ("a".to_string(), 1)]
    );
    assert_eq!(top_entries(&m, 2), vec![("b".to_string(), 3), ("d".to_string(), 3)]);
    assert_eq!(top_entries(&m, 10).len(), 4);
    assert!(top_entries(&m, 0).is_empty());
}

#[test]
fn console_report_overview() {
    let mut stats = Stats::new();
    stats.add_entry(&entry("GET", "/a", 200, 10));
    stats.add_entry(&entry("GET", "/a", 200, 20));
    stats.add_entry(&entry("POST", "/b", 500, 30));
    let report = ConsoleReporter.prepare(&mut stats, 1, false);
    let o = report.overview.expect("overview shown");
    assert_eq!(o.total_requests, 3);
    assert_eq!(o.status_2xx, 2);
    assert_eq!(o.status_5xx, 1);
    assert_eq!(o.avg_latency_ms, 20);
    assert_eq!(o.p50_latency_ms, 20);
    assert_eq!(o.methods, vec![("GET".to_string(), 2), ("POST".to_string(), 1)]);
    assert_eq!(o.top_endpoints.len(), 1);
    assert_eq!(o.top_endpoints[0].endpoint, "/a");
    assert_eq!(o.top_endpoints[0].count, 2);
    assert_eq!(o.top_endpoints[0].avg_latency_ms, Some(15));
    assert_eq!(report.server_errors, Some(vec![("/b".to_string(), 1)]));
}

#[test]
fn console_report_errors_only() {
    let mut stats = Stats::new();
    stats.add_entry(&entry("GET", "/a", 200, 10));
    let report = ConsoleReporter.prepare(&mut stats, 10, true);
    assert!(report.overview.is_none());
    assert_eq!(report.server_errors, Some(vec![]));
    let report = ConsoleReporter.prepare(&mut stats, 10, false);
    assert!(report.overview.is_some());
    assert!(report.server_errors.is_none());
}

#[test]
fn json_report_content() {
    let mut stats = Stats::new();
    stats.add_entry(&entry("GET", "/a", 200, 7));
    stats.add_entry(&entry("PUT", "/b", 502, 3));
    let report = JsonReporter.prepare(&mut stats, 10, false);
    let o = report.overview.expect("overview shown");
    assert_eq!(o.total_requests, 2);
    assert_eq!(report.status_5xx, 1);
    assert_eq!(report.status_4xx, 0);
    assert_eq!(o.min_latency_ms, 3);
    assert_eq!(o.max_latency_ms, 7);
    assert_eq!(o.avg_latency_ms, 5);
    assert_eq!(o.p50_latency_ms, 7);
    assert_eq!(*o.method_counts.get("PUT").unwrap(), 1);
    assert_eq!(o.endpoint_counts.len(), 2);
    assert_eq!(*report.server_errors.get("/b").unwrap(), 1);
}

#[test]
fn json_report_keeps_the_top_endpoints() {
    let mut stats = Stats::new();
    stats.add_entry(&entry("GET", "/a", 200, 1));
    stats.add_entry(&entry("GET", "/b", 200, 1));
    stats.add_entry(&entry("GET", "/b", 200, 1));
    stats.add_entry(&entry("GET", "/c", 200, 1));
    let report = JsonReporter.prepare(&mut stats, 1, false);
    let o = report.overview.expect("overview shown");
    assert_eq!(o.endpoint_counts, vec![("/b".to_string(), 2)]);
}

#[test]
fn json_report_errors_only() {
    let mut stats = Stats::new();
    stats.add_entry(&entry("GET", "/a", 404, 9));
    stats.add_entry(&entry("GET", "/b", 500, 1));
    let report = JsonReporter.prepare(&mut stats, 10, true);
    assert!(report.overview.is_none());
    assert_eq!(report.status_4xx, 1);
    assert_eq!(report.status_5xx, 1);
    assert_eq!(report.server_errors.len(), 1);
    assert_eq!(stats.latencies, vec![9, 1]);
}

#[test]
fn metrics_depend_only_on_the_latency_values() {
    let mut a = stats_with_latencies(&[9, 4, 7, 4, 1]);
    let mut b = stats_with_latencies(&[4, 1, 4, 9, 7]);
    b.add_entry(&entry("POST", "/other", 500, 0));
    b.latencies.pop();
    let ma = calculate_latency_metrics(&mut a);
    let mb = calculate_latency_metrics(&mut b);
    assert_eq!(ma, mb);
    assert_eq!(a.latencies, b.latencies);
    assert_eq!(ma, (1, 9, 5, 4, 9, 9));
}

#[test]
fn metrics_twice_give_the_same_and_change_nothing() {
    let mut stats = stats_with_latencies(&[3, 8, 2]);
    let first = calculate_latency_metrics(&mut stats);
    let sorted = stats.latencies.clone();
    let second = calculate_latency_metrics(&mut stats);
    assert_eq!(first, second);
    assert_eq!(stats.latencies, sorted);
}
