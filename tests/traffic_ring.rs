use lm_gateway::traffic::{TrafficEntry, TrafficLog};

fn make_entry(tier: &str, latency_ms: u64) -> TrafficEntry {
    TrafficEntry::new(tier.into(), "test-backend".into(), latency_ms, true)
}

fn entry_for(tier: &str, backend: &str, success: bool) -> TrafficEntry {
    TrafficEntry::new(tier.into(), backend.into(), 10, success)
}

#[test]
fn push_and_retrieve_single_entry() {
    let mut log = TrafficLog::new(10);
    log.push(make_entry("local:fast", 42));

    let recent = log.recent(10);
    assert_eq!(recent.len(), 1);
    assert_eq!(recent[0].tier, "local:fast");
    assert_eq!(recent[0].latency_ms, 42);
}

#[test]
fn recent_returns_entries_newest_first() {
    let mut log = TrafficLog::new(10);
    log.push(make_entry("local:fast", 1));
    log.push(make_entry("cloud:economy", 2));
    log.push(make_entry("cloud:standard", 3));

    let recent = log.recent(10);
    assert_eq!(recent[0].tier, "cloud:standard");
    assert_eq!(recent[1].tier, "cloud:economy");
    assert_eq!(recent[2].tier, "local:fast");
}

#[test]
fn recent_limits_result_count() {
    let mut log = TrafficLog::new(20);
    for i in 0..10u64 {
        log.push(make_entry("local:fast", i));
    }
    let recent = log.recent(3);
    assert_eq!(recent.len(), 3);
}

#[test]
fn oldest_entry_evicted_when_capacity_exceeded() {
    let mut log = TrafficLog::new(3);
    log.push(make_entry("oldest", 1));
    log.push(make_entry("middle", 2));
    log.push(make_entry("newest", 3));
    log.push(make_entry("extra", 4));

    let all = log.recent(100);
    assert_eq!(all.len(), 3);
    assert!(!all.iter().any(|e| e.tier == "oldest"));
    assert!(all.iter().any(|e| e.tier == "extra"));
}

#[test]
fn ring_keeps_last_capacity_records_newest_first() {
    let mut log = TrafficLog::new(4);
    for i in 0..10u64 {
        log.push(make_entry("t", i));
    }
    let all = log.recent(usize::MAX);
    let latencies: Vec<u64> = all.iter().map(|e| e.latency_ms).collect();
    assert_eq!(latencies, vec![9, 8, 7, 6]);
    assert_eq!(log.len(), 4);
    assert_eq!(log.capacity(), 4);
}

#[test]
fn ring_with_fewer_pushes_than_capacity_keeps_all() {
    let mut log = TrafficLog::new(8);
    for i in 0..3u64 {
        log.push(make_entry("t", i));
    }
    let latencies: Vec<u64> = log.recent(8).iter().map(|e| e.latency_ms).collect();
    assert_eq!(latencies, vec![2, 1, 0]);
}

#[test]
fn zero_capacity_records_nothing() {
    let mut log = TrafficLog::new(0);
    log.push(make_entry("t", 1));
    log.push(make_entry("t", 2));
    assert_eq!(log.len(), 0);
    assert!(log.recent(10).is_empty());
}

#[test]
fn stats_on_empty_log() {
    let log = TrafficLog::new(10);
    let stats = log.stats();
    assert_eq!(stats.total_requests, 0);
    assert_eq!(stats.latency_sum_ms, 0);
    assert!(stats.tier_counts.is_empty());
}

#[test]
fn stats_averages_latency_correctly() {
    let mut log = TrafficLog::new(10);
    log.push(make_entry("local:fast", 100));
    log.push(make_entry("local:fast", 200));
    log.push(make_entry("cloud:economy", 300));

    let stats = log.stats();
    assert_eq!(stats.total_requests, 3);
    let avg = stats.latency_sum_ms as f64 / stats.total_requests as f64;
    assert!((avg - 200.0).abs() < f64::EPSILON);
}

#[test]
fn stats_counts_requests_per_tier() {
    let mut log = TrafficLog::new(10);
    log.push(make_entry("local:fast", 10));
    log.push(make_entry("local:fast", 20));
    log.push(make_entry("cloud:economy", 30));

    let stats = log.stats();
    assert_eq!(stats.tier_count("local:fast"), 2);
    assert_eq!(stats.tier_count("cloud:economy"), 1);
    assert_eq!(stats.tier_count("absent"), 0);
    assert_eq!(stats.tier_counts.len(), 2);
}

#[test]
fn stats_counts_errors_and_escalations() {
    let mut log = TrafficLog::new(10);
    log.push(entry_for("a", "b", false));
    log.push(entry_for("a", "b", true).mark_escalated());
    log.push(entry_for("a", "b", false).with_error("boom"));
    let stats = log.stats();
    assert_eq!(stats.error_count, 2);
    assert_eq!(stats.escalation_count, 1);
    assert_eq!(stats.latency_sum_ms, 30);
}

#[test]
fn entry_has_unique_ids() {
    let a = make_entry("local:fast", 1);
    let b = make_entry("local:fast", 1);
    assert_ne!(a.id, b.id, "every entry must have a unique UUID");
    assert_eq!(a.id.len(), 36);
}

#[test]
fn entry_records_success_flag() {
    let ok = TrafficEntry::new("t".into(), "b".into(), 0, true);
    let err = TrafficEntry::new("t".into(), "b".into(), 0, false);
    assert!(ok.success);
    assert!(!err.success);
}

#[test]
fn entry_builders_attach_context() {
    let e = make_entry("t", 5)
        .with_profile("default")
        .with_requested_model("hint:fast")
        .with_routing_mode("escalate")
        .with_id("req-1")
        .mark_escalated()
        .with_error("oops");
    assert_eq!(e.profile.as_deref(), Some("default"));
    assert_eq!(e.requested_model.as_deref(), Some("hint:fast"));
    assert_eq!(e.routing_mode.as_deref(), Some("escalate"));
    assert_eq!(e.id, "req-1");
    assert!(e.escalated);
    assert_eq!(e.error.as_deref(), Some("oops"));
    assert_eq!(e.tier, "t");
}

#[test]
fn backend_health_over_window() {
    let mut log = TrafficLog::new(20);
    log.push(entry_for("t", "old", false));
    log.push(entry_for("t", "sick", false));
    log.push(entry_for("t", "sick", false));
    log.push(entry_for("t", "sick", true));
    log.push(entry_for("t", "fine", false));
    log.push(entry_for("t", "fine", true));
    log.push(entry_for("t", "fine", true));
    log.push(entry_for("t", "fine", true));
    let health = log.backend_health(7, 500);
    let find = |name: &str| health.iter().find(|(n, _)| n == name).map(|(_, h)| *h);
    assert!(find("old").is_none());
    let sick = find("sick").unwrap();
    assert_eq!((sick.total, sick.errors), (3, 2));
    assert!(!sick.healthy);
    let fine = find("fine").unwrap();
    assert_eq!((fine.total, fine.errors), (4, 1));
    assert!(fine.healthy);
}

#[test]
fn backend_with_few_samples_is_healthy() {
    let mut log = TrafficLog::new(20);
    log.push(entry_for("t", "new", false));
    log.push(entry_for("t", "new", false));
    let health = log.backend_health(10, 0);
    assert_eq!(health.len(), 1);
    assert_eq!(health[0].0, "new");
    assert_eq!(health[0].1.total, 2);
    assert!(health[0].1.healthy);
}
