use ners::metrics::{MetricsCollector, StageMetrics, StageMetricsSnapshot};

#[test]
fn test_stage_metrics() {
    let mut metrics = StageMetrics::new("test");

    metrics.inc_processed();
    metrics.inc_processed();
    metrics.record_latency(1000);
    metrics.record_latency(2000);

    let snapshot = metrics.snapshot();
    assert_eq!(snapshot.processed_count, 2);
    assert_eq!(snapshot.latency_max_ns, 2000);
}

#[test]
fn test_metrics_collector() {
    let mut collector = MetricsCollector::new();

    collector.inc_total_conns();
    collector.inc_total_requests();

    if let Some(stage) = collector.stage_mut("net_in") {
        stage.inc_processed();
    }

    let snapshot = collector.snapshot();
    assert_eq!(snapshot.total_conns, 1);
    assert_eq!(snapshot.total_requests, 1);
    assert_eq!(snapshot.stage("net_in").unwrap().processed_count, 1);
}

#[test]
fn metrics_latency_sum_and_average() {
    let mut m = StageMetrics::new("parse");
    m.record_latency(3000);
    m.record_latency(1000);
    m.inc_processed();
    m.inc_processed();
    let s = m.snapshot();
    assert_eq!(s.latency_sum_ns, 4000);
    assert_eq!(s.latency_max_ns, 3000);
    assert_eq!(s.avg_latency_ns(), 2000);
}

#[test]
fn metrics_average_of_nothing_is_zero() {
    let s = StageMetricsSnapshot {
        id: "x",
        processed_count: 0,
        current_queue_len: 0,
        latency_sum_ns: 500,
        latency_max_ns: 500,
        errors: 0,
    };
    assert_eq!(s.avg_latency_ns(), 0);
    let t = StageMetricsSnapshot { processed_count: 3, latency_sum_ns: 10, ..s };
    assert_eq!(t.avg_latency_ns(), 3);
}

#[test]
fn metrics_queue_len_wraps_below_zero() {
    let mut m = StageMetrics::new("route");
    m.dec_queue_len();
    assert_eq!(m.snapshot().current_queue_len, u64::MAX);
    m.inc_queue_len();
    assert_eq!(m.snapshot().current_queue_len, 0);
}

#[test]
fn metrics_collector_stages_and_reset() {
    let mut c = MetricsCollector::new();
    let ids: Vec<&str> = c.snapshot().stages.iter().map(|s| s.id).collect();
    assert_eq!(ids, vec!["net_in", "parse", "route", "app", "encode", "net_out"]);
    assert!(c.stage("nope").is_none());
    c.inc_queue_len("app");
    c.inc_queue_len("app");
    c.dec_queue_len("app");
    c.inc_stage_errors("parse");
    c.record_stage_end_at("route", 100, 350);
    c.record_stage_end_at("route", 500, 100);
    let s = c.snapshot();
    assert_eq!(s.stage("app").unwrap().current_queue_len, 1);
    assert_eq!(s.stage("parse").unwrap().errors, 1);
    let r = s.stage("route").unwrap();
    assert_eq!(r.processed_count, 2);
    assert_eq!(r.latency_sum_ns, 250);
    assert_eq!(r.latency_max_ns, 250);
    c.inc_total_conns();
    c.dec_total_conns();
    c.dec_total_conns();
    assert_eq!(c.snapshot().total_conns as u64, u64::MAX as usize as u64);
    c.reset();
    let s = c.snapshot();
    assert_eq!(s.total_conns, 0);
    assert_eq!(s.total_requests, 0);
    for st in s.stages.iter() {
        assert_eq!(st.processed_count, 0);
        assert_eq!(st.current_queue_len, 0);
        assert_eq!(st.errors, 0);
        assert_eq!(st.latency_max_ns, 0);
    }
}

#[test]
fn metrics_stage_timing_counts_processed() {
    let mut c = MetricsCollector::new();
    let start = c.record_stage_start("encode");
    c.record_stage_end("encode", start);
    assert_eq!(c.snapshot().stage("encode").unwrap().processed_count, 1);
}

/// The counters of a collector's snapshot, stage by stage, with its totals.
fn counters(c: &MetricsCollector) -> (Vec<(&'static str, u64, u64, u64, u64, u64)>, usize, u64) {
    let s = c.snapshot();
    let stages = s
        .stages
        .iter()
        .map(|m| (m.id, m.processed_count, m.current_queue_len, m.latency_sum_ns, m.latency_max_ns, m.errors))
        .collect();
    (stages, s.total_conns, s.total_requests)
}

#[test]
fn reset_gives_a_fresh_collector_and_is_idempotent() {
    let fresh = MetricsCollector::new();
    let mut c = MetricsCollector::new();
    c.inc_total_conns();
    c.inc_total_requests();
    c.inc_queue_len("parse");
    c.inc_stage_errors("net_out");
    c.record_stage_end_at("app", 10, 250);
    c.reset();
    assert_eq!(counters(&c), counters(&fresh));
    c.reset();
    assert_eq!(counters(&c), counters(&fresh));
}

#[test]
fn stage_timestamps_count_up_from_the_collector() {
    let mut c = MetricsCollector::new();
    let t1 = c.record_stage_start("parse");
    let t2 = c.record_stage_start("parse");
    assert!(t2 >= t1);
    c.record_stage_end("parse", t1);
    let s = c.snapshot();
    assert_eq!(s.stage("parse").unwrap().processed_count, 1);
}
