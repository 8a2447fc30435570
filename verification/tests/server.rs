use bytes::{Bytes, BytesMut};
use ners::analyzer::{AnalysisRules, Direction, MetricsAnalyzer};
use ners::conn::{ConnId, ConnLifecycle, ConnSlab, ConnState, RouteId};
use ners::handlers::{handle_health, handle_hello, handle_json, handle_not_found};
use ners::metrics::{MetricsCollector, MetricsSnapshot, StageMetricsSnapshot};
use ners::mux::IoMultiplexer;
use ners::orchestrator::{idle_step, stage_core, IdleAction, OrchestratorConfig};
use ners::queue::RingQueue;
use ners::slab::numa::NumaInfo;
use ners::slab::sharded::{ShardedSlabManager, SlabShard};
use ners::stage::{
    accept_conn, AppStage, AppStageMulti, EncodeStage, NetOutStage, NetOutStageMulti, ParseStage,
    ParseStageMulti, RouteStage, RouteStageMulti, WriteOutcome,
};
use ners::tuner::{calculate_avg_latency, next_baseline, should_rollback, TuningConstraints, TuningResult};
use std::time::Instant;

/// A connection without a network stream.
fn test_conn() -> ConnState<()> {
    ConnState::new(())
}

#[test]
fn test_slab_insert_and_get() {
    let mut slab = ConnSlab::new(10);
    let conn = test_conn();

    let id = slab.insert(conn).unwrap();
    assert!(slab.get(id).is_some());
    assert_eq!(slab.active_count(), 1);
}

#[test]
fn test_slab_remove() {
    let mut slab = ConnSlab::new(10);
    let conn = test_conn();

    let id = slab.insert(conn).unwrap();
    slab.remove(id);

    assert!(slab.get(id).is_none());
    assert_eq!(slab.vacant_count(), 10);
}

#[test]
fn test_slab_capacity() {
    let mut slab = ConnSlab::new(2);

    assert!(slab.insert(test_conn()).is_some());
    assert!(slab.insert(test_conn()).is_some());
    assert!(slab.insert(test_conn()).is_none()); // Full
}

#[test]
fn slab_hands_out_lowest_slot_first_and_reuses() {
    let mut slab: ConnSlab<()> = ConnSlab::new(3);
    assert_eq!(slab.insert(test_conn()), Some(ConnId(0)));
    assert_eq!(slab.insert(test_conn()), Some(ConnId(1)));
    slab.remove(ConnId(0));
    slab.remove(ConnId(7));
    assert_eq!(slab.insert(test_conn()), Some(ConnId(0)));
    assert_eq!(slab.insert(test_conn()), Some(ConnId(2)));
    assert_eq!(slab.active_count(), 3);
    let c = slab.get_mut(ConnId(1)).unwrap();
    c.bytes_written = 5;
    assert_eq!(slab.get(ConnId(1)).unwrap().bytes_written, 5);
    let mut c = test_conn();
    c.state = ConnLifecycle::Closed;
    c.reset();
    assert_eq!(c.state, ConnLifecycle::WaitingForRequest);
    assert!(c.stream.is_none());
}

#[test]
fn test_slab_shard_allocate() {
    let mut shard: SlabShard<()> = SlabShard::new(0, 0, 10);

    let slot1 = shard.allocate();
    assert!(slot1.is_some());

    let slot2 = shard.allocate();
    assert!(slot2.is_some());
    assert_ne!(slot1, slot2);

    assert_eq!(shard.len(), 2);
}

#[test]
fn test_slab_shard_deallocate() {
    let mut shard: SlabShard<()> = SlabShard::new(0, 0, 10);

    let slot = shard.allocate().unwrap();
    assert_eq!(shard.len(), 1);

    shard.deallocate(slot);
    assert_eq!(shard.len(), 0);
}

fn manager(n: usize, cap: usize) -> ShardedSlabManager<()> {
    ShardedSlabManager::with_numa(n, cap, NumaInfo::from_topology(n, 1))
}

#[test]
fn test_sharded_manager_creation() {
    let manager = manager(4, 100);

    assert_eq!(manager.num_shards(), 4);
    assert_eq!(manager.total_allocated(), 0);
}

#[test]
fn test_least_loaded_core() {
    let manager = manager(4, 100);
    let core = manager.least_loaded_core();
    assert!(core < 4);
}

#[test]
fn test_get_shard() {
    let manager = manager(4, 100);
    assert!(manager.get_shard(0).is_some());
    assert!(manager.get_shard(3).is_some());
    assert!(manager.get_shard(4).is_none());
}

#[test]
fn sharded_manager_places_and_balances() {
    let mut m: ShardedSlabManager<()> = ShardedSlabManager::with_numa(4, 2, NumaInfo::from_topology(4, 2));
    assert_eq!(m.allocate(1, test_conn()), Some((1, 0)));
    assert_eq!(m.allocate(1, test_conn()), Some((1, 1)));
    assert_eq!(m.allocate(1, test_conn()), None);
    assert_eq!(m.allocate(9, test_conn()), None);
    assert_eq!(m.allocate(0, test_conn()), Some((0, 0)));
    assert_eq!(m.total_allocated(), 3);
    assert_eq!(m.least_loaded_core(), 2);
    assert_eq!(m.least_loaded_core_on_node(0), Some(0));
    assert_eq!(m.least_loaded_core_on_node(1), Some(2));
    assert_eq!(m.least_loaded_core_on_node(5), None);
    assert!(m.get(1, 1).is_some());
    m.deallocate(1, 1);
    assert!(m.get(1, 1).is_none());
    assert_eq!(m.get_shard(3).unwrap().numa_node, 1);
    assert_eq!(m.numa_info().num_nodes, 2);
}

#[test]
fn numa_layouts() {
    let info = NumaInfo::from_topology(8, 2);
    assert_eq!(info.cores_per_node, 4);
    assert_eq!(info.core_to_node.len(), info.total_cores);
    assert_eq!(info.node_for_core(0), 0);
    assert_eq!(info.node_for_core(5), 1);
    assert_eq!(info.node_for_core(100), 0);
    assert_eq!(info.cores_in_node(1), vec![4, 5, 6, 7]);
    assert!(info.same_node(4, 7));
    assert!(!info.same_node(3, 4));
    let one = NumaInfo::single_node(3);
    assert_eq!(one.cores_in_node(0), vec![0, 1, 2]);
    assert_eq!(one.mapped_cores(), 3);
}

#[test]
fn test_mux_creation() {
    let mux = IoMultiplexer::new(256);
    assert!(mux.is_ok());
}

#[test]
fn test_queue_operations() {
    let mut mux = IoMultiplexer::new(256).unwrap();

    mux.queue_accept(5);
    mux.queue_read(ConnId(0), 6, &mut BytesMut::new());
    mux.queue_write(ConnId(1), 7, &Bytes::new());

    let flushed = mux.flush().unwrap();
    assert_eq!(flushed, 3);
    assert_eq!(mux.pending_count(), 3);
}

#[test]
fn mux_tokens_accumulate() {
    let mut mux = IoMultiplexer::default();
    assert!(!mux.has_pending());
    mux.queue_write(ConnId(1), 7, &Bytes::from_static(b"abc"));
    assert_eq!(mux.flush().unwrap(), 1);
    assert_eq!(mux.flush().unwrap(), 0);
    mux.queue_accept(3);
    assert_eq!(mux.flush().unwrap(), 1);
    assert_eq!(mux.pending_count(), 2);
    assert!(mux.has_pending());
    assert!(mux.poll().is_empty());
}

fn snapshot_with(queue_len: u64, latency: u64) -> MetricsSnapshot {
    MetricsSnapshot {
        timestamp: Instant::now(),
        stages: vec![StageMetricsSnapshot {
            id: "parse",
            processed_count: 100,
            current_queue_len: queue_len,
            latency_sum_ns: latency * 100,
            latency_max_ns: latency,
            errors: 0,
        }],
        total_conns: 10,
        total_requests: 100,
    }
}

#[test]
fn test_bottleneck_detection() {
    let mut analyzer = MetricsAnalyzer::default();

    // Add snapshot with high latency
    analyzer.add_snapshot(snapshot_with(100, 10_000_000)); // 10ms

    let bottleneck = analyzer.identify_bottleneck();
    assert_eq!(bottleneck, Some("parse"));
}

#[test]
fn test_queue_overflow_detection() {
    let mut analyzer = MetricsAnalyzer::default();

    analyzer.add_snapshot(snapshot_with(1000, 1_000_000)); // High queue

    let overflows = analyzer.detect_queue_overflow();
    assert!(overflows.contains(&"parse"));
}

#[test]
fn analyzer_trends_and_history() {
    let mut a = MetricsAnalyzer::new(AnalysisRules { p99_target_ns: 1, queue_threshold: 10, trend_window: 2 });
    assert!(a.identify_bottleneck().is_none());
    assert!(a.latest().is_none());
    a.add_snapshot(snapshot_with(100, 1000));
    a.add_snapshot(snapshot_with(100, 1000));
    assert!(a.get_trend("parse").is_none());
    a.add_snapshot(snapshot_with(120, 1000));
    let t = a.get_trend("parse").unwrap();
    assert_eq!(t.queue_trend, Direction::Increasing);
    assert_eq!(t.latency_trend, Direction::Stable);
    a.add_snapshot(snapshot_with(50, 1000));
    assert_eq!(a.get_trend("parse").unwrap().queue_trend, Direction::Decreasing);
    assert_eq!(a.history_len(), 4);
    assert_eq!(a.latest_queue_total(), 50);
    for _ in 0..70 {
        a.add_snapshot(snapshot_with(1, 1));
    }
    assert_eq!(a.history_len(), 60);
}

#[test]
fn test_constraint_validation() {
    let constraints = TuningConstraints::default();
    // Should reject queue size exceeding max
    assert!(!constraints.allows_increase(100_000));
    // Should accept valid queue size
    assert!(constraints.allows_increase(5000));
}

#[test]
fn tuning_arithmetic() {
    assert!(!constraints_default().allows_decrease(99));
    assert!(!should_rollback(0, 1_000_000));
    assert!(should_rollback(100, 151));
    assert!(!should_rollback(100, 150));
    assert_eq!(next_baseline(0, 50), 50);
    assert_eq!(next_baseline(100, 0), 100);
    assert_eq!(next_baseline(100, 200), 110);
    let s = snapshot_with(0, 3000);
    assert_eq!(calculate_avg_latency(&s), 3000);
    assert_ne!(TuningResult::Applied, TuningResult::RolledBack);
}

fn constraints_default() -> TuningConstraints {
    TuningConstraints::default()
}

#[test]
fn orchestration_decisions() {
    let c = OrchestratorConfig::default();
    assert_eq!((c.slab_capacity, c.queue_capacity, c.start_core), (10_000, 4096, 0));
    assert_eq!(stage_core(2, 3, 4), 1);
    assert_eq!(idle_step(0, 5), (0, IdleAction::Continue));
    assert_eq!(idle_step(999, 0), (1000, IdleAction::Yield));
    assert_eq!(idle_step(1000, 0), (1001, IdleAction::Sleep));
}

fn request_into(slab: &mut ConnSlab<()>, id: ConnId, text: &str) {
    slab.get_mut(id).unwrap().read_buf.extend_from_slice(text.as_bytes());
}

#[test]
fn pipeline_serves_a_request() {
    let mut slab: ConnSlab<()> = ConnSlab::new(4);
    let mut metrics = MetricsCollector::new();
    let mut q_parse = RingQueue::new(8);
    let mut q_route = RingQueue::new(8);
    let mut q_app = RingQueue::new(8);
    let mut q_encode = RingQueue::new(8);
    let mut q_out = RingQueue::new(8);

    let id = accept_conn((), &mut slab, &mut q_parse, &mut metrics).unwrap();
    request_into(&mut slab, id, "GET /api/test HTTP/1.1\r\nHost: x\r\n\r\n");

    let mut parse = ParseStage::new();
    let next = parse.next(&mut q_parse, &mut metrics).unwrap();
    parse.finish(next, &mut q_parse, &mut q_route, &mut slab, &mut metrics);
    assert_eq!(slab.get(id).unwrap().state, ConnLifecycle::Routed);
    assert_eq!(slab.get(id).unwrap().request_path.as_deref(), Some("/api/test"));

    RouteStage::new().process(&mut q_route, &mut q_app, &mut slab, &mut metrics);
    assert_eq!(slab.get(id).unwrap().route_id, Some(RouteId(1)));

    AppStage::new().process(&mut q_app, &mut q_encode, &mut slab, &mut metrics);
    EncodeStage::new().process(&mut q_encode, &mut q_out);
    let written = slab.get(id).unwrap().write_buf.clone();
    let text = std::str::from_utf8(&written).unwrap();
    assert!(text.starts_with("HTTP/1.1 200 OK"));
    assert!(text.contains("application/json"));

    let mut out = NetOutStage::new();
    let next = out.next(&mut q_out, &mut metrics).unwrap();
    out.finish(next, WriteOutcome::Written(written.len()), &mut q_out, &mut slab, &mut metrics);
    assert!(slab.get(id).is_none());
    let snap = metrics.snapshot();
    assert_eq!(snap.total_conns, 0);
    assert_eq!(snap.total_requests, 1);
    assert_eq!(snap.stage("parse").unwrap().current_queue_len, 0);
}

#[test]
fn pipeline_incomplete_and_invalid_requests() {
    let mut slab: ConnSlab<()> = ConnSlab::new(4);
    let mut metrics = MetricsCollector::new();
    let mut q_parse = RingQueue::new(8);
    let mut q_route = RingQueue::new(8);
    let a = accept_conn((), &mut slab, &mut q_parse, &mut metrics).unwrap();
    let b = accept_conn((), &mut slab, &mut q_parse, &mut metrics).unwrap();
    request_into(&mut slab, a, "GET / HTTP/1.1\r\n");
    request_into(&mut slab, b, "GET\r\nA: b\r\n\r\n");
    let mut parse = ParseStage::new();
    let x = parse.next(&mut q_parse, &mut metrics).unwrap();
    parse.finish(x, &mut q_parse, &mut q_route, &mut slab, &mut metrics);
    let y = parse.next(&mut q_parse, &mut metrics).unwrap();
    parse.finish(y, &mut q_parse, &mut q_route, &mut slab, &mut metrics);
    assert_eq!(q_parse.pop(), Some(a));
    assert!(q_route.is_empty());
    assert_eq!(slab.get(b).unwrap().state, ConnLifecycle::Closed);
    assert_eq!(metrics.snapshot().stage("parse").unwrap().errors, 1);
}

#[test]
fn multi_stages_one_at_a_time() {
    let mut slab: ConnSlab<()> = ConnSlab::new(2);
    let mut metrics = MetricsCollector::new();
    let id = ners::stage::accept_conn_one((), &mut slab, &mut metrics).unwrap();
    request_into(&mut slab, id, "GET /missing HTTP/1.1\r\nHost: x\r\n\r\n");
    assert_eq!(ParseStageMulti::new().process_one(id, &mut slab, &mut metrics), Some(id));
    assert_eq!(RouteStageMulti::new().process_one(id, &mut slab), Some(id));
    assert_eq!(slab.get(id).unwrap().route_id, Some(RouteId(999)));
    assert_eq!(AppStageMulti::new().process_one(id, &mut slab, &mut metrics), Some(id));
    let text = String::from_utf8(slab.get(id).unwrap().write_buf.to_vec()).unwrap();
    assert!(text.starts_with("HTTP/1.1 404 Not Found"));
    let mut out = NetOutStageMulti::new();
    assert_eq!(out.process_one(id, WriteOutcome::Written(3), &mut slab, &mut metrics), None);
    assert_eq!(slab.get(id).unwrap().bytes_written, 3);
    assert_eq!(out.process_one(id, WriteOutcome::Failed, &mut slab, &mut metrics), None);
    assert!(slab.get(id).is_none());
    assert_eq!(metrics.snapshot().stage("net_out").unwrap().errors, 1);
    assert_eq!(RouteStageMulti::new().process_one(id, &mut slab), None);
}

#[test]
fn handlers_write_responses() {
    let mut c = test_conn();
    handle_hello(&mut c);
    let text = String::from_utf8(c.write_buf.to_vec()).unwrap();
    assert!(text.starts_with("HTTP/1.1 200 OK"));
    assert!(text.contains("Hello, World!"));
    assert!(text.contains("text/html; charset=utf-8"));
    let mut c = test_conn();
    handle_json(&mut c);
    handle_health(&mut c);
    let text = String::from_utf8(c.write_buf.to_vec()).unwrap();
    assert!(text.contains("\"status\": \"ok\""));
    assert!(text.contains("\"status\": \"healthy\""));
    let mut c = test_conn();
    handle_not_found(&mut c);
    assert!(String::from_utf8(c.write_buf.to_vec()).unwrap().ends_with("\r\n\r\n404 Not Found"));
}

/// A stage snapshot with the given queue length and average latency.
fn stage_with(id: &'static str, queue_len: u64, latency: u64) -> StageMetricsSnapshot {
    StageMetricsSnapshot {
        id,
        processed_count: 1,
        current_queue_len: queue_len,
        latency_sum_ns: latency,
        latency_max_ns: latency,
        errors: 0,
    }
}

#[test]
fn large_counters_do_not_overflow() {
    let big = u64::MAX;
    let s = MetricsSnapshot {
        timestamp: Instant::now(),
        stages: vec![stage_with("parse", big, big), stage_with("route", big, big - 1)],
        total_conns: 0,
        total_requests: 0,
    };
    // The mean of the two averages, rounded down.
    assert_eq!(calculate_avg_latency(&s), big - 1);
    let mut a = MetricsAnalyzer::new(AnalysisRules { p99_target_ns: 1, queue_threshold: 10, trend_window: 1 });
    a.add_snapshot(s.clone());
    a.add_snapshot(s);
    assert_eq!(a.latest_queue_total(), 2 * (big as u128));
    assert_eq!(a.get_trend("parse").unwrap().queue_trend, Direction::Stable);
    assert!(!should_rollback(big, big));
    assert!(should_rollback(big / 2, big));
    assert_eq!(next_baseline(big, big), big);
}

#[test]
fn test_node_for_core() {
    // Core 0 should always be on node 0, on every layout.
    for (cores, nodes) in [(1usize, 1usize), (4, 1), (8, 2), (7, 3), (64, 4)] {
        let info = NumaInfo::from_topology(cores, nodes);
        assert_eq!(info.node_for_core(0), 0);
    }
    assert_eq!(NumaInfo::single_node(6).node_for_core(0), 0);
    assert_eq!(NumaInfo::from_topology(0, 1).node_for_core(0), 0);
}

#[test]
fn active_count_counts_live_connections() {
    let mut slab: ConnSlab<()> = ConnSlab::new(5);
    assert_eq!(slab.active_count(), 0);
    let a = slab.insert(test_conn()).unwrap();
    let _b = slab.insert(test_conn()).unwrap();
    let _c = slab.insert(test_conn()).unwrap();
    assert_eq!(slab.active_count(), 3);
    assert_eq!(slab.vacant_count(), 2);
    slab.remove(a);
    assert_eq!(slab.active_count(), 2);
    let live = (0..5).filter(|&i| slab.get(ConnId(i)).is_some()).count();
    assert_eq!(live, slab.active_count());
}

#[test]
fn deallocating_a_fresh_slot_undoes_the_allocation() {
    let mut shard: SlabShard<()> = SlabShard::new(0, 0, 4);
    let first = shard.allocate().unwrap();
    shard.deallocate(first);
    assert_eq!(shard.len(), 0);
    assert_eq!(shard.allocate(), Some(first));
    assert_eq!(shard.len(), 1);
}

#[test]
fn batching_candidates_overflow_and_rise() {
    let mut a = MetricsAnalyzer::new(AnalysisRules { p99_target_ns: 1, queue_threshold: 10, trend_window: 1 });
    assert!(a.batching_candidates().is_empty());
    a.add_snapshot(snapshot_with(20, 1000));
    // Overflowing, but no trend yet.
    assert_eq!(a.detect_queue_overflow(), vec!["parse"]);
    assert!(a.batching_candidates().is_empty());
    a.add_snapshot(snapshot_with(40, 1000));
    assert_eq!(a.batching_candidates(), vec!["parse"]);
    a.add_snapshot(snapshot_with(30, 1000));
    // Still overflowing, but shrinking.
    assert!(a.batching_candidates().is_empty());
}

#[test]
fn parse_and_net_out_rounds_take_at_most_a_batch() {
    let mut metrics = MetricsCollector::new();
    let mut q = RingQueue::new(256);
    for i in 0..150usize {
        q.push(ConnId(i)).unwrap();
    }
    let mut parse = ParseStage::new();
    let mut taken = 0;
    while parse.next(&mut q, &mut metrics).is_some() {
        taken += 1;
    }
    assert_eq!(taken, ners::stage::BATCH);
    assert_eq!(q.len(), 50);
    parse.start_round();
    let mut rest = 0;
    while parse.next(&mut q, &mut metrics).is_some() {
        rest += 1;
    }
    assert_eq!(rest, 50);

    for i in 0..120usize {
        q.push(ConnId(i)).unwrap();
    }
    let mut out = NetOutStage::new();
    let mut sent = 0;
    while out.next(&mut q, &mut metrics).is_some() {
        sent += 1;
    }
    assert_eq!(sent, 100);
    out.start_round();
    assert_eq!(out.next(&mut q, &mut metrics), Some(ConnId(100)));
}
