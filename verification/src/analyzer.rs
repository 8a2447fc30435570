//! Metrics analysis for tuning: a history of snapshots, per-stage trends, the
//! bottleneck stage and the stages whose queues overflow.
use vstd::prelude::*;
use std::collections::VecDeque;
use crate::metrics::{MetricsSnapshot, StageMetricsSnapshot, find_stage};
use crate::text::str_eq;

verus! {

/// Which way a metric is going.
#[derive(Debug, Clone, Copy, PartialEq, Eq, Structural)]
pub enum Direction {
    Increasing,
    Decreasing,
    Stable,
}

/// The trends of one stage.
#[derive(Debug, Clone)]
pub struct StageTrend {
    pub stage_id: &'static str,
    pub latency_trend: Direction,
    pub queue_trend: Direction,
    pub throughput_trend: Direction,
}

/// What the analysis looks for.
#[derive(Debug, Clone)]
pub struct AnalysisRules {
    /// Average latency above which a stage can be the bottleneck (ns).
    pub p99_target_ns: u64,
    /// Queue length above which a stage's queue overflows.
    pub queue_threshold: u64,
    /// How many past snapshots a trend compares against.
    pub trend_window: usize,
}

impl Default for AnalysisRules {
    /// Target 5 ms, queue threshold 500, trends over 3 snapshots.
    fn default() -> (r: Self)
        ensures
            r.p99_target_ns == 5_000_000,
            r.queue_threshold == 500,
            r.trend_window == 3,
    {
        AnalysisRules { p99_target_ns: 5_000_000, queue_threshold: 500, trend_window: 3 }
    }
}

/// The average latency of a stage snapshot (0 when nothing was processed).
pub open spec fn avg_latency(s: StageMetricsSnapshot) -> u64 {
    if s.processed_count > 0 { (s.latency_sum_ns / s.processed_count) as u64 } else { 0 }
}

/// The snapshots of stage `id` in a run of metrics snapshots, in order, skipping
/// the snapshots that lack it.
pub open spec fn series(h: Seq<MetricsSnapshot>, id: Seq<char>) -> Seq<StageMetricsSnapshot>
    decreases h.len(),
{
    if h.len() == 0 {
        Seq::empty()
    } else {
        let r = series(h.drop_last(), id);
        match find_stage(h.last().stages@, id, 0) {
            Some(k) => r.push(h.last().stages@[k]),
            None => r,
        }
    }
}

/// The sum of a sequence of counters.
pub open spec fn sum_of(s: Seq<u64>) -> nat
    decreases s.len(),
{
    if s.len() == 0 { 0 } else { sum_of(s.drop_last()) + s.last() as nat }
}

/// The direction of `current` against the average of `hist`: more than 10% above
/// is increasing, more than 10% below decreasing, else stable (and stable with no
/// history). The average and the 10% are rounded down.
pub open spec fn direction(hist: Seq<u64>, current: u64) -> Direction {
    if hist.len() == 0 {
        Direction::Stable
    } else {
        let avg = sum_of(hist) / hist.len();
        let th = avg / 10;
        if current > avg + th {
            Direction::Increasing
        } else if current + th < avg {
            Direction::Decreasing
        } else {
            Direction::Stable
        }
    }
}

/// The average latencies of a series.
pub open spec fn latencies(s: Seq<StageMetricsSnapshot>) -> Seq<u64> {
    s.map_values(|m: StageMetricsSnapshot| avg_latency(m))
}

/// The queue lengths of a series.
pub open spec fn queue_lens(s: Seq<StageMetricsSnapshot>) -> Seq<u64> {
    s.map_values(|m: StageMetricsSnapshot| m.current_queue_len)
}

/// The processed counts of a series.
pub open spec fn processed(s: Seq<StageMetricsSnapshot>) -> Seq<u64> {
    s.map_values(|m: StageMetricsSnapshot| m.processed_count)
}

/// The trends of a stage against its series in the window.
pub open spec fn trend_of(w: Seq<MetricsSnapshot>, c: StageMetricsSnapshot) -> StageTrend {
    let s = series(w, c.id@);
    StageTrend {
        stage_id: c.id,
        latency_trend: direction(latencies(s), avg_latency(c)),
        queue_trend: direction(queue_lens(s), c.current_queue_len),
        throughput_trend: direction(processed(s), c.processed_count),
    }
}

/// Index of the trend of the stage named `id`.
pub open spec fn find_trend(t: Seq<StageTrend>, id: Seq<char>, i: int) -> Option<int>
    decreases t.len() - i,
{
    if i < 0 || i >= t.len() {
        None
    } else if t[i].stage_id@ == id {
        Some(i)
    } else {
        find_trend(t, id, i + 1)
    }
}

/// Records a stage's trend: replacing the stage's earlier trend in place, or appended.
pub open spec fn trend_insert(t: Seq<StageTrend>, e: StageTrend) -> Seq<StageTrend> {
    match find_trend(t, e.stage_id@, 0) {
        Some(i) => t.update(i, e),
        None => t.push(e),
    }
}

/// The trends after looking at the stages `cs` of a new snapshot against the
/// window `w`; a stage with no history in the window gets no trend.
pub open spec fn apply_trends(t: Seq<StageTrend>, w: Seq<MetricsSnapshot>, cs: Seq<StageMetricsSnapshot>) -> Seq<StageTrend>
    decreases cs.len(),
{
    if cs.len() == 0 {
        t
    } else {
        let t1 = apply_trends(t, w, cs.drop_last());
        let c = cs.last();
        if series(w, c.id@).len() == 0 { t1 } else { trend_insert(t1, trend_of(w, c)) }
    }
}

/// The analyzer as the contracts see it.
pub struct AnalyzerV {
    pub history: Seq<MetricsSnapshot>,
    pub trends: Seq<StageTrend>,
    pub rules: AnalysisRules,
    pub max_history: nat,
}

/// The history after the oldest snapshot makes room, if it is full.
pub open spec fn trimmed(a: AnalyzerV) -> Seq<MetricsSnapshot> {
    if a.history.len() >= a.max_history && a.history.len() > 0 { a.history.drop_first() } else { a.history }
}

/// The window of the last `trend_window` snapshots, when there are that many.
pub open spec fn window(h: Seq<MetricsSnapshot>, w: nat) -> Option<Seq<MetricsSnapshot>> {
    if h.len() < w { None } else { Some(h.skip(h.len() - w)) }
}

/// The analyzer after a new snapshot: the oldest snapshot goes when the history
/// is full, the trends of the snapshot's stages are computed against the last
/// `trend_window` snapshots (when there are that many), and the snapshot joins
/// the history.
pub open spec fn add_snapshot_spec(a: AnalyzerV, s: MetricsSnapshot) -> AnalyzerV {
    let h1 = trimmed(a);
    AnalyzerV {
        history: h1.push(s),
        trends: match window(h1, a.rules.trend_window as nat) {
            Some(w) => apply_trends(a.trends, w, s.stages@),
            None => a.trends,
        },
        ..a
    }
}

/// The bottleneck among the first `n` stages: the first with the highest average
/// latency above the target, and that latency (0 and none when there is none).
pub open spec fn bottleneck_in(st: Seq<StageMetricsSnapshot>, target: u64, n: int) -> (u64, Option<&'static str>)
    decreases n,
{
    if n <= 0 {
        (0, None)
    } else {
        let (m, b) = bottleneck_in(st, target, n - 1);
        let a = avg_latency(st[n - 1]);
        if a > m && a > target { (a, Some(st[n - 1].id)) } else { (m, b) }
    }
}

/// The ids of the first `n` stages whose queue is longer than the threshold.
pub open spec fn overflow_ids(st: Seq<StageMetricsSnapshot>, th: u64, n: int) -> Seq<&'static str>
    decreases n,
{
    if n <= 0 {
        Seq::empty()
    } else if st[n - 1].current_queue_len > th {
        overflow_ids(st, th, n - 1).push(st[n - 1].id)
    } else {
        overflow_ids(st, th, n - 1)
    }
}

/// Whether the recorded trend of stage `id` has its queue growing.
pub open spec fn queue_rising(trends: Seq<StageTrend>, id: Seq<char>) -> bool {
    match find_trend(trends, id, 0) {
        Some(i) => trends[i].queue_trend == Direction::Increasing,
        None => false,
    }
}

/// The first `n` of `ids` whose queue is growing, in order.
pub open spec fn rising_ids(ids: Seq<&'static str>, trends: Seq<StageTrend>, n: int) -> Seq<&'static str>
    decreases n,
{
    if n <= 0 {
        Seq::empty()
    } else if queue_rising(trends, ids[n - 1]@) {
        rising_ids(ids, trends, n - 1).push(ids[n - 1])
    } else {
        rising_ids(ids, trends, n - 1)
    }
}

/// The overflowing stages of the analyzer's latest snapshot (none without history).
pub open spec fn latest_overflows(a: AnalyzerV) -> Seq<&'static str> {
    if a.history.len() == 0 {
        Seq::empty()
    } else {
        let st = a.history.last().stages@;
        overflow_ids(st, a.rules.queue_threshold, st.len() as int)
    }
}

/// The sum of the queue lengths of stage snapshots.
pub open spec fn queue_total(st: Seq<StageMetricsSnapshot>) -> nat {
    sum_of(queue_lens(st))
}

/// Turns metrics snapshots into tuning insights.
pub struct MetricsAnalyzer {
    history: VecDeque<MetricsSnapshot>,
    trends: Vec<StageTrend>,
    rules: AnalysisRules,
    max_history: usize,
}

pub(crate) proof fn lemma_sum_bound(s: Seq<u64>)
    ensures
        sum_of(s) <= s.len() * (u64::MAX as nat),
    decreases s.len(),
{
    if s.len() > 0 {
        lemma_sum_bound(s.drop_last());
        assert(sum_of(s.drop_last()) + s.last() as nat <= (s.len() - 1) * (u64::MAX as nat) + u64::MAX as nat);
        assert((s.len() - 1) * (u64::MAX as nat) + u64::MAX as nat == s.len() * (u64::MAX as nat)) by (nonlinear_arith);
    }
}

/// The direction of `current` against the values in `history` (see `direction`).
fn calculate_direction(history: &Vec<u64>, current: u64) -> (d: Direction)
    ensures
        d == direction(history@, current),
{
    if history.len() == 0 {
        return Direction::Stable;
    }
    let mut sum: u128 = 0;
    let mut i: usize = 0;
    while i < history.len()
        invariant
            i <= history@.len(),
            sum == sum_of(history@.take(i as int)),
        decreases history@.len() - i,
    {
        proof {
            let t = history@.take(i + 1);
            assert(t.drop_last() =~= history@.take(i as int));
            lemma_sum_bound(t);
            let n: nat = (i + 1) as nat;
            assert(n * (u64::MAX as nat) <= u128::MAX) by (nonlinear_arith)
                requires n <= usize::MAX;
        }
        sum = sum + history[i] as u128;
        i = i + 1;
    }
    assert(history@.take(i as int) =~= history@);
    let len = history.len() as u128;
    proof {
        lemma_sum_bound(history@);
        assert(sum / len <= u64::MAX) by (nonlinear_arith)
            requires sum <= len * (u64::MAX as nat), len > 0;
    }
    let avg = sum / len;
    let threshold = avg / 10;
    let cur = current as u128;
    if cur > avg + threshold {
        Direction::Increasing
    } else if cur + threshold < avg {
        Direction::Decreasing
    } else {
        Direction::Stable
    }
}

impl MetricsAnalyzer {
    /// The analyzer's history, trends and rules.
    pub closed spec fn view(&self) -> AnalyzerV {
        AnalyzerV { history: self.history@, trends: self.trends@, rules: self.rules, max_history: self.max_history as nat }
    }

    /// An analyzer with no history, keeping up to 60 snapshots.
    pub fn new(rules: AnalysisRules) -> (a: Self)
        ensures
            a@ == (AnalyzerV { history: Seq::empty(), trends: Seq::empty(), rules, max_history: 60 }),
    {
        MetricsAnalyzer { history: VecDeque::with_capacity(60), trends: Vec::new(), rules, max_history: 60 }
    }

    /// The snapshots of stage `id` in the history from `start` on.
    fn series_of(&self, start: usize, id: &str) -> (res: Vec<StageMetricsSnapshot>)
        requires
            start <= self@.history.len(),
        ensures
            res@ == series(self@.history.skip(start as int), id@),
    {
        let mut res: Vec<StageMetricsSnapshot> = Vec::new();
        let mut i: usize = start;
        let ghost w = self@.history.skip(start as int);
        assert(w.take(0) =~= Seq::<MetricsSnapshot>::empty());
        while i < self.history.len()
            invariant
                start <= i <= self@.history.len(),
                w == self@.history.skip(start as int),
                res@ == series(w.take(i - start), id@),
            decreases self@.history.len() - i,
        {
            let ghost t = w.take(i - start + 1);
            assert(t.drop_last() =~= w.take(i - start));
            assert(t.last() == self@.history[i as int]);
            let snap = &self.history[i];
            if let Some(s) = snap.stage(id) {
                res.push(*s);
            }
            i = i + 1;
        }
        assert(w.take(i - start) =~= w);
        res
    }

    /// Records a trend, replacing the stage's earlier one in place.
    fn insert_trend(&mut self, e: StageTrend)
        ensures
            final(self)@ == (AnalyzerV { trends: trend_insert(old(self)@.trends, e), ..old(self)@ }),
    {
        let mut i: usize = 0;
        while i < self.trends.len()
            invariant
                i <= self.trends@.len(),
                self@ == old(self)@,
                find_trend(self.trends@, e.stage_id@, i as int) == find_trend(self.trends@, e.stage_id@, 0),
            decreases self.trends@.len() - i,
        {
            if str_eq(self.trends[i].stage_id, e.stage_id) {
                self.trends.set(i, e);
                return;
            }
            i = i + 1;
        }
        self.trends.push(e);
    }

    /// Computes the trends of the stages of `current` against the last
    /// `trend_window` snapshots of the history, when there are that many.
    fn compute_trends(&mut self, current: &MetricsSnapshot)
        ensures
            final(self)@ == (AnalyzerV {
                trends: match window(old(self)@.history, old(self)@.rules.trend_window as nat) {
                    Some(w) => apply_trends(old(self)@.trends, w, current.stages@),
                    None => old(self)@.trends,
                },
                ..old(self)@
            }),
    {
        if self.history.len() < self.rules.trend_window {
            return;
        }
        let window_start = self.history.len() - self.rules.trend_window;
        let ghost w = self@.history.skip(window_start as int);
        let ghost t0 = self@.trends;
        let mut k: usize = 0;
        assert(current.stages@.take(0) =~= Seq::<StageMetricsSnapshot>::empty());
        while k < current.stages.len()
            invariant
                k <= current.stages@.len(),
                w == self@.history.skip(window_start as int),
                window_start <= self@.history.len(),
                self@.trends == apply_trends(t0, w, current.stages@.take(k as int)),
                self@.history == old(self)@.history,
                self@.rules == old(self)@.rules,
                self@.max_history == old(self)@.max_history,
            decreases current.stages@.len() - k,
        {
            let ghost cs1 = current.stages@.take(k + 1);
            assert(cs1.drop_last() =~= current.stages@.take(k as int));
            assert(cs1.last() == current.stages@[k as int]);
            let c = &current.stages[k];
            let hist = self.series_of(window_start, c.id);
            if hist.len() > 0 {
                let mut lat: Vec<u64> = Vec::new();
                let mut q: Vec<u64> = Vec::new();
                let mut p: Vec<u64> = Vec::new();
                let mut j: usize = 0;
                while j < hist.len()
                    invariant
                        j <= hist@.len(),
                        lat@ == latencies(hist@).take(j as int),
                        q@ == queue_lens(hist@).take(j as int),
                        p@ == processed(hist@).take(j as int),
                    decreases hist@.len() - j,
                {
                    lat.push(hist[j].avg_latency_ns());
                    q.push(hist[j].current_queue_len);
                    p.push(hist[j].processed_count);
                    j = j + 1;
                    assert(lat@ =~= latencies(hist@).take(j as int));
                    assert(q@ =~= queue_lens(hist@).take(j as int));
                    assert(p@ =~= processed(hist@).take(j as int));
                }
                assert(lat@ =~= latencies(hist@));
                assert(q@ =~= queue_lens(hist@));
                assert(p@ =~= processed(hist@));
                let latency_trend = calculate_direction(&lat, c.avg_latency_ns());
                let queue_trend = calculate_direction(&q, c.current_queue_len);
                let throughput_trend = calculate_direction(&p, c.processed_count);
                self.insert_trend(StageTrend { stage_id: c.id, latency_trend, queue_trend, throughput_trend });
            }
            k = k + 1;
        }
        assert(current.stages@.take(k as int) =~= current.stages@);
    }

    /// Adds a snapshot (see `add_snapshot_spec`).
    pub fn add_snapshot(&mut self, snapshot: MetricsSnapshot)
        ensures
            final(self)@ == add_snapshot_spec(old(self)@, snapshot),
    {
        if self.history.len() >= self.max_history && self.history.len() > 0 {
            let _ = self.history.pop_front();
        }
        assert(self@.history == trimmed(old(self)@));
        self.compute_trends(&snapshot);
        self.history.push_back(snapshot);
    }

    /// The stage with the highest average latency above the target in the latest
    /// snapshot, the first such one (see `bottleneck_in`).
    pub fn identify_bottleneck(&self) -> (res: Option<&'static str>)
        ensures
            res == if self@.history.len() == 0 { None } else {
                let st = self@.history.last().stages@;
                bottleneck_in(st, self@.rules.p99_target_ns, st.len() as int).1
            },
    {
        if self.history.len() == 0 {
            return None;
        }
        let latest = &self.history[self.history.len() - 1];
        let mut max_latency: u64 = 0;
        let mut bottleneck: Option<&'static str> = None;
        let mut i: usize = 0;
        while i < latest.stages.len()
            invariant
                i <= latest.stages@.len(),
                (max_latency, bottleneck) == bottleneck_in(latest.stages@, self@.rules.p99_target_ns, i as int),
            decreases latest.stages@.len() - i,
        {
            let avg = latest.stages[i].avg_latency_ns();
            if avg > max_latency && avg > self.rules.p99_target_ns {
                max_latency = avg;
                bottleneck = Some(latest.stages[i].id);
            }
            i = i + 1;
        }
        bottleneck
    }

    /// The stages of the latest snapshot whose queue is longer than the threshold.
    pub fn detect_queue_overflow(&self) -> (res: Vec<&'static str>)
        ensures
            res@ == if self@.history.len() == 0 { Seq::empty() } else {
                let st = self@.history.last().stages@;
                overflow_ids(st, self@.rules.queue_threshold, st.len() as int)
            },
    {
        let mut res: Vec<&'static str> = Vec::new();
        if self.history.len() == 0 {
            return res;
        }
        let latest = &self.history[self.history.len() - 1];
        let mut i: usize = 0;
        while i < latest.stages.len()
            invariant
                i <= latest.stages@.len(),
                res@ == overflow_ids(latest.stages@, self@.rules.queue_threshold, i as int),
            decreases latest.stages@.len() - i,
        {
            if latest.stages[i].current_queue_len > self.rules.queue_threshold {
                res.push(latest.stages[i].id);
            }
            i = i + 1;
        }
        res
    }

    /// The stages to batch: those of the latest snapshot whose queue overflows
    /// and whose queue trend is rising, in order.
    pub fn batching_candidates(&self) -> (res: Vec<&'static str>)
        ensures
            res@ == rising_ids(latest_overflows(self@), self@.trends, latest_overflows(self@).len() as int),
    {
        let over = self.detect_queue_overflow();
        let mut res: Vec<&'static str> = Vec::new();
        let mut i: usize = 0;
        while i < over.len()
            invariant
                i <= over@.len(),
                over@ == latest_overflows(self@),
                res@ == rising_ids(over@, self@.trends, i as int),
            decreases over@.len() - i,
        {
            if let Some(t) = self.get_trend(over[i]) {
                if t.queue_trend == Direction::Increasing {
                    res.push(over[i]);
                }
            }
            i = i + 1;
        }
        res
    }

    /// The sum of the queue lengths in the latest snapshot (0 with no history).
    pub fn latest_queue_total(&self) -> (n: u128)
        ensures
            n == if self@.history.len() == 0 { 0 } else { queue_total(self@.history.last().stages@) },
    {
        if self.history.len() == 0 {
            return 0;
        }
        let latest = &self.history[self.history.len() - 1];
        let ghost q = queue_lens(latest.stages@);
        let mut n: u128 = 0;
        let mut i: usize = 0;
        while i < latest.stages.len()
            invariant
                i <= latest.stages@.len(),
                q == queue_lens(latest.stages@),
                n == sum_of(q.take(i as int)),
            decreases latest.stages@.len() - i,
        {
            proof {
                let t = q.take(i + 1);
                assert(t.drop_last() =~= q.take(i as int));
                lemma_sum_bound(t);
                let m: nat = (i + 1) as nat;
                assert(m * (u64::MAX as nat) <= u128::MAX) by (nonlinear_arith)
                    requires m <= usize::MAX;
            }
            n = n + latest.stages[i].current_queue_len as u128;
            i = i + 1;
        }
        assert(q.take(i as int) =~= q);
        n
    }

    /// The trend of a stage, if one was computed.
    pub fn get_trend(&self, stage_id: &str) -> (res: Option<&StageTrend>)
        ensures
            match find_trend(self@.trends, stage_id@, 0) {
                Some(i) => res == Some(&self@.trends[i]),
                None => res is None,
            },
    {
        let mut i: usize = 0;
        while i < self.trends.len()
            invariant
                i <= self.trends@.len(),
                find_trend(self.trends@, stage_id@, i as int) == find_trend(self.trends@, stage_id@, 0),
            decreases self.trends@.len() - i,
        {
            if str_eq(self.trends[i].stage_id, stage_id) {
                return Some(&self.trends[i]);
            }
            i = i + 1;
        }
        None
    }

    /// The latest snapshot.
    pub fn latest(&self) -> (res: Option<&MetricsSnapshot>)
        ensures
            res == if self@.history.len() == 0 { None } else { Some(&self@.history.last()) },
    {
        if self.history.len() == 0 {
            None
        } else {
            Some(&self.history[self.history.len() - 1])
        }
    }

    /// The number of snapshots kept.
    pub fn history_len(&self) -> (n: usize)
        ensures
            n == self@.history.len(),
    {
        self.history.len()
    }
}

impl Default for MetricsAnalyzer {
    /// An analyzer with the default rules.
    fn default() -> (a: Self)
        ensures
            a@.history == Seq::<MetricsSnapshot>::empty(),
            a@.trends == Seq::<StageTrend>::empty(),
            a@.max_history == 60,
            a@.rules.p99_target_ns == 5_000_000,
            a@.rules.queue_threshold == 500,
            a@.rules.trend_window == 3,
    {
        MetricsAnalyzer::new(AnalysisRules::default())
    }
}

/// The analyzer keeps at most its last `max_history` snapshots, the newest
/// last: adding a snapshot to a history within the bound keeps it within the
/// bound, and the new snapshot is the latest.
pub proof fn law_history_bounded(a: AnalyzerV, s: MetricsSnapshot)
    requires
        a.max_history > 0,
        a.history.len() <= a.max_history,
    ensures
        add_snapshot_spec(a, s).history.len() <= a.max_history,
        add_snapshot_spec(a, s).history.last() == s,
        add_snapshot_spec(a, s).max_history == a.max_history,
{
}

} // verus!
