//! Per-stage counters of the pipeline: requests processed, queue length,
//! latency sum and maximum, errors; and the collector that holds one set per
//! stage plus connection and request totals.
//!
//! Counters wrap around on overflow, as atomic counters do.
use vstd::prelude::*;
use vstd::string::StringSliceAdditionalSpecFns;
use std::time::Instant;
use crate::text::str_eq;
use crate::clock::instant_now;

verus! {

/// `origin.elapsed().as_nanos()`: the nanoseconds since `origin`, by the
/// monotonic clock (nothing is known of its value).
#[verifier::external_body]
fn nanos_since(origin: &Instant) -> (res: u128) {
    origin.elapsed().as_nanos()
}

/// The counters of one stage at one moment.
#[derive(Debug, Clone, Copy)]
pub struct StageMetricsSnapshot {
    pub id: &'static str,
    pub processed_count: u64,
    pub current_queue_len: u64,
    pub latency_sum_ns: u64,
    pub latency_max_ns: u64,
    pub errors: u64,
}

/// All counters zero.
pub open spec fn zeroed(s: StageMetricsSnapshot) -> bool {
    &&& s.processed_count == 0
    &&& s.current_queue_len == 0
    &&& s.latency_sum_ns == 0
    &&& s.latency_max_ns == 0
    &&& s.errors == 0
}

/// The stage's counters set back to zero, its id kept.
pub open spec fn cleared(s: StageMetricsSnapshot) -> StageMetricsSnapshot {
    StageMetricsSnapshot {
        processed_count: 0,
        current_queue_len: 0,
        latency_sum_ns: 0,
        latency_max_ns: 0,
        errors: 0,
        ..s
    }
}

/// The counters after recording one latency: the sum grows (wrapping), the
/// maximum keeps the larger value.
pub open spec fn after_latency(s: StageMetricsSnapshot, latency_ns: u64) -> StageMetricsSnapshot {
    StageMetricsSnapshot {
        latency_sum_ns: ((s.latency_sum_ns + latency_ns) % 0x1_0000_0000_0000_0000) as u64,
        latency_max_ns: if latency_ns > s.latency_max_ns { latency_ns } else { s.latency_max_ns },
        ..s
    }
}

/// `x + 1`, wrapping.
pub open spec fn inc(x: u64) -> u64 {
    if x == u64::MAX { 0 } else { (x + 1) as u64 }
}

/// `x - 1`, wrapping.
pub open spec fn dec(x: u64) -> u64 {
    if x == 0 { u64::MAX } else { (x - 1) as u64 }
}

impl StageMetricsSnapshot {
    /// Average latency: the latency sum over the processed count, rounded down
    /// (0 when nothing was processed).
    pub fn avg_latency_ns(&self) -> (avg: u64)
        ensures
            avg == if self.processed_count > 0 { self.latency_sum_ns / self.processed_count } else { 0 },
    {
        if self.processed_count > 0 {
            self.latency_sum_ns / self.processed_count
        } else {
            0
        }
    }
}

/// The counters of one pipeline stage.
#[derive(Debug)]
pub struct StageMetrics {
    pub id: &'static str,
    processed_count: u64,
    current_queue_len: u64,
    latency_sum_ns: u64,
    latency_max_ns: u64,
    errors: u64,
}

impl StageMetrics {
    /// The counters as a snapshot would read them.
    pub closed spec fn view(&self) -> StageMetricsSnapshot {
        StageMetricsSnapshot {
            id: self.id,
            processed_count: self.processed_count,
            current_queue_len: self.current_queue_len,
            latency_sum_ns: self.latency_sum_ns,
            latency_max_ns: self.latency_max_ns,
            errors: self.errors,
        }
    }

    /// Counters for a stage, all zero.
    pub fn new(id: &'static str) -> (m: Self)
        ensures
            m@.id == id,
            zeroed(m@),
    {
        StageMetrics { id, processed_count: 0, current_queue_len: 0, latency_sum_ns: 0, latency_max_ns: 0, errors: 0 }
    }

    /// One more request processed.
    pub fn inc_processed(&mut self)
        ensures
            final(self)@ == (StageMetricsSnapshot { processed_count: inc(old(self)@.processed_count), ..old(self)@ }),
    {
        self.processed_count = self.processed_count.wrapping_add(1);
    }

    /// One more request queued.
    pub fn inc_queue_len(&mut self)
        ensures
            final(self)@ == (StageMetricsSnapshot { current_queue_len: inc(old(self)@.current_queue_len), ..old(self)@ }),
    {
        self.current_queue_len = self.current_queue_len.wrapping_add(1);
    }

    /// One request fewer queued (wrapping below zero, as an atomic counter does).
    pub fn dec_queue_len(&mut self)
        ensures
            final(self)@ == (StageMetricsSnapshot { current_queue_len: dec(old(self)@.current_queue_len), ..old(self)@ }),
    {
        self.current_queue_len = self.current_queue_len.wrapping_sub(1);
    }

    /// Records one latency (see `after_latency`).
    pub fn record_latency(&mut self, latency_ns: u64)
        ensures
            final(self)@ == after_latency(old(self)@, latency_ns),
    {
        self.latency_sum_ns = self.latency_sum_ns.wrapping_add(latency_ns);
        if latency_ns > self.latency_max_ns {
            self.latency_max_ns = latency_ns;
        }
    }

    /// One more error.
    pub fn inc_errors(&mut self)
        ensures
            final(self)@ == (StageMetricsSnapshot { errors: inc(old(self)@.errors), ..old(self)@ }),
    {
        self.errors = self.errors.wrapping_add(1);
    }

    /// The counters now.
    pub fn snapshot(&self) -> (s: StageMetricsSnapshot)
        ensures
            s == self@,
    {
        StageMetricsSnapshot {
            id: self.id,
            processed_count: self.processed_count,
            current_queue_len: self.current_queue_len,
            latency_sum_ns: self.latency_sum_ns,
            latency_max_ns: self.latency_max_ns,
            errors: self.errors,
        }
    }

    /// All counters back to zero.
    fn reset(&mut self)
        ensures
            final(self)@.id == old(self)@.id,
            zeroed(final(self)@),
    {
        self.processed_count = 0;
        self.current_queue_len = 0;
        self.latency_sum_ns = 0;
        self.latency_max_ns = 0;
        self.errors = 0;
    }
}

/// All counters at one moment.
#[derive(Debug, Clone)]
pub struct MetricsSnapshot {
    pub timestamp: Instant,
    /// One snapshot per stage, in pipeline order.
    pub stages: Vec<StageMetricsSnapshot>,
    pub total_conns: usize,
    pub total_requests: u64,
}

/// The pipeline's stages, in order.
pub open spec fn stage_ids() -> Seq<Seq<char>> {
    seq!["net_in"@, "parse"@, "route"@, "app"@, "encode"@, "net_out"@]
}

/// Index of the first stage snapshot with this id.
pub open spec fn find_stage(s: Seq<StageMetricsSnapshot>, id: Seq<char>, i: int) -> Option<int>
    decreases s.len() - i,
{
    if i < 0 || i >= s.len() {
        None
    } else if s[i].id@ == id {
        Some(i)
    } else {
        find_stage(s, id, i + 1)
    }
}

proof fn lemma_find_stage(s: Seq<StageMetricsSnapshot>, id: Seq<char>, i: int)
    requires
        0 <= i,
    ensures
        find_stage(s, id, i) matches Some(k) ==> i <= k < s.len() && s[k].id@ == id,
    decreases s.len() - i,
{
    if i < s.len() && s[i].id@ != id {
        lemma_find_stage(s, id, i + 1);
    }
}

impl MetricsSnapshot {
    /// The snapshot of the stage with this id, if there is one.
    pub fn stage(&self, stage_id: &str) -> (res: Option<&StageMetricsSnapshot>)
        ensures
            match find_stage(self.stages@, stage_id@, 0) {
                Some(k) => res == Some(&self.stages@[k]),
                None => res is None,
            },
    {
        let mut i: usize = 0;
        while i < self.stages.len()
            invariant
                i <= self.stages@.len(),
                find_stage(self.stages@, stage_id@, i as int) == find_stage(self.stages@, stage_id@, 0),
            decreases self.stages@.len() - i,
        {
            if str_eq(self.stages[i].id, stage_id) {
                return Some(&self.stages[i]);
            }
            i = i + 1;
        }
        None
    }
}

/// The counters of every stage, and connection and request totals.
pub struct MetricsCollector {
    stages: Vec<StageMetrics>,
    total_conns: u64,
    total_requests: u64,
    /// When the collector was made: timestamps count nanoseconds from here.
    origin: Instant,
}

/// The collector as the contracts see it.
pub struct CollectorV {
    pub stages: Seq<StageMetricsSnapshot>,
    pub total_conns: u64,
    pub total_requests: u64,
}

impl MetricsCollector {
    /// The collector's counters.
    pub closed spec fn view(&self) -> CollectorV {
        CollectorV {
            stages: self.stages@.map_values(|m: StageMetrics| m@),
            total_conns: self.total_conns,
            total_requests: self.total_requests,
        }
    }

    /// Index of the stage with this id, if there is one.
    fn find(&self, stage_id: &str) -> (res: Option<usize>)
        ensures
            find_stage(self@.stages, stage_id@, 0) is None <==> res is None,
            res matches Some(k) ==> find_stage(self@.stages, stage_id@, 0) == Some(k as int)
                && k < self.stages@.len(),
    {
        proof { lemma_find_stage(self@.stages, stage_id@, 0); }
        let mut i: usize = 0;
        while i < self.stages.len()
            invariant
                i <= self.stages@.len(),
                find_stage(self@.stages, stage_id@, i as int) == find_stage(self@.stages, stage_id@, 0),
            decreases self.stages@.len() - i,
        {
            assert(self@.stages[i as int] == self.stages@[i as int]@);
            if str_eq(self.stages[i].id, stage_id) {
                return Some(i);
            }
            i = i + 1;
        }
        None
    }

    /// A collector with zeroed counters for each stage of `stage_ids`, in order,
    /// and zero totals.
    pub fn new() -> (c: Self)
        ensures
            fresh_collector(c@),
    {
        let mut stages: Vec<StageMetrics> = Vec::new();
        stages.push(StageMetrics::new("net_in"));
        stages.push(StageMetrics::new("parse"));
        stages.push(StageMetrics::new("route"));
        stages.push(StageMetrics::new("app"));
        stages.push(StageMetrics::new("encode"));
        stages.push(StageMetrics::new("net_out"));
        let c = MetricsCollector { stages, total_conns: 0, total_requests: 0, origin: instant_now() };
        assert forall|k: int| 0 <= k < 6 implies (#[trigger] c@.stages[k]).id@ == stage_ids()[k]
            && zeroed(c@.stages[k]) by {
            assert(c@.stages[k] == c.stages@[k]@);
        }
        c
    }

    /// The counters of the stage with this id, if there is one.
    pub fn stage(&self, stage_id: &str) -> (res: Option<&StageMetrics>)
        ensures
            match find_stage(self@.stages, stage_id@, 0) {
                Some(k) => res matches Some(m) && m@ == self@.stages[k],
                None => res is None,
            },
    {
        match self.find(stage_id) {
            Some(k) => {
                assert(self@.stages[k as int] == self.stages@[k as int]@);
                Some(&self.stages[k])
            },
            None => None,
        }
    }

    /// The counters of the stage with this id, if there is one, to update in place.
    pub fn stage_mut(&mut self, stage_id: &str) -> (res: Option<&mut StageMetrics>)
        ensures
            match find_stage(old(self)@.stages, stage_id@, 0) {
                Some(k) => res matches Some(m) && m@ == old(self)@.stages[k] && final(self)@ == (CollectorV {
                    stages: old(self)@.stages.update(k, final(m)@),
                    ..old(self)@
                }),
                None => res is None && *final(self) == *old(self),
            },
    {
        match self.find(stage_id) {
            Some(k) => {
                let ghost v = self.stages@;
                assert(self@.stages[k as int] == self.stages@[k as int]@);
                let r = &mut self.stages[k];
                proof {
                    assert(v.update(k as int, *final(r)).map_values(|m: StageMetrics| m@)
                        =~= v.map_values(|m: StageMetrics| m@).update(k as int, final(r)@));
                }
                Some(r)
            },
            None => None,
        }
    }

    /// Changes the stage at `k` by one of its own updates.
    fn update_stage(&mut self, k: usize, f: StageUpdate)
        requires
            k < old(self).stages@.len(),
        ensures
            final(self)@ == (CollectorV {
                stages: old(self)@.stages.update(k as int, f.apply(old(self)@.stages[k as int])),
                ..old(self)@
            }),
    {
        let ghost v = self.stages@;
        assert(self@.stages[k as int] == self.stages@[k as int]@);
        match f {
            StageUpdate::Latency(l) => {
                self.stages[k].record_latency(l);
                self.stages[k].inc_processed();
            },
            StageUpdate::QueueUp => self.stages[k].inc_queue_len(),
            StageUpdate::QueueDown => self.stages[k].dec_queue_len(),
            StageUpdate::Error => self.stages[k].inc_errors(),
        }
        assert(self@.stages =~= v.map_values(|m: StageMetrics| m@).update(k as int, f.apply(v[k as int]@)));
    }

    /// A timestamp for the start of a stage's work: the nanoseconds since the
    /// collector was made, by the monotonic clock.
    pub fn record_stage_start(&self, _stage_id: &'static str) -> u128 {
        nanos_since(&self.origin)
    }

    /// Records the end of a stage's work that started at `start_ts`, the current
    /// timestamp being taken as `record_stage_start` takes it (see
    /// `record_stage_end_at`).
    pub fn record_stage_end(&mut self, stage_id: &'static str, start_ts: u128)
        ensures
            exists|end_ts: u128| final(self)@ == stage_end_spec(old(self)@, stage_id@, start_ts, end_ts),
    {
        let end_ts = nanos_since(&self.origin);
        self.record_stage_end_at(stage_id, start_ts, end_ts);
    }

    /// Records the end of a stage's work: the stage, if there is one, records the
    /// latency `end_ts - start_ts` (0 if negative, cut to 64 bits) and one more
    /// request processed.
    pub fn record_stage_end_at(&mut self, stage_id: &str, start_ts: u128, end_ts: u128)
        ensures
            final(self)@ == stage_end_spec(old(self)@, stage_id@, start_ts, end_ts),
    {
        let diff: u128 = if end_ts >= start_ts { end_ts - start_ts } else { 0 };
        let latency = diff as u64;
        if let Some(k) = self.find(stage_id) {
            self.update_stage(k, StageUpdate::Latency(latency));
        }
    }

    /// One more request queued for the stage with this id, if there is one.
    pub fn inc_queue_len(&mut self, stage_id: &str)
        ensures
            final(self)@ == update_named(old(self)@, stage_id@, StageUpdate::QueueUp),
    {
        if let Some(k) = self.find(stage_id) {
            self.update_stage(k, StageUpdate::QueueUp);
        }
    }

    /// One request fewer queued for the stage with this id, if there is one.
    pub fn dec_queue_len(&mut self, stage_id: &str)
        ensures
            final(self)@ == update_named(old(self)@, stage_id@, StageUpdate::QueueDown),
    {
        if let Some(k) = self.find(stage_id) {
            self.update_stage(k, StageUpdate::QueueDown);
        }
    }

    /// One more error for the stage with this id, if there is one.
    pub fn inc_stage_errors(&mut self, stage_id: &str)
        ensures
            final(self)@ == update_named(old(self)@, stage_id@, StageUpdate::Error),
    {
        if let Some(k) = self.find(stage_id) {
            self.update_stage(k, StageUpdate::Error);
        }
    }

    /// One more connection.
    pub fn inc_total_conns(&mut self)
        ensures
            final(self)@ == (CollectorV { total_conns: inc(old(self)@.total_conns), ..old(self)@ }),
    {
        self.total_conns = self.total_conns.wrapping_add(1);
    }

    /// One connection fewer (wrapping below zero).
    pub fn dec_total_conns(&mut self)
        ensures
            final(self)@ == (CollectorV { total_conns: dec(old(self)@.total_conns), ..old(self)@ }),
    {
        self.total_conns = self.total_conns.wrapping_sub(1);
    }

    /// One more request.
    pub fn inc_total_requests(&mut self)
        ensures
            final(self)@ == (CollectorV { total_requests: inc(old(self)@.total_requests), ..old(self)@ }),
    {
        self.total_requests = self.total_requests.wrapping_add(1);
    }

    /// All counters now, stamped with the current time; the connection total is
    /// cut to `usize`.
    pub fn snapshot(&self) -> (s: MetricsSnapshot)
        ensures
            s.stages@ == self@.stages,
            s.total_conns == self@.total_conns as usize,
            s.total_requests == self@.total_requests,
    {
        let mut stages: Vec<StageMetricsSnapshot> = Vec::new();
        let mut i: usize = 0;
        while i < self.stages.len()
            invariant
                i <= self.stages@.len(),
                stages@ == self@.stages.take(i as int),
            decreases self.stages@.len() - i,
        {
            stages.push(self.stages[i].snapshot());
            i = i + 1;
            assert(stages@ =~= self@.stages.take(i as int));
        }
        assert(self@.stages.take(i as int) =~= self@.stages);
        MetricsSnapshot {
            timestamp: instant_now(),
            stages,
            total_conns: self.total_conns as usize,
            total_requests: self.total_requests,
        }
    }

    /// All counters back to zero; the stages stay (see `reset_of`).
    pub fn reset(&mut self)
        ensures
            final(self)@ == reset_of(old(self)@),
    {
        let ghost v = self@.stages;
        let mut i: usize = 0;
        while i < self.stages.len()
            invariant
                i <= self.stages@.len(),
                self@.stages.len() == v.len(),
                forall|k: int| 0 <= k < i ==> (#[trigger] self@.stages[k]).id == v[k].id && zeroed(self@.stages[k]),
                forall|k: int| i <= k < self@.stages.len() ==> #[trigger] self@.stages[k] == v[k],
            decreases self.stages@.len() - i,
        {
            let ghost before = self.stages@;
            let ghost old_view = self@.stages;
            assert(old_view[i as int] == before[i as int]@);
            self.stages[i].reset();
            proof {
                assert forall|k: int| 0 <= k < self@.stages.len() && k != i implies
                    #[trigger] self@.stages[k] == old_view[k] by {
                    assert(self.stages@[k] == before[k]);
                    assert(old_view[k] == before[k]@);
                }
                assert(self@.stages[i as int] == self.stages@[i as int]@);
                assert forall|k: int| 0 <= k < i + 1 implies (#[trigger] self@.stages[k]).id == v[k].id
                    && zeroed(self@.stages[k]) by {
                    if k < i {
                        assert(old_view[k] == self@.stages[k]);
                    }
                }
                assert forall|k: int| i + 1 <= k < self@.stages.len() implies #[trigger] self@.stages[k] == v[k] by {
                    assert(old_view[k] == self@.stages[k]);
                }
            }
            i = i + 1;
        }
        self.total_conns = 0;
        self.total_requests = 0;
        proof {
            assert forall|k: int| 0 <= k < v.len() implies #[trigger] self@.stages[k] == cleared(v[k]) by {
                assert(zeroed(self@.stages[k]));
            }
            assert(self@.stages =~= v.map_values(|s: StageMetricsSnapshot| cleared(s)));
        }
    }
}

/// One update of a stage's counters.
pub enum StageUpdate {
    /// A latency recorded, and one more request processed.
    Latency(u64),
    QueueUp,
    QueueDown,
    /// One more error.
    Error,
}

impl StageUpdate {
    /// The counters after the update.
    pub open spec fn apply(self, s: StageMetricsSnapshot) -> StageMetricsSnapshot {
        match self {
            StageUpdate::Latency(l) => {
                let s1 = after_latency(s, l);
                StageMetricsSnapshot { processed_count: inc(s1.processed_count), ..s1 }
            },
            StageUpdate::QueueUp => StageMetricsSnapshot { current_queue_len: inc(s.current_queue_len), ..s },
            StageUpdate::QueueDown => StageMetricsSnapshot { current_queue_len: dec(s.current_queue_len), ..s },
            StageUpdate::Error => StageMetricsSnapshot { errors: inc(s.errors), ..s },
        }
    }
}

/// The collector with the named stage (if any) updated.
pub open spec fn update_named(c: CollectorV, id: Seq<char>, f: StageUpdate) -> CollectorV {
    match find_stage(c.stages, id, 0) {
        Some(k) => CollectorV { stages: c.stages.update(k, f.apply(c.stages[k])), ..c },
        None => c,
    }
}

/// The collector after a stage's work from `start_ts` to `end_ts` is recorded.
pub open spec fn stage_end_spec(c: CollectorV, id: Seq<char>, start_ts: u128, end_ts: u128) -> CollectorV {
    let diff: u128 = if end_ts >= start_ts { (end_ts - start_ts) as u128 } else { 0 };
    update_named(c, id, StageUpdate::Latency(diff as u64))
}

/// The collector after `reset`: every stage kept with its counters at zero, and
/// no connections or requests.
pub open spec fn reset_of(c: CollectorV) -> CollectorV {
    CollectorV {
        stages: c.stages.map_values(|s: StageMetricsSnapshot| cleared(s)),
        total_conns: 0,
        total_requests: 0,
    }
}

/// The collector holds the pipeline's six stages, in order.
pub open spec fn has_pipeline_stages(c: CollectorV) -> bool {
    &&& c.stages.len() == 6
    &&& forall|k: int| 0 <= k < 6 ==> (#[trigger] c.stages[k]).id@ == stage_ids()[k]
}

/// The collector as `new` makes it: the pipeline's six stages, all counters zero,
/// no connections or requests.
pub open spec fn fresh_collector(c: CollectorV) -> bool {
    &&& has_pipeline_stages(c)
    &&& forall|k: int| 0 <= k < 6 ==> zeroed(#[trigger] c.stages[k])
    &&& c.total_conns == 0
    &&& c.total_requests == 0
}

/// Counting keeps the collector's stages: an update of a named stage, or a
/// recorded stage end, leaves the six pipeline stages in place.
pub proof fn law_updates_keep_pipeline_stages(c: CollectorV, id: Seq<char>, u: StageUpdate, start_ts: u128, end_ts: u128)
    requires
        has_pipeline_stages(c),
    ensures
        has_pipeline_stages(update_named(c, id, u)),
        has_pipeline_stages(stage_end_spec(c, id, start_ts, end_ts)),
{
    lemma_find_stage(c.stages, id, 0);
    let l = if end_ts >= start_ts { (end_ts - start_ts) as u128 } else { 0 };
    assert(stage_end_spec(c, id, start_ts, end_ts) == update_named(c, id, StageUpdate::Latency(l as u64)));
    match find_stage(c.stages, id, 0) {
        Some(k) => {
            assert forall|j: int| 0 <= j < 6 implies (#[trigger] update_named(c, id, u).stages[j]).id@ == stage_ids()[j] by {
                assert(c.stages[j].id@ == stage_ids()[j]);
            }
            assert forall|j: int| 0 <= j < 6 implies
                (#[trigger] update_named(c, id, StageUpdate::Latency(l as u64)).stages[j]).id@ == stage_ids()[j] by {
                assert(c.stages[j].id@ == stage_ids()[j]);
            }
        },
        None => {},
    }
}

/// Resetting a collector of the pipeline's stages makes it as `new` made it, and
/// a second reset changes nothing more.
pub proof fn law_reset_is_fresh(c: CollectorV)
    requires
        has_pipeline_stages(c),
    ensures
        fresh_collector(reset_of(c)),
        reset_of(reset_of(c)) == reset_of(c),
{
    let r = reset_of(c);
    assert forall|k: int| 0 <= k < 6 implies (#[trigger] r.stages[k]).id@ == stage_ids()[k] && zeroed(r.stages[k]) by {
        assert(c.stages[k].id@ == stage_ids()[k]);
    }
    assert(reset_of(r).stages =~= r.stages);
}

impl Default for MetricsCollector {
    /// A collector for the pipeline's stages (see `new`).
    fn default() -> (c: Self)
        ensures
            fresh_collector(c@),
    {
        MetricsCollector::new()
    }
}

} // verus!
