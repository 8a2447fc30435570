//! Tuning decisions on integers: constraints on queue sizes, the latency
//! baseline and when to roll an action back, and the log of actions taken.
use std::collections::VecDeque;
use std::time::Instant;
use vstd::prelude::*;
use crate::clock::instant_now;
use crate::ml::window_push;
use crate::metrics::{MetricsSnapshot, StageMetricsSnapshot};
use crate::analyzer::{avg_latency, sum_of, latencies, lemma_sum_bound};

verus! {

/// What became of a tuning action.
#[derive(Debug, Clone, Copy, PartialEq, Eq, Structural)]
pub enum TuningResult {
    Applied,
    Rejected,
    RolledBack,
}

/// Limits on tuning actions.
#[derive(Debug, Clone)]
pub struct TuningConstraints {
    pub min_queue_size: usize,
    pub max_queue_size: usize,
    pub max_actions_per_minute: usize,
    pub max_memory_bytes: u64,
}

impl Default for TuningConstraints {
    /// Queues between 100 and 10,000, 10 actions a minute, 1 GiB of memory.
    fn default() -> (c: Self)
        ensures
            c.min_queue_size == 100,
            c.max_queue_size == 10_000,
            c.max_actions_per_minute == 10,
            c.max_memory_bytes == 1024 * 1024 * 1024,
    {
        TuningConstraints {
            min_queue_size: 100,
            max_queue_size: 10_000,
            max_actions_per_minute: 10,
            max_memory_bytes: 1024 * 1024 * 1024,
        }
    }
}

impl TuningConstraints {
    /// Whether a queue may grow to `new_size`: no larger than the maximum.
    pub fn allows_increase(&self, new_size: usize) -> (ok: bool)
        ensures
            ok == (new_size <= self.max_queue_size),
    {
        new_size <= self.max_queue_size
    }

    /// Whether a queue may shrink to `new_size`: no smaller than the minimum.
    pub fn allows_decrease(&self, new_size: usize) -> (ok: bool)
        ensures
            ok == (new_size >= self.min_queue_size),
    {
        new_size >= self.min_queue_size
    }
}

/// The mean of the stages' average latencies, rounded down (0 with no stages).
pub open spec fn mean_latency(st: Seq<StageMetricsSnapshot>) -> nat {
    if st.len() == 0 { 0 } else { sum_of(latencies(st)) / st.len() }
}

/// The mean of the stages' average latencies in a snapshot (see `mean_latency`).
pub fn calculate_avg_latency(snapshot: &MetricsSnapshot) -> (avg: u64)
    ensures
        avg == mean_latency(snapshot.stages@),
{
    let ghost l = latencies(snapshot.stages@);
    let mut total: u128 = 0;
    let mut i: usize = 0;
    while i < snapshot.stages.len()
        invariant
            i <= snapshot.stages@.len(),
            l == latencies(snapshot.stages@),
            total == sum_of(l.take(i as int)),
        decreases snapshot.stages@.len() - i,
    {
        proof {
            let t = l.take(i + 1);
            assert(t.drop_last() =~= l.take(i as int));
            lemma_sum_bound(t);
            let m: nat = (i + 1) as nat;
            assert(m * (u64::MAX as nat) <= u128::MAX) by (nonlinear_arith)
                requires m <= usize::MAX;
        }
        total = total + snapshot.stages[i].avg_latency_ns() as u128;
        i = i + 1;
    }
    assert(l.take(i as int) =~= l);
    let count = snapshot.stages.len() as u128;
    if count > 0 {
        proof {
            lemma_sum_bound(l);
            assert(total / count <= u64::MAX) by (nonlinear_arith)
                requires total <= count * (u64::MAX as nat), count > 0;
        }
        (total / count) as u64
    } else {
        0
    }
}

/// Whether to roll the last action back: with a baseline, when the current mean
/// latency is more than 1.5 times it (the 1.5 times rounded down).
pub fn should_rollback(last_baseline_ns: u64, current_avg: u64) -> (b: bool)
    ensures
        b == (last_baseline_ns != 0 && current_avg > last_baseline_ns * 3 / 2),
{
    if last_baseline_ns == 0 {
        return false;
    }
    current_avg as u128 > last_baseline_ns as u128 * 3 / 2
}

/// The baseline after a new mean latency: unchanged for 0, taken as it is when
/// there was none, else the moving average (9 parts old, 1 part new, rounded down).
pub fn next_baseline(last_baseline_ns: u64, current_avg: u64) -> (b: u64)
    ensures
        b == if current_avg == 0 { last_baseline_ns } else if last_baseline_ns == 0 { current_avg } else {
            ((last_baseline_ns * 9 + current_avg) / 10) as u64
        },
{
    if current_avg > 0 {
        if last_baseline_ns == 0 {
            current_avg
        } else {
            ((last_baseline_ns as u128 * 9 + current_avg as u128) / 10) as u64
        }
    } else {
        last_baseline_ns
    }
}

/// An entry of the tuning log: an action, when it was logged, and what became of it.
#[derive(Debug, Clone)]
pub struct TuningLogEntry<A> {
    pub timestamp: Instant,
    pub action: A,
    pub result: TuningResult,
}

/// The entry `e` marked rolled back.
pub open spec fn rolled_back<A>(e: TuningLogEntry<A>) -> TuningLogEntry<A> {
    TuningLogEntry { result: TuningResult::RolledBack, ..e }
}

/// Whether a rollback applies to the log `s`: its last action was applied.
pub open spec fn can_roll_back<A>(s: Seq<TuningLogEntry<A>>) -> bool {
    s.len() > 0 && s.last().result == TuningResult::Applied
}

/// The log of tuning actions, oldest first, keeping the latest `max_entries`
/// (the oldest leaves first, as in a feature window).
pub struct TuningLog<A> {
    entries: VecDeque<TuningLogEntry<A>>,
    max_entries: usize,
}

impl<A> TuningLog<A> {
    /// The entries, oldest first.
    pub closed spec fn entries(&self) -> Seq<TuningLogEntry<A>> {
        self.entries@
    }

    /// How many entries the log keeps.
    pub closed spec fn max_entries(&self) -> nat {
        self.max_entries as nat
    }

    /// An empty log keeping `max_entries` entries.
    pub fn new(max_entries: usize) -> (log: Self)
        ensures
            log.entries() == Seq::<TuningLogEntry<A>>::empty(),
            log.max_entries() == max_entries,
    {
        TuningLog { entries: VecDeque::with_capacity(max_entries), max_entries }
    }

    /// Logs `action` with its result, now; when the log is full the oldest entry leaves.
    pub fn record(&mut self, action: A, result: TuningResult)
        ensures
            final(self).max_entries() == old(self).max_entries(),
            final(self).entries() == window_push(old(self).entries(), old(self).max_entries(), final(self).entries().last()),
            final(self).entries().last().action == action,
            final(self).entries().last().result == result,
    {
        if self.entries.len() >= self.max_entries && self.entries.len() > 0 {
            let _ = self.entries.pop_front();
        }
        self.entries.push_back(TuningLogEntry { timestamp: instant_now(), action, result });
    }

    /// Marks the last entry rolled back when its action was applied; whether it did.
    pub fn rollback_last(&mut self) -> (rolled: bool)
        ensures
            final(self).max_entries() == old(self).max_entries(),
            rolled == can_roll_back(old(self).entries()),
            final(self).entries() == if rolled {
                old(self).entries().update(old(self).entries().len() - 1, rolled_back(old(self).entries().last()))
            } else {
                old(self).entries()
            },
    {
        let n = self.entries.len();
        if n == 0 || self.entries[n - 1].result != TuningResult::Applied {
            return false;
        }
        let last = self.entries.pop_back();
        match last {
            Some(e) => {
                self.entries.push_back(TuningLogEntry { result: TuningResult::RolledBack, ..e });
                assert(self.entries@ =~= old(self).entries().update(n - 1, rolled_back(old(self).entries().last())));
                true
            },
            None => false,
        }
    }

    /// The number of entries.
    pub fn len(&self) -> (n: usize)
        ensures
            n == self.entries().len(),
    {
        self.entries.len()
    }

    /// Whether the log is empty.
    pub fn is_empty(&self) -> (b: bool)
        ensures
            b == (self.entries().len() == 0),
    {
        self.entries.len() == 0
    }

    /// The entry at `index`, oldest first, if there is one.
    pub fn get(&self, index: usize) -> (res: Option<&TuningLogEntry<A>>)
        ensures
            index < self.entries().len() ==> res == Some(&self.entries()[index as int]),
            index >= self.entries().len() ==> res is None,
    {
        if index < self.entries.len() {
            Some(&self.entries[index])
        } else {
            None
        }
    }

    /// The latest entry, if any.
    pub fn last(&self) -> (res: Option<&TuningLogEntry<A>>)
        ensures
            self.entries().len() == 0 ==> res is None,
            self.entries().len() > 0 ==> res == Some(&self.entries().last()),
    {
        let n = self.entries.len();
        if n == 0 {
            None
        } else {
            Some(&self.entries[n - 1])
        }
    }
}

/// Rolling back undoes only an applied action, and only once: right after an
/// applied action is logged, a rollback marks that entry rolled back and keeps
/// the others; a second rollback changes nothing.
pub proof fn law_rollback_once<A>(s: Seq<TuningLogEntry<A>>, max: nat, e: TuningLogEntry<A>)
    requires
        e.result == TuningResult::Applied,
    ensures
        ({
            let logged = window_push(s, max, e);
            &&& can_roll_back(logged)
            &&& logged.update(logged.len() - 1, rolled_back(e)).last() == rolled_back(e)
            &&& !can_roll_back(logged.update(logged.len() - 1, rolled_back(e)))
            &&& logged.update(logged.len() - 1, rolled_back(e)).drop_last() == logged.drop_last()
        }),
{
    let logged = window_push(s, max, e);
    assert(logged.update(logged.len() - 1, rolled_back(e)).drop_last() =~= logged.drop_last());
}

} // verus!
