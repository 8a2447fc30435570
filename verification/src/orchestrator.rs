//! Pipeline configuration, the placement of stages on cores, and how an idle
//! stage waits.
use vstd::prelude::*;

verus! {

/// How the pipeline is sized and placed.
#[derive(Debug, Clone)]
pub struct OrchestratorConfig {
    /// Connections the slab holds.
    pub slab_capacity: usize,
    /// Capacity of each queue between stages.
    pub queue_capacity: usize,
    /// The core of the first stage; the others follow on consecutive cores.
    pub start_core: usize,
}

impl Default for OrchestratorConfig {
    /// 10,000 connections, queues of 4096, starting on core 0.
    fn default() -> (c: Self)
        ensures
            c.slab_capacity == 10_000,
            c.queue_capacity == 4096,
            c.start_core == 0,
    {
        OrchestratorConfig { slab_capacity: 10_000, queue_capacity: 4096, start_core: 0 }
    }
}

/// The number of queues between stages (one per stage transition).
pub const QUEUE_COUNT: usize = 6;

/// The core of the next stage: stages go on consecutive cores from the start
/// core, wrapping around the available cores.
pub fn stage_core(start_core: usize, spawned: usize, cores: usize) -> (core: usize)
    requires
        cores > 0,
        start_core + spawned <= usize::MAX,
    ensures
        core == (start_core + spawned) % (cores as int),
        core < cores,
{
    (start_core + spawned) % cores
}

/// What an executor does after a round.
#[derive(Debug, Clone, Copy, PartialEq, Eq, Structural)]
pub enum IdleAction {
    /// Work was done: go on at once.
    Continue,
    /// Idle for a while: yield the processor.
    Yield,
    /// Idle for long: sleep briefly.
    Sleep,
}

/// The idle count and the action after a round that processed `processed` items:
/// a busy round resets the count; an idle one counts up, and past 1000 idle
/// rounds the executor sleeps instead of yielding.
pub fn idle_step(idle_count: u32, processed: usize) -> (res: (u32, IdleAction))
    requires
        processed == 0 ==> idle_count < u32::MAX,
    ensures
        res == if processed == 0 {
            ((idle_count + 1) as u32, if idle_count + 1 > 1000 { IdleAction::Sleep } else { IdleAction::Yield })
        } else {
            (0u32, IdleAction::Continue)
        },
{
    if processed == 0 {
        let n = idle_count + 1;
        if n > 1000 { (n, IdleAction::Sleep) } else { (n, IdleAction::Yield) }
    } else {
        (0, IdleAction::Continue)
    }
}

} // verus!
