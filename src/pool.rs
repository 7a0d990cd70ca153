//! The sizing decisions of the worker pool: when to start a worker, when an
//! idle worker retires, and how many stop signals a teardown sends.
use vstd::prelude::*;

verus! {

/// One job for a worker: a task to run, or the signal to stop.
pub enum Job<F> {
    Task(F),
    Stop,
}

/// Bounds and idle timeout of a worker pool.
#[derive(Debug, Clone, Copy, PartialEq, Eq, Structural)]
pub struct PoolConfig {
    pub max_workers: usize,
    pub min_workers: usize,
    /// How long an idle worker waits for a job before it may retire, in milliseconds.
    pub timeout_ms: u64,
}

impl PoolConfig {
    /// 60 workers at most, 6 kept, 30 seconds of idle time.
    pub fn standard() -> (r: PoolConfig)
        ensures
            r.max_workers == 60,
            r.min_workers == 6,
            r.timeout_ms == 30000,
    {
        PoolConfig { max_workers: 60, min_workers: 6, timeout_ms: 30000 }
    }
}

/// How many workers run and how many of them wait for a job.
#[derive(Debug, Clone, Copy, PartialEq, Eq, Structural)]
pub struct PoolState {
    pub config: PoolConfig,
    pub active: usize,
    pub idle: usize,
}

/// Active and idle counts after `k` idle timeouts with no work: each retires
/// one worker while more than `min` are active.
pub open spec fn after_idle_timeouts(active: nat, min: nat, k: nat) -> nat
    decreases k,
{
    if k == 0 {
        active
    } else {
        let a = after_idle_timeouts(active, min, (k - 1) as nat);
        if a > min {
            (a - 1) as nat
        } else {
            a
        }
    }
}

impl PoolState {
    /// At most `max_workers` are active, at least `min_workers` until teardown,
    /// and no more are idle than active.
    pub open spec fn wf(&self) -> bool {
        &&& self.config.min_workers <= self.config.max_workers
        &&& self.config.min_workers <= self.active <= self.config.max_workers
        &&& self.idle <= self.active
    }

    /// A pool whose `min_workers` workers were started and wait for jobs.
    pub fn start(config: PoolConfig) -> (r: PoolState)
        requires
            config.min_workers <= config.max_workers,
        ensures
            r.wf(),
            r.config == config,
            r.active == config.min_workers,
            r.idle == config.min_workers,
    {
        PoolState { config, active: config.min_workers, idle: config.min_workers }
    }

    /// A job was queued. Returns whether a new worker is started: only when
    /// none is idle and fewer than `max_workers` run.
    pub fn on_job_queued(&mut self) -> (spawn: bool)
        requires
            old(self).wf(),
        ensures
            final(self).wf(),
            final(self).config == old(self).config,
            spawn == (old(self).idle == 0 && old(self).active < old(self).config.max_workers),
            spawn ==> final(self).active == old(self).active + 1 && final(self).idle == old(self).idle + 1,
            !spawn ==> *final(self) == *old(self),
    {
        if self.idle == 0 && self.active < self.config.max_workers {
            self.active = self.active + 1;
            self.idle = self.idle + 1;
            true
        } else {
            false
        }
    }

    /// An idle worker took a job.
    pub fn on_job_started(&mut self)
        requires
            old(self).wf(),
            old(self).idle > 0,
        ensures
            final(self).wf(),
            final(self).config == old(self).config,
            final(self).active == old(self).active,
            final(self).idle == old(self).idle - 1,
    {
        self.idle = self.idle - 1;
    }

    /// A worker finished its job, whether it returned or panicked.
    pub fn on_job_finished(&mut self)
        requires
            old(self).wf(),
            old(self).idle < old(self).active,
        ensures
            final(self).wf(),
            final(self).config == old(self).config,
            final(self).active == old(self).active,
            final(self).idle == old(self).idle + 1,
    {
        self.idle = self.idle + 1;
    }

    /// An idle worker waited `timeout_ms` without a job. Returns whether it
    /// retires: only while more than `min_workers` are active.
    pub fn on_idle_timeout(&mut self) -> (retire: bool)
        requires
            old(self).wf(),
            old(self).idle > 0,
        ensures
            final(self).wf(),
            final(self).config == old(self).config,
            retire == (old(self).active > old(self).config.min_workers),
            retire ==> final(self).active == old(self).active - 1 && final(self).idle == old(self).idle - 1,
            !retire ==> *final(self) == *old(self),
    {
        if self.active > self.config.min_workers {
            self.active = self.active - 1;
            self.idle = self.idle - 1;
            true
        } else {
            false
        }
    }

    /// How many stop signals a teardown sends: one per active worker.
    pub fn stop_signals(&self) -> (r: usize)
        ensures
            r == self.active,
    {
        self.active
    }
}

/// With no work, idle timeouts bring the active count down to `min_workers`
/// and never below: after `active - min` of them exactly `min` remain.
pub proof fn lemma_idle_pool_converges(active: nat, min: nat, k: nat)
    requires
        min <= active,
    ensures
        min <= after_idle_timeouts(active, min, k),
        after_idle_timeouts(active, min, k) <= active,
        k <= active - min ==> after_idle_timeouts(active, min, k) == active - k,
        k >= active - min ==> after_idle_timeouts(active, min, k) == min,
    decreases k,
{
    if k > 0 {
        lemma_idle_pool_converges(active, min, (k - 1) as nat);
    }
}

/// However jobs arrive, a pool never runs more than `max_workers` workers.
pub proof fn lemma_pool_ceiling(s: PoolState)
    requires
        s.wf(),
    ensures
        s.active <= s.config.max_workers,
        s.config.min_workers <= s.active,
{
}

} // verus!
