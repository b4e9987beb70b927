//! The two execution models as explicit state machines.
//!
//! A run moves through the phases dispatching (requests are admitted),
//! draining (no more admissions; outstanding work finishes) and joined
//! (every record is in). The sync model drains a bounded queue with a
//! fixed pool of workers, so at most `n_workers` requests are in
//! processing at once; the async model spawns one independent unit per
//! request, with no bound on the number outstanding.
//!
//! The harness that performs the actual waiting drives these machines;
//! every step keeps the state well formed, and a joined state carries
//! exactly one record per admitted request.

use vstd::prelude::*;

use crate::record::{spec_make_stats, stats_wf, make_stats, Task, TaskStats};
use crate::record::{count_failure, count_success, lemma_success_partition};

verus! {

/// The phases of one run.
#[derive(Clone, Copy, PartialEq, Eq, Structural, Debug)]
pub enum Phase {
    Dispatching,
    Draining,
    Joined,
}

/// The bounded-worker (blocking) execution model: an admission loop
/// fills a queue, and `n_workers` long-lived workers drain it, each
/// processing one request at a time.
pub struct SyncModel {
    pub n_workers: usize,
    pub target: usize,
    pub phase: Phase,
    pub queue: Vec<Task>,
    pub running: Vec<Task>,
    pub records: Vec<TaskStats>,
}

impl SyncModel {
    /// Requests admitted so far: queued, in processing, or completed.
    pub open spec fn admitted(self) -> int {
        self.queue@.len() + self.running@.len() + self.records@.len() as int
    }

    /// The state invariant every step preserves. In particular, at
    /// most `n_workers` requests are ever in processing at once.
    pub open spec fn wf(self) -> bool {
        &&& 1 <= self.n_workers
        &&& self.running@.len() <= self.n_workers
        &&& self.admitted() <= self.target
        &&& (self.phase == Phase::Draining || self.phase == Phase::Joined) ==> self.admitted()
            == self.target
        &&& self.phase == Phase::Joined ==> self.queue@.len() == 0 && self.running@.len() == 0
        &&& forall|i: int| 0 <= i < self.records@.len() ==> stats_wf(#[trigger] self.records@[i])
    }

    /// A fresh run that will admit `target` requests into a pool of
    /// `n_workers` workers.
    pub fn new(n_workers: usize, target: usize) -> (s: Self)
        requires
            1 <= n_workers,
        ensures
            s.wf(),
            s.n_workers == n_workers,
            s.target == target,
            s.phase == Phase::Dispatching,
            s.queue@ =~= Seq::<Task>::empty(),
            s.running@ =~= Seq::<Task>::empty(),
            s.records@ =~= Seq::<TaskStats>::empty(),
    {
        SyncModel {
            n_workers,
            target,
            phase: Phase::Dispatching,
            queue: Vec::new(),
            running: Vec::new(),
            records: Vec::new(),
        }
    }

    /// The admission loop pushes one rate-limited request onto the
    /// queue. The queue is sized to the total job count, so admission
    /// never exceeds `target`.
    pub fn submit(&mut self, t: Task)
        requires
            old(self).wf(),
            old(self).phase == Phase::Dispatching,
            old(self).admitted() < old(self).target,
        ensures
            final(self).wf(),
            final(self).queue@ == old(self).queue@.push(t),
            final(self).running == old(self).running,
            final(self).records == old(self).records,
            final(self).phase == old(self).phase,
            final(self).n_workers == old(self).n_workers,
            final(self).target == old(self).target,
            final(self).admitted() == old(self).admitted() + 1,
    {
        self.queue.push(t);
    }

    /// Ends admission once every request is in: the queue is closed
    /// and the run drains.
    pub fn begin_drain(&mut self)
        requires
            old(self).wf(),
            old(self).phase == Phase::Dispatching,
            old(self).admitted() == old(self).target,
        ensures
            final(self).wf(),
            final(self).phase == Phase::Draining,
            final(self).queue == old(self).queue,
            final(self).running == old(self).running,
            final(self).records == old(self).records,
            final(self).n_workers == old(self).n_workers,
            final(self).target == old(self).target,
    {
        self.phase = Phase::Draining;
    }

    /// A free worker takes the request at the head of the queue into
    /// processing. Only possible while fewer than `n_workers` requests
    /// are in processing: a worker handles one request at a time.
    pub fn worker_take(&mut self)
        requires
            old(self).wf(),
            old(self).queue@.len() > 0,
            old(self).running@.len() < old(self).n_workers,
        ensures
            final(self).wf(),
            final(self).queue@ == old(self).queue@.remove(0),
            final(self).running@ == old(self).running@.push(old(self).queue@[0]),
            final(self).records == old(self).records,
            final(self).phase == old(self).phase,
            final(self).n_workers == old(self).n_workers,
            final(self).target == old(self).target,
            final(self).admitted() == old(self).admitted(),
    {
        let t = self.queue.remove(0);
        self.running.push(t);
    }

    /// A worker finishes the request it holds (any of the running
    /// ones: completion order is not guaranteed) at `completion_ms`
    /// and emits its completion record.
    pub fn worker_finish(&mut self, i: usize, completion_ms: u64)
        requires
            old(self).wf(),
            i < old(self).running@.len(),
            old(self).running@[i as int].start_ms + old(self).running@[i as int].cost_ms
                <= completion_ms,
        ensures
            final(self).wf(),
            final(self).running@ == old(self).running@.remove(i as int),
            final(self).records@ == old(self).records@.push(
                spec_make_stats(old(self).running@[i as int], completion_ms),
            ),
            final(self).queue == old(self).queue,
            final(self).phase == old(self).phase,
            final(self).n_workers == old(self).n_workers,
            final(self).target == old(self).target,
            final(self).admitted() == old(self).admitted(),
    {
        let t = self.running.remove(i);
        let r = make_stats(t, completion_ms);
        self.records.push(r);
    }

    /// Waits out the workers once the queue is empty and nothing is in
    /// processing: the run is joined, and every admitted request has
    /// its record.
    pub fn join(&mut self)
        requires
            old(self).wf(),
            old(self).phase == Phase::Draining,
            old(self).queue@.len() == 0,
            old(self).running@.len() == 0,
        ensures
            final(self).wf(),
            final(self).phase == Phase::Joined,
            final(self).records == old(self).records,
            final(self).records@.len() == final(self).target,
            final(self).n_workers == old(self).n_workers,
            final(self).target == old(self).target,
    {
        self.phase = Phase::Joined;
    }
}

/// Bounded-worker law: in any well-formed sync-model state at most
/// `n_workers` requests are in processing at once, whatever the
/// arrival pattern was.
pub proof fn lemma_bounded_workers(s: SyncModel)
    requires
        s.wf(),
    ensures
        s.running@.len() <= s.n_workers,
{
}

/// Completion law for the sync model: once joined, the run holds
/// exactly one completion record per admitted request.
pub proof fn lemma_sync_joined_record_count(s: SyncModel)
    requires
        s.wf(),
        s.phase == Phase::Joined,
    ensures
        s.records@.len() == s.target,
{
}

/// Success partition law for the sync model: in a joined run the
/// successful and failed records together account for every admitted
/// request.
pub proof fn lemma_sync_success_partition(s: SyncModel)
    requires
        s.wf(),
        s.phase == Phase::Joined,
    ensures
        count_success(s.records@) + count_failure(s.records@) == s.target,
{
    lemma_success_partition(s.records@);
}

/// The abstract state of the async execution model.
pub struct AsyncState {
    pub target: nat,
    pub phase: Phase,
    pub outstanding: Seq<Task>,
    pub records: Seq<TaskStats>,
}

impl AsyncState {
    /// Requests admitted so far: outstanding or completed.
    pub open spec fn admitted(self) -> int {
        self.outstanding.len() + self.records.len() as int
    }

    /// The state invariant every transition preserves. Unlike the
    /// sync model, nothing here bounds `outstanding`: concurrency is
    /// limited only by how many requests have been admitted.
    pub open spec fn wf(self) -> bool {
        &&& self.admitted() <= self.target
        &&& (self.phase == Phase::Draining || self.phase == Phase::Joined) ==> self.admitted()
            == self.target
        &&& self.phase == Phase::Joined ==> self.outstanding.len() == 0
        &&& forall|i: int| 0 <= i < self.records.len() ==> stats_wf(#[trigger] self.records[i])
    }
}

/// A fresh async run that will admit `target` requests.
pub open spec fn async_init(target: nat) -> AsyncState {
    AsyncState {
        target,
        phase: Phase::Dispatching,
        outstanding: Seq::empty(),
        records: Seq::empty(),
    }
}

/// Admission spawns one independently scheduled unit for the request.
pub open spec fn async_admit(s: AsyncState, t: Task) -> AsyncState {
    AsyncState { outstanding: s.outstanding.push(t), ..s }
}

/// Repeated admission, one unit per request, in order.
pub open spec fn async_admit_all(s: AsyncState, ts: Seq<Task>) -> AsyncState
    decreases ts.len(),
{
    if ts.len() == 0 {
        s
    } else {
        async_admit_all(async_admit(s, ts.first()), ts.drop_first())
    }
}

/// The per-request-task (non-blocking) execution model: one unit of
/// work per admitted request, no dedicated workers, no queue bound.
pub struct AsyncModel {
    pub target: usize,
    pub phase: Phase,
    pub outstanding: Vec<Task>,
    pub records: Vec<TaskStats>,
}

impl View for AsyncModel {
    type V = AsyncState;

    open spec fn view(&self) -> AsyncState {
        AsyncState {
            target: self.target as nat,
            phase: self.phase,
            outstanding: self.outstanding@,
            records: self.records@,
        }
    }
}

impl AsyncModel {
    /// A fresh run that will admit `target` requests.
    pub fn new(target: usize) -> (s: Self)
        ensures
            s@ == async_init(target as nat),
            s@.wf(),
            s.target == target,
    {
        AsyncModel {
            target,
            phase: Phase::Dispatching,
            outstanding: Vec::new(),
            records: Vec::new(),
        }
    }

    /// The admission loop spawns one unit of work for a rate-limited
    /// request. No worker bound applies.
    pub fn submit(&mut self, t: Task)
        requires
            old(self)@.wf(),
            old(self).phase == Phase::Dispatching,
            old(self)@.admitted() < old(self).target,
        ensures
            final(self)@ == async_admit(old(self)@, t),
            final(self)@.wf(),
            final(self).outstanding@ == old(self).outstanding@.push(t),
            final(self).records == old(self).records,
            final(self).phase == old(self).phase,
            final(self).target == old(self).target,
    {
        self.outstanding.push(t);
    }

    /// Ends admission once every request has its unit.
    pub fn begin_drain(&mut self)
        requires
            old(self)@.wf(),
            old(self).phase == Phase::Dispatching,
            old(self)@.admitted() == old(self).target,
        ensures
            final(self)@.wf(),
            final(self).phase == Phase::Draining,
            final(self).outstanding == old(self).outstanding,
            final(self).records == old(self).records,
            final(self).target == old(self).target,
    {
        self.phase = Phase::Draining;
    }

    /// One outstanding unit (any of them: units complete in any order)
    /// finishes at `completion_ms` and emits its record.
    pub fn finish(&mut self, i: usize, completion_ms: u64)
        requires
            old(self)@.wf(),
            i < old(self).outstanding@.len(),
            old(self).outstanding@[i as int].start_ms + old(self).outstanding@[i as int].cost_ms
                <= completion_ms,
        ensures
            final(self)@.wf(),
            final(self).outstanding@ == old(self).outstanding@.remove(i as int),
            final(self).records@ == old(self).records@.push(
                spec_make_stats(old(self).outstanding@[i as int], completion_ms),
            ),
            final(self).phase == old(self).phase,
            final(self).target == old(self).target,
            final(self)@.admitted() == old(self)@.admitted(),
    {
        let t = self.outstanding.remove(i);
        let r = make_stats(t, completion_ms);
        self.records.push(r);
    }

    /// All units have been awaited: the run is joined, and every
    /// admitted request has its record.
    pub fn join(&mut self)
        requires
            old(self)@.wf(),
            old(self).phase == Phase::Draining,
            old(self).outstanding@.len() == 0,
        ensures
            final(self)@.wf(),
            final(self).phase == Phase::Joined,
            final(self).records == old(self).records,
            final(self).records@.len() == final(self).target,
            final(self).target == old(self).target,
    {
        self.phase = Phase::Joined;
    }
}

/// Completion law for the async model: once joined, the run holds
/// exactly one completion record per admitted request.
pub proof fn lemma_async_joined_record_count(s: AsyncState)
    requires
        s.wf(),
        s.phase == Phase::Joined,
    ensures
        s.records.len() == s.target,
{
}

/// Success partition law for the async model.
pub proof fn lemma_async_success_partition(s: AsyncState)
    requires
        s.wf(),
        s.phase == Phase::Joined,
    ensures
        count_success(s.records) + count_failure(s.records) == s.target,
{
    lemma_success_partition(s.records);
}

/// Effect of admitting a whole batch while dispatching: every request
/// adds one outstanding unit and the state stays well formed.
proof fn lemma_admit_all_effect(s: AsyncState, ts: Seq<Task>)
    requires
        s.wf(),
        s.phase == Phase::Dispatching,
        s.admitted() + ts.len() <= s.target,
    ensures
        async_admit_all(s, ts).wf(),
        async_admit_all(s, ts).outstanding.len() == s.outstanding.len() + ts.len(),
        async_admit_all(s, ts).records == s.records,
        async_admit_all(s, ts).phase == Phase::Dispatching,
        async_admit_all(s, ts).target == s.target,
    decreases ts.len(),
{
    if ts.len() > 0 {
        lemma_admit_all_effect(async_admit(s, ts.first()), ts.drop_first());
    }
}

/// Unbounded-concurrency law: the async model's concurrency exceeds
/// any fixed worker bound `k`, given enough admitted requests — after
/// admitting more than `k` requests with none yet finished, more than
/// `k` units are outstanding at once, and the state is still well
/// formed. Nothing in the model caps the number of concurrent units.
pub proof fn lemma_unbounded_concurrency(target: nat, ts: Seq<Task>, k: nat)
    requires
        k < ts.len() <= target,
    ensures
        async_admit_all(async_init(target), ts).wf(),
        async_admit_all(async_init(target), ts).outstanding.len() > k,
{
    lemma_admit_all_effect(async_init(target), ts);
}

} // verus!
