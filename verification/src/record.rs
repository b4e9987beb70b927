//! Requests and completion records.
//!
//! A request is admitted at some instant with an intended service
//! cost; whichever executor processes it emits exactly one completion
//! record. Success is a pure function of the cost alone: a request
//! whose cost reaches the timeout threshold counts as failed, but it
//! still runs to completion.

use vstd::prelude::*;

verus! {

/// Service cost at or above this many milliseconds counts as a timeout.
pub const TIMEOUT_MS: u64 = 1000;

/// A synthetic request: admitted at `start_ms` (milliseconds since the
/// run started) with an intended service cost of `cost_ms` milliseconds.
#[derive(Clone, Copy, PartialEq, Eq, Structural)]
pub struct Task {
    pub start_ms: u64,
    pub cost_ms: u64,
}

/// The completion record of one request. `overhead_ms` is the measured
/// end-to-end duration minus the intended cost: the queueing and
/// scheduling delay beyond the service time itself.
#[derive(Clone, Copy, PartialEq, Eq, Structural)]
pub struct TaskStats {
    pub success: bool,
    pub start_ms: u64,
    pub completion_ms: u64,
    pub overhead_ms: u64,
}

/// The intended service cost a record was measured against, recovered
/// from its fields.
pub open spec fn stats_cost(r: TaskStats) -> int {
    r.completion_ms - r.start_ms - r.overhead_ms
}

/// A record as an executor emits it: the overhead accounts exactly for
/// the time beyond the intended cost, and the success flag reflects
/// the cost alone, never the measured overhead.
pub open spec fn stats_wf(r: TaskStats) -> bool {
    &&& r.start_ms + r.overhead_ms <= r.completion_ms
    &&& r.success == (stats_cost(r) < TIMEOUT_MS)
}

/// The record emitted for task `t` when its processing finishes at
/// `completion_ms`.
pub open spec fn spec_make_stats(t: Task, completion_ms: u64) -> TaskStats {
    TaskStats {
        success: t.cost_ms < TIMEOUT_MS,
        start_ms: t.start_ms,
        completion_ms,
        overhead_ms: (completion_ms - t.start_ms - t.cost_ms) as u64,
    }
}

/// Builds the completion record for task `t` finishing at
/// `completion_ms`. Processing can never finish before the admission
/// instant plus the intended cost, so the overhead is well defined.
pub fn make_stats(t: Task, completion_ms: u64) -> (r: TaskStats)
    requires
        t.start_ms + t.cost_ms <= completion_ms,
    ensures
        r == spec_make_stats(t, completion_ms),
        stats_wf(r),
        r.success == (t.cost_ms < TIMEOUT_MS),
        stats_cost(r) == t.cost_ms,
        r.start_ms == t.start_ms,
        r.completion_ms == completion_ms,
{
    TaskStats {
        success: t.cost_ms < TIMEOUT_MS,
        start_ms: t.start_ms,
        completion_ms,
        overhead_ms: completion_ms - t.start_ms - t.cost_ms,
    }
}

/// The success of the `i`-th admitted request is decided by the
/// workload pattern alone: when its cost is the `i`-th cyclic pick
/// from the distribution, the record's flag says exactly whether that
/// pick stays under the timeout threshold — whatever the completion
/// instant, and hence the measured overhead, turned out to be.
pub proof fn lemma_cyclic_cost_success(dist: Seq<u64>, i: int, t: Task, completion_ms: u64)
    requires
        dist.len() > 0,
        0 <= i,
        t.cost_ms == dist[i % dist.len() as int],
        t.start_ms + t.cost_ms <= completion_ms,
    ensures
        spec_make_stats(t, completion_ms).success <==> dist[i % dist.len() as int] < TIMEOUT_MS,
{
}

/// How many records in `s` carry `success == true`.
pub open spec fn count_success(s: Seq<TaskStats>) -> int
    decreases s.len(),
{
    if s.len() == 0 {
        0
    } else {
        count_success(s.drop_last()) + if s.last().success {
            1int
        } else {
            0int
        }
    }
}

/// How many records in `s` carry `success == false`.
pub open spec fn count_failure(s: Seq<TaskStats>) -> int
    decreases s.len(),
{
    if s.len() == 0 {
        0
    } else {
        count_failure(s.drop_last()) + if s.last().success {
            0int
        } else {
            1int
        }
    }
}

/// Successes and failures partition any collection of records: the two
/// counts add up to the number of records, and in a well-formed record
/// the success flag holds exactly when the cost stayed under the
/// timeout threshold.
pub proof fn lemma_success_partition(s: Seq<TaskStats>)
    ensures
        count_success(s) + count_failure(s) == s.len(),
        0 <= count_success(s) <= s.len(),
        0 <= count_failure(s) <= s.len(),
        forall|i: int|
            0 <= i < s.len() && stats_wf(#[trigger] s[i]) ==> (s[i].success <==> stats_cost(s[i])
                < TIMEOUT_MS),
    decreases s.len(),
{
    if s.len() > 0 {
        lemma_success_partition(s.drop_last());
    }
}

} // verus!
