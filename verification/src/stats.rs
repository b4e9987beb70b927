//! Statistics aggregation over completion records.
//!
//! Three series are derived, all over the successful records only:
//! per-second completion counts (grouping records by whole seconds
//! since the run started), the overhead percentile curve, and the
//! per-window percentile timeline. All three group by value, so none
//! depends on the order in which records were collected.

use std::collections::HashMap;

use vstd::prelude::*;
use vstd::relations::{sorted_by, total_ordering};
use vstd::seq_lib::lemma_sorted_unique;

use crate::record::TaskStats;
use crate::sorting::{sort_u64, sorted_by_start, sorted_u64};

verus! {

broadcast use vstd::std_specs::hash::group_hash_axioms;

/// Why a derived series could not be produced.
#[derive(Clone, Copy, PartialEq, Eq, Structural, Debug)]
pub enum StatsError {
    /// No successful records at all: nothing to aggregate.
    NoData,
    /// A timeline window holds fewer than two records, too few to
    /// index every percentile without going out of range.
    SmallWindow,
}

/// The whole second (since the run started) in which a record completed.
pub open spec fn bucket_of(r: TaskStats, run_start_ms: u64) -> int
    recommends
        run_start_ms <= r.completion_ms,
{
    (r.completion_ms - run_start_ms) / 1000
}

/// How many records of `s` completed within second `k` of the run.
pub open spec fn count_bucket(s: Seq<TaskStats>, run_start_ms: u64, k: int) -> int
    decreases s.len(),
{
    if s.len() == 0 {
        0
    } else {
        count_bucket(s.drop_last(), run_start_ms, k) + if bucket_of(s.last(), run_start_ms) == k {
            1int
        } else {
            0int
        }
    }
}

proof fn lemma_count_bucket_bounds(s: Seq<TaskStats>, run_start_ms: u64, k: int)
    ensures
        0 <= count_bucket(s, run_start_ms, k) <= s.len(),
    decreases s.len(),
{
    if s.len() > 0 {
        lemma_count_bucket_bounds(s.drop_last(), run_start_ms, k);
    }
}

/// Splits the raw records of a run into the successful ones and their
/// per-second completion counts. Only successful records feed any
/// series; failed records are left out of both results.
pub fn process_stats(records: &Vec<TaskStats>, run_start_ms: u64) -> (r: (
    Vec<TaskStats>,
    HashMap<u64, u64>,
))
    requires
        forall|i: int| 0 <= i < records@.len() ==> run_start_ms <= #[trigger] records@[i].completion_ms,
    ensures
        r.0@ == records@.filter(|t: TaskStats| t.success),
        forall|i: int| 0 <= i < r.0@.len() ==> run_start_ms <= #[trigger] r.0@[i].completion_ms,
        forall|k: u64|
            r.1@.contains_key(k) <==> count_bucket(
                records@.filter(|t: TaskStats| t.success),
                run_start_ms,
                k as int,
            ) > 0,
        forall|k: u64|
            #[trigger] r.1@.contains_key(k) ==> r.1@[k] == count_bucket(
                records@.filter(|t: TaskStats| t.success),
                run_start_ms,
                k as int,
            ),
{
    let ghost pred = |t: TaskStats| t.success;
    let mut latencies: Vec<TaskStats> = Vec::new();
    let mut buckets: HashMap<u64, u64> = HashMap::new();
    let mut i: usize = 0;
    proof {
        reveal(Seq::filter);
        assert(records@.take(0) =~= Seq::<TaskStats>::empty());
    }
    while i < records.len()
        invariant
            i <= records@.len(),
            forall|j: int|
                0 <= j < records@.len() ==> run_start_ms <= #[trigger] records@[j].completion_ms,
            pred == (|t: TaskStats| t.success),
            latencies@ == records@.take(i as int).filter(pred),
            forall|j: int|
                0 <= j < latencies@.len() ==> run_start_ms <= #[trigger] latencies@[j].completion_ms,
            forall|k: u64|
                buckets@.contains_key(k) <==> count_bucket(
                    records@.take(i as int).filter(pred),
                    run_start_ms,
                    k as int,
                ) > 0,
            forall|k: u64|
                #[trigger] buckets@.contains_key(k) ==> buckets@[k] == count_bucket(
                    records@.take(i as int).filter(pred),
                    run_start_ms,
                    k as int,
                ),
        decreases records@.len() - i,
    {
        let rec = records[i];
        proof {
            reveal(Seq::filter);
            assert(records@.take(i + 1).drop_last() =~= records@.take(i as int));
            assert(records@.take(i + 1).last() == records@[i as int]);
        }
        if rec.success {
            let k = (rec.completion_ms - run_start_ms) / 1000;
            let prev = match buckets.get(&k) {
                Some(v) => *v,
                None => 0,
            };
            proof {
                let filtered = records@.take(i as int).filter(pred);
                lemma_count_bucket_bounds(filtered, run_start_ms, k as int);
                filtered.lemma_filter_len(pred);
                assert(records@.take(i + 1).filter(pred) =~= filtered.push(records@[i as int]));
                assert(records@.take(i + 1).filter(pred).drop_last() =~= filtered);
            }
            latencies.push(rec);
            buckets.insert(k, prev + 1);
        } else {
            proof {
                assert(records@.take(i + 1).filter(pred) =~= records@.take(i as int).filter(pred));
            }
        }
        i = i + 1;
    }
    proof {
        assert(records@.take(records@.len() as int) =~= records@);
    }
    (latencies, buckets)
}

/// The earliest completion second among the records.
pub open spec fn min_bucket(s: Seq<TaskStats>, run_start_ms: u64) -> int
    recommends
        s.len() > 0,
    decreases s.len(),
{
    if s.len() <= 1 {
        bucket_of(s[0], run_start_ms)
    } else {
        let rest = min_bucket(s.drop_last(), run_start_ms);
        if bucket_of(s.last(), run_start_ms) < rest {
            bucket_of(s.last(), run_start_ms)
        } else {
            rest
        }
    }
}

/// The latest completion second among the records.
pub open spec fn max_bucket(s: Seq<TaskStats>, run_start_ms: u64) -> int
    recommends
        s.len() > 0,
    decreases s.len(),
{
    if s.len() <= 1 {
        bucket_of(s[0], run_start_ms)
    } else {
        let rest = max_bucket(s.drop_last(), run_start_ms);
        if bucket_of(s.last(), run_start_ms) > rest {
            bucket_of(s.last(), run_start_ms)
        } else {
            rest
        }
    }
}

/// The first and last occupied completion seconds of a run, or `None`
/// when there is no record to take them from.
pub fn bucket_bounds(latencies: &Vec<TaskStats>, run_start_ms: u64) -> (r: Option<(u64, u64)>)
    requires
        forall|i: int|
            0 <= i < latencies@.len() ==> run_start_ms <= #[trigger] latencies@[i].completion_ms,
    ensures
        r is None <==> latencies@.len() == 0,
        r matches Some(b) ==> b.0 == min_bucket(latencies@, run_start_ms) && b.1 == max_bucket(
            latencies@,
            run_start_ms,
        ),
{
    if latencies.len() == 0 {
        return None;
    }
    let mut lo = (latencies[0].completion_ms - run_start_ms) / 1000;
    let mut hi = lo;
    let mut i: usize = 1;
    proof {
        assert(latencies@.take(1) =~= seq![latencies@[0]]);
    }
    while i < latencies.len()
        invariant
            1 <= i <= latencies@.len(),
            forall|j: int|
                0 <= j < latencies@.len() ==> run_start_ms <= #[trigger] latencies@[j].completion_ms,
            lo == min_bucket(latencies@.take(i as int), run_start_ms),
            hi == max_bucket(latencies@.take(i as int), run_start_ms),
        decreases latencies@.len() - i,
    {
        let b = (latencies[i].completion_ms - run_start_ms) / 1000;
        proof {
            assert(latencies@.take(i + 1).drop_last() =~= latencies@.take(i as int));
            assert(latencies@.take(i + 1).last() == latencies@[i as int]);
        }
        if b < lo {
            lo = b;
        }
        if b > hi {
            hi = b;
        }
        i = i + 1;
    }
    proof {
        assert(latencies@.take(latencies@.len() as int) =~= latencies@);
    }
    Some((lo, hi))
}

/// The completion counts of the interior seconds of a run: every
/// second strictly between the first (`lo`) and last (`hi`) occupied
/// ones, with zero for seconds in which nothing completed. The first
/// and last seconds are left out as partial windows.
pub fn interior_counts(buckets: &HashMap<u64, u64>, lo: u64, hi: u64) -> (r: Vec<u64>)
    requires
        lo <= hi,
    ensures
        r@.len() == if hi - lo >= 2 {
            (hi - lo - 1) as int
        } else {
            0int
        },
        forall|j: int|
            0 <= j < r@.len() ==> r@[j] == if buckets@.contains_key((lo + 1 + j) as u64) {
                buckets@[(lo + 1 + j) as u64]
            } else {
                0u64
            },
{
    let mut out: Vec<u64> = Vec::new();
    if hi - lo < 2 {
        return out;
    }
    let mut s = lo + 1;
    while s < hi
        invariant
            lo + 1 <= s <= hi,
            hi <= u64::MAX,
            out@.len() == s - lo - 1,
            forall|j: int|
                0 <= j < out@.len() ==> out@[j] == if buckets@.contains_key((lo + 1 + j) as u64) {
                    buckets@[(lo + 1 + j) as u64]
                } else {
                    0u64
                },
        decreases hi - s,
    {
        let c = match buckets.get(&s) {
            Some(v) => *v,
            None => 0,
        };
        out.push(c);
        s = s + 1;
    }
    out
}

/// The sum of a series of counts.
pub open spec fn spec_sum(s: Seq<u64>) -> int
    decreases s.len(),
{
    if s.len() == 0 {
        0
    } else {
        spec_sum(s.drop_last()) + s.last()
    }
}

proof fn lemma_spec_sum_bounds(s: Seq<u64>)
    ensures
        0 <= spec_sum(s) <= s.len() * u64::MAX,
    decreases s.len(),
{
    if s.len() > 0 {
        lemma_spec_sum_bounds(s.drop_last());
        assert((s.len() - 1) * u64::MAX + u64::MAX == s.len() * u64::MAX) by (nonlinear_arith);
    }
}

/// Adds up a series of per-second counts; the mean rate over the
/// series is this total divided by the series length.
pub fn sum_counts(v: &Vec<u64>) -> (t: u128)
    ensures
        t == spec_sum(v@),
{
    let mut t: u128 = 0;
    let mut i: usize = 0;
    proof {
        assert(v@.take(0) =~= Seq::<u64>::empty());
    }
    while i < v.len()
        invariant
            i <= v@.len(),
            t == spec_sum(v@.take(i as int)),
        decreases v@.len() - i,
    {
        proof {
            assert(v@.take(i + 1).drop_last() =~= v@.take(i as int));
            assert(v@.take(i + 1).last() == v@[i as int]);
            lemma_spec_sum_bounds(v@.take(i as int));
            assert(i * (u64::MAX as int) + u64::MAX <= u128::MAX) by (nonlinear_arith)
                requires
                    0 <= i < 0x1_0000_0000_0000_0000,
            ;
        }
        t = t + (v[i] as u128);
        i = i + 1;
    }
    proof {
        assert(v@.take(v@.len() as int) =~= v@);
    }
    t
}

/// Ascending order on overhead values, as a relation.
pub open spec fn u64_leq() -> spec_fn(u64, u64) -> bool {
    |a: u64, b: u64| a <= b
}

/// The overhead values of records, in the order given.
pub open spec fn overheads_of(s: Seq<TaskStats>) -> Seq<u64> {
    s.map_values(|t: TaskStats| t.overhead_ms)
}

/// The overhead values of records, sorted ascending.
pub open spec fn sorted_overheads(s: Seq<TaskStats>) -> Seq<u64> {
    overheads_of(s).sort_by(u64_leq())
}

proof fn lemma_u64_leq_total()
    ensures
        total_ordering(u64_leq()),
{
}

/// An ascending rearrangement of `x` is exactly `x` sorted: ascending
/// order pins the sequence down.
proof fn lemma_sorted_is_sort_by(x: Seq<u64>, y: Seq<u64>)
    requires
        sorted_u64(y),
        x.to_multiset() == y.to_multiset(),
    ensures
        y == x.sort_by(u64_leq()),
{
    lemma_u64_leq_total();
    x.lemma_sort_by_ensures(u64_leq());
    assert(sorted_by(y, u64_leq()));
    lemma_sorted_unique(x.sort_by(u64_leq()), y, u64_leq());
}

/// The index at which percentile `p` (in hundredths of a percent) of
/// `n` sorted values is read: `max(0, floor(p / 10000 * n) - 1)`.
pub open spec fn spec_pct_index(p: int, n: int) -> int {
    if p * n / 10000 >= 1 {
        p * n / 10000 - 1
    } else {
        0
    }
}

/// Resolves percentile `p` (hundredths of a percent, 0 through 10000)
/// to an index into `n` sorted values. The index is in range for every
/// such `p` and every `n >= 1`; in particular `p == 0` and `p == 10000`
/// resolve to valid indices.
pub fn percentile_index(p: usize, n: usize) -> (r: usize)
    requires
        1 <= n,
        p <= 10000,
    ensures
        r == spec_pct_index(p as int, n as int),
        r < n,
{
    proof {
        assert((p as int) * (n as int) <= 10000 * (n as int) <= u128::MAX) by (nonlinear_arith)
            requires
                p <= 10000,
                n <= usize::MAX,
        ;
    }
    let q = (p as u128) * (n as u128) / 10000;
    proof {
        assert((p as int) * (n as int) / 10000 <= n as int) by (nonlinear_arith)
            requires
                p <= 10000,
                1 <= n,
        ;
        assert((p as int) * (n as int) >= 0) by (nonlinear_arith)
            requires
                p >= 0,
                n >= 0,
        ;
    }
    if q >= 1 {
        (q - 1) as usize
    } else {
        0
    }
}

/// Reads the whole percentile curve out of sorted overhead values:
/// entry `p` is the value at percentile `p/100` percent.
pub fn percentile_curve(sorted: &Vec<u64>) -> (r: Vec<u64>)
    requires
        sorted@.len() >= 1,
    ensures
        r@.len() == 10001,
        forall|p: int|
            0 <= p <= 10000 ==> r@[p] == sorted@[spec_pct_index(p, sorted@.len() as int)],
{
    let mut out: Vec<u64> = Vec::new();
    let mut p: usize = 0;
    while p <= 10000
        invariant
            sorted@.len() >= 1,
            p <= 10001,
            out@.len() == p,
            forall|q: int|
                0 <= q < p ==> out@[q] == sorted@[spec_pct_index(q, sorted@.len() as int)],
        decreases 10001 - p,
    {
        let idx = percentile_index(p, sorted.len());
        out.push(sorted[idx]);
        p = p + 1;
    }
    out
}

/// The overhead percentile curve of the successful records: entry `p`
/// is the overhead at percentile `p/100` percent (resolution one
/// hundredth of a percent), read from the overheads sorted ascending
/// at index `max(0, floor(p/10000 * N) - 1)`. With no record at all
/// there is no curve to read.
pub fn overhead_percentiles(latencies: &Vec<TaskStats>) -> (r: Result<Vec<u64>, StatsError>)
    ensures
        r is Err <==> latencies@.len() == 0,
        r is Err ==> r == Result::<Vec<u64>, StatsError>::Err(StatsError::NoData),
        r matches Ok(c) ==> {
            &&& c@.len() == 10001
            &&& forall|p: int|
                0 <= p <= 10000 ==> c@[p] == sorted_overheads(latencies@)[spec_pct_index(
                    p,
                    latencies@.len() as int,
                )]
        },
{
    if latencies.len() == 0 {
        return Err(StatsError::NoData);
    }
    let mut os: Vec<u64> = Vec::new();
    let mut i: usize = 0;
    proof {
        assert(os@ =~= overheads_of(latencies@.take(0)));
    }
    while i < latencies.len()
        invariant
            i <= latencies@.len(),
            os@ == overheads_of(latencies@.take(i as int)),
        decreases latencies@.len() - i,
    {
        os.push(latencies[i].overhead_ms);
        proof {
            assert(os@ =~= overheads_of(latencies@.take(i + 1)));
        }
        i = i + 1;
    }
    proof {
        assert(latencies@.take(latencies@.len() as int) =~= latencies@);
    }
    let ghost raw = os@;
    let sorted = sort_u64(os);
    proof {
        lemma_sorted_is_sort_by(raw, sorted@);
    }
    Ok(percentile_curve(&sorted))
}

/// First index at or after `j` that falls outside the window beginning
/// at record `b`: a window holds its first record and every following
/// one that was admitted less than one second after it.
pub open spec fn wend(s: Seq<TaskStats>, b: int, j: int) -> int
    decreases s.len() - j,
{
    if j >= s.len() {
        s.len() as int
    } else if s[j].start_ms - s[b].start_ms >= 1000 {
        j
    } else {
        wend(s, b, j + 1)
    }
}

proof fn lemma_wend(s: Seq<TaskStats>, b: int, j: int)
    requires
        0 <= b < s.len(),
        b < j <= s.len(),
    ensures
        j <= wend(s, b, j) <= s.len(),
        forall|k: int| j <= k < wend(s, b, j) ==> s[k].start_ms - s[b].start_ms < 1000,
        wend(s, b, j) < s.len() ==> s[wend(s, b, j)].start_ms - s[b].start_ms >= 1000,
    decreases s.len() - j,
{
    if j < s.len() && s[j].start_ms - s[b].start_ms < 1000 {
        lemma_wend(s, b, j + 1);
    }
}

/// The start indices of the consecutive one-second windows that
/// partition a record sequence in admission order.
pub open spec fn window_starts(s: Seq<TaskStats>, b: int) -> Seq<int>
    decreases s.len() - b,
    via window_starts_decreases
{
    if b < 0 || b >= s.len() {
        Seq::empty()
    } else {
        seq![b] + window_starts(s, wend(s, b, b + 1))
    }
}

#[via_fn]
proof fn window_starts_decreases(s: Seq<TaskStats>, b: int) {
    if 0 <= b < s.len() {
        lemma_wend(s, b, b + 1);
    }
}

/// The (p50, p90, p99) triple of one window's overheads, read from the
/// window's overheads sorted ascending at the indices `size/2 - 1`,
/// `size*9/10 - 1` and `size*99/100 - 1`.
pub open spec fn window_pcts(win: Seq<TaskStats>) -> (u64, u64, u64)
    recommends
        win.len() >= 2,
{
    let os = overheads_of(win).sort_by(u64_leq());
    let n = os.len() as int;
    (os[n / 2 - 1], os[n * 9 / 10 - 1], os[n * 99 / 100 - 1])
}

/// The percentile timeline: one entry per one-second window.
#[derive(PartialEq, Eq, Debug)]
pub struct TimelineSeries {
    pub p50: Vec<u64>,
    pub p90: Vec<u64>,
    pub p99: Vec<u64>,
}

/// The overhead timeline of a run: the records, already in admission
/// order, are split into consecutive windows — a window closes at the
/// first record admitted a full second or more after the window's
/// first — and each window reports the p50, p90 and p99 of its
/// overheads. With no records there is nothing to report, and a window
/// of fewer than two records is too small to index every percentile.
pub fn timeline_of_sorted(s: &Vec<TaskStats>) -> (r: Result<TimelineSeries, StatsError>)
    requires
        sorted_by_start(s@),
    ensures
        r == Result::<TimelineSeries, StatsError>::Err(StatsError::NoData) <==> s@.len() == 0,
        r == Result::<TimelineSeries, StatsError>::Err(StatsError::SmallWindow) <==> (s@.len() > 0
            && exists|w: int|
            0 <= w < window_starts(s@, 0).len() && wend(
                s@,
                #[trigger] window_starts(s@, 0)[w],
                window_starts(s@, 0)[w] + 1,
            ) - window_starts(s@, 0)[w] < 2),
        r matches Ok(t) ==> {
            let ws = window_starts(s@, 0);
            &&& t.p50@.len() == ws.len()
            &&& t.p90@.len() == ws.len()
            &&& t.p99@.len() == ws.len()
            &&& forall|w: int|
                0 <= w < ws.len() ==> {
                    let pc = window_pcts(s@.subrange(ws[w], wend(s@, ws[w], #[trigger] ws[w] + 1)));
                    &&& t.p50@[w] == pc.0
                    &&& t.p90@[w] == pc.1
                    &&& t.p99@[w] == pc.2
                }
        },
{
    let n = s.len();
    if n == 0 {
        return Err(StatsError::NoData);
    }
    let ghost ws = window_starts(s@, 0);
    let mut p50: Vec<u64> = Vec::new();
    let mut p90: Vec<u64> = Vec::new();
    let mut p99: Vec<u64> = Vec::new();
    let mut b: usize = 0;
    while b < n
        invariant
            sorted_by_start(s@),
            n == s@.len(),
            0 < n,
            b <= n,
            ws == window_starts(s@, 0),
            p90@.len() == p50@.len(),
            p99@.len() == p50@.len(),
            ws.len() == p50@.len() + window_starts(s@, b as int).len(),
            forall|m: int|
                0 <= m < window_starts(s@, b as int).len() ==> ws[p50@.len() + m]
                    == #[trigger] window_starts(s@, b as int)[m],
            forall|w: int|
                0 <= w < p50@.len() ==> wend(s@, #[trigger] ws[w], ws[w] + 1) - ws[w] >= 2,
            forall|w: int|
                0 <= w < p50@.len() ==> {
                    let pc = window_pcts(s@.subrange(ws[w], wend(s@, ws[w], #[trigger] ws[w] + 1)));
                    &&& p50@[w] == pc.0
                    &&& p90@[w] == pc.1
                    &&& p99@[w] == pc.2
                },
        decreases n - b,
    {
        let ghost k = p50@.len() as int;
        proof {
            lemma_wend(s@, b as int, b as int + 1);
            assert(window_starts(s@, b as int) == seq![b as int] + window_starts(
                s@,
                wend(s@, b as int, b as int + 1),
            ));
            assert(ws[k] == window_starts(s@, b as int)[0]);
        }
        let mut e: usize = b + 1;
        while e < n && s[e].start_ms - s[b].start_ms < 1000
            invariant
                sorted_by_start(s@),
                n == s@.len(),
                b < e <= n,
                wend(s@, b as int, b as int + 1) == wend(s@, b as int, e as int),
            decreases n - e,
        {
            proof {
                assert(s@[b as int].start_ms <= s@[e as int].start_ms);
            }
            e = e + 1;
        }
        proof {
            if e < n {
                assert(s@[b as int].start_ms <= s@[e as int].start_ms);
            }
            assert(wend(s@, b as int, e as int) == e as int);
            assert(wend(s@, b as int, b as int + 1) == e as int);
        }
        if e - b < 2 {
            proof {
                assert(ws[k] == b as int);
                assert(0 <= k < ws.len());
                assert(wend(s@, ws[k], ws[k] + 1) - ws[k] < 2);
            }
            return Err(StatsError::SmallWindow);
        }
        let mut os: Vec<u64> = Vec::new();
        let mut j: usize = b;
        proof {
            assert(os@ =~= overheads_of(s@.subrange(b as int, b as int)));
        }
        while j < e
            invariant
                n == s@.len(),
                b <= j <= e <= n,
                os@ == overheads_of(s@.subrange(b as int, j as int)),
            decreases e - j,
        {
            os.push(s[j].overhead_ms);
            proof {
                assert(s@.subrange(b as int, j + 1) =~= s@.subrange(b as int, j as int).push(
                    s@[j as int],
                ));
                assert(os@ =~= overheads_of(s@.subrange(b as int, j + 1)));
            }
            j = j + 1;
        }
        let sz = os.len();
        let ghost raw = os@;
        let sorted = sort_u64(os);
        proof {
            lemma_sorted_is_sort_by(raw, sorted@);
            assert(2 <= sz <= n);
            assert(1 <= (sz as int) * 9 / 10 <= sz) by (nonlinear_arith)
                requires
                    2 <= sz,
            ;
            assert(1 <= (sz as int) * 99 / 100 <= sz) by (nonlinear_arith)
                requires
                    2 <= sz,
            ;
        }
        let i50 = sz / 2 - 1;
        let i90 = ((sz as u128) * 9 / 10 - 1) as usize;
        let i99 = ((sz as u128) * 99 / 100 - 1) as usize;
        p50.push(sorted[i50]);
        p90.push(sorted[i90]);
        p99.push(sorted[i99]);
        proof {
            let pc = window_pcts(s@.subrange(ws[k], wend(s@, ws[k], ws[k] + 1)));
            assert(p50@[k] == pc.0 && p90@[k] == pc.1 && p99@[k] == pc.2);
            assert(forall|m: int|
                0 <= m < window_starts(s@, e as int).len() ==> #[trigger] window_starts(
                    s@,
                    e as int,
                )[m] == window_starts(s@, b as int)[m + 1]);
        }
        b = e;
    }
    proof {
        assert(window_starts(s@, b as int) =~= Seq::<int>::empty());
        assert(p50@.len() == ws.len());
    }
    Ok(TimelineSeries { p50, p90, p99 })
}

} // verus!
