//! Sorting, as the aggregation needs it: overhead values ascending
//! for the percentile curve, and records by admission time for the
//! timeline. Each sort returns a sorted rearrangement of its input —
//! same elements, same multiplicities.

use vstd::multiset::Multiset;
use vstd::prelude::*;

use crate::record::TaskStats;

verus! {

broadcast use vstd::seq_lib::group_to_multiset_ensures;

/// Ascending order on overhead values.
pub open spec fn sorted_u64(s: Seq<u64>) -> bool {
    forall|i: int, j: int| 0 <= i < j < s.len() ==> s[i] <= s[j]
}

/// Records in admission order: `start_ms` never decreases.
pub open spec fn sorted_by_start(s: Seq<TaskStats>) -> bool {
    forall|i: int, j: int| 0 <= i < j < s.len() ==> s[i].start_ms <= s[j].start_ms
}

/// The position of a least element of `v`.
fn min_index_u64(v: &Vec<u64>) -> (m: usize)
    requires
        v@.len() > 0,
    ensures
        m < v@.len(),
        forall|j: int| 0 <= j < v@.len() ==> v@[m as int] <= v@[j],
{
    let mut m: usize = 0;
    let mut i: usize = 1;
    while i < v.len()
        invariant
            m < i <= v@.len(),
            forall|j: int| 0 <= j < i ==> v@[m as int] <= v@[j],
        decreases v@.len() - i,
    {
        if v[i] < v[m] {
            m = i;
        }
        i = i + 1;
    }
    m
}

/// Sorts overhead values ascending. The result is a rearrangement of
/// the input: the two hold the same values the same number of times.
pub fn sort_u64(v: Vec<u64>) -> (r: Vec<u64>)
    ensures
        r@.len() == v@.len(),
        sorted_u64(r@),
        r@.to_multiset() == v@.to_multiset(),
{
    let mut rest = v;
    let mut out: Vec<u64> = Vec::new();
    proof {
        assert(out@.to_multiset().add(rest@.to_multiset()) =~= v@.to_multiset());
    }
    while rest.len() > 0
        invariant
            out@.len() + rest@.len() == v@.len(),
            sorted_u64(out@),
            out@.to_multiset().add(rest@.to_multiset()) == v@.to_multiset(),
            forall|i: int, j: int|
                0 <= i < out@.len() && 0 <= j < rest@.len() ==> out@[i] <= rest@[j],
        decreases rest@.len(),
    {
        let ghost old_out = out@;
        let ghost old_rest = rest@;
        let m = min_index_u64(&rest);
        let x = rest.remove(m);
        out.push(x);
        proof {
            assert(out@.to_multiset().add(rest@.to_multiset()) =~= v@.to_multiset()) by {
                assert(out@.to_multiset() =~= old_out.to_multiset().insert(x));
                assert(rest@.to_multiset() =~= old_rest.to_multiset().remove(x));
                assert(old_rest.to_multiset().contains(x));
                assert(out@.to_multiset().add(rest@.to_multiset()) =~= old_out.to_multiset().add(
                    old_rest.to_multiset(),
                ));
            }
            assert forall|i: int, j: int|
                0 <= i < out@.len() && 0 <= j < rest@.len() implies out@[i] <= rest@[j] by {
                assert(rest@[j] == if j < m {
                    old_rest[j]
                } else {
                    old_rest[j + 1]
                });
            }
        }
    }
    proof {
        assert(rest@.to_multiset() =~= Multiset::<u64>::empty());
        assert(out@.to_multiset().add(Multiset::<u64>::empty()) =~= out@.to_multiset());
    }
    out
}

/// The position of a record with the least admission time in `v`.
fn min_index_by_start(v: &Vec<TaskStats>) -> (m: usize)
    requires
        v@.len() > 0,
    ensures
        m < v@.len(),
        forall|j: int| 0 <= j < v@.len() ==> v@[m as int].start_ms <= v@[j].start_ms,
{
    let mut m: usize = 0;
    let mut i: usize = 1;
    while i < v.len()
        invariant
            m < i <= v@.len(),
            forall|j: int| 0 <= j < i ==> v@[m as int].start_ms <= v@[j].start_ms,
        decreases v@.len() - i,
    {
        if v[i].start_ms < v[m].start_ms {
            m = i;
        }
        i = i + 1;
    }
    m
}

/// Sorts completion records into admission order. The result is a
/// rearrangement of the input: the two hold the same records the same
/// number of times.
pub fn sort_by_start(v: Vec<TaskStats>) -> (r: Vec<TaskStats>)
    ensures
        r@.len() == v@.len(),
        sorted_by_start(r@),
        r@.to_multiset() == v@.to_multiset(),
{
    let mut rest = v;
    let mut out: Vec<TaskStats> = Vec::new();
    proof {
        assert(out@.to_multiset().add(rest@.to_multiset()) =~= v@.to_multiset());
    }
    while rest.len() > 0
        invariant
            out@.len() + rest@.len() == v@.len(),
            sorted_by_start(out@),
            out@.to_multiset().add(rest@.to_multiset()) == v@.to_multiset(),
            forall|i: int, j: int|
                0 <= i < out@.len() && 0 <= j < rest@.len() ==> out@[i].start_ms
                    <= rest@[j].start_ms,
        decreases rest@.len(),
    {
        let ghost old_out = out@;
        let ghost old_rest = rest@;
        let m = min_index_by_start(&rest);
        let x = rest.remove(m);
        out.push(x);
        proof {
            assert(out@.to_multiset().add(rest@.to_multiset()) =~= v@.to_multiset()) by {
                assert(out@.to_multiset() =~= old_out.to_multiset().insert(x));
                assert(rest@.to_multiset() =~= old_rest.to_multiset().remove(x));
                assert(old_rest.to_multiset().contains(x));
                assert(out@.to_multiset().add(rest@.to_multiset()) =~= old_out.to_multiset().add(
                    old_rest.to_multiset(),
                ));
            }
            assert forall|i: int, j: int|
                0 <= i < out@.len() && 0 <= j < rest@.len() implies out@[i].start_ms
                <= rest@[j].start_ms by {
                assert(rest@[j] == if j < m {
                    old_rest[j]
                } else {
                    old_rest[j + 1]
                });
            }
        }
    }
    proof {
        assert(rest@.to_multiset() =~= Multiset::<TaskStats>::empty());
        assert(out@.to_multiset().add(Multiset::<TaskStats>::empty()) =~= out@.to_multiset());
    }
    out
}

} // verus!
