use loadmodel::record::{make_stats, Task};
use loadmodel::sorting::{sort_by_start, sort_u64};
use loadmodel::stats::{
    bucket_bounds, interior_counts, overhead_percentiles, percentile_curve, percentile_index,
    process_stats, sum_counts, timeline_of_sorted, StatsError,
};

#[test]
fn percentile_index_formula() {
    // max(0, floor(p/10000 * n) - 1)
    assert_eq!(percentile_index(0, 5), 0);
    assert_eq!(percentile_index(2000, 5), 0);
    assert_eq!(percentile_index(5000, 5), 1);
    assert_eq!(percentile_index(9999, 5), 3);
    assert_eq!(percentile_index(10000, 5), 4);
    // in range for every n >= 1 at both ends
    for n in 1..50 {
        assert!(percentile_index(0, n) < n);
        assert!(percentile_index(10000, n) < n);
    }
}

#[test]
fn percentile_curve_reads_sorted_values() {
    let sorted = vec![1u64, 2, 3, 4, 5];
    let curve = percentile_curve(&sorted);
    assert_eq!(curve.len(), 10001);
    assert_eq!(curve[0], 1);
    assert_eq!(curve[2000], 1);
    assert_eq!(curve[5000], 2);
    assert_eq!(curve[9999], 4);
    assert_eq!(curve[10000], 5);
}

#[test]
fn overhead_percentiles_sorts_first() {
    // records with overheads 7, 1, 4: the curve reads them ascending
    let recs = vec![
        make_stats(Task { start_ms: 0, cost_ms: 10 }, 17),
        make_stats(Task { start_ms: 0, cost_ms: 10 }, 11),
        make_stats(Task { start_ms: 0, cost_ms: 10 }, 14),
    ];
    let curve = overhead_percentiles(&recs).unwrap();
    assert_eq!(curve[0], 1);
    assert_eq!(curve[10000], 7);
    assert_eq!(curve[5000], 1);
    assert_eq!(curve[9000], 4);
}

#[test]
fn overhead_percentiles_without_data() {
    assert_eq!(overhead_percentiles(&vec![]), Err(StatsError::NoData));
}

#[test]
fn sorting_orders_and_keeps_elements() {
    let sorted = sort_u64(vec![5, 1, 4, 1, 3]);
    assert_eq!(sorted, vec![1, 1, 3, 4, 5]);
    let recs = vec![
        make_stats(Task { start_ms: 30, cost_ms: 1 }, 31),
        make_stats(Task { start_ms: 10, cost_ms: 1 }, 11),
        make_stats(Task { start_ms: 20, cost_ms: 1 }, 21),
    ];
    let by_start = sort_by_start(recs);
    let starts: Vec<u64> = by_start.iter().map(|r| r.start_ms).collect();
    assert_eq!(starts, vec![10, 20, 30]);
}

#[test]
fn process_stats_filters_and_buckets() {
    let recs = vec![
        make_stats(Task { start_ms: 0, cost_ms: 50 }, 100),
        make_stats(Task { start_ms: 0, cost_ms: 50 }, 500),
        make_stats(Task { start_ms: 0, cost_ms: 50 }, 900),
        make_stats(Task { start_ms: 0, cost_ms: 1500 }, 1600), // failed: cost >= 1000
        make_stats(Task { start_ms: 0, cost_ms: 50 }, 2200),
        make_stats(Task { start_ms: 0, cost_ms: 50 }, 2800),
        make_stats(Task { start_ms: 0, cost_ms: 50 }, 3100),
    ];
    let (lat, buckets) = process_stats(&recs, 0);
    assert_eq!(lat.len(), 6);
    assert!(lat.iter().all(|r| r.success));
    assert_eq!(buckets.get(&0), Some(&3));
    assert_eq!(buckets.get(&1), None); // the failed record does not count
    assert_eq!(buckets.get(&2), Some(&2));
    assert_eq!(buckets.get(&3), Some(&1));

    let (lo, hi) = bucket_bounds(&lat, 0).unwrap();
    assert_eq!((lo, hi), (0, 3));
    // interior seconds 1 and 2, first and last excluded
    let counts = interior_counts(&buckets, lo, hi);
    assert_eq!(counts, vec![0, 2]);
    assert_eq!(sum_counts(&counts), 2);
}

#[test]
fn bucket_bounds_without_data() {
    assert_eq!(bucket_bounds(&vec![], 0), None);
}

#[test]
fn interior_counts_of_narrow_span_are_empty() {
    let recs = vec![make_stats(Task { start_ms: 0, cost_ms: 50 }, 100)];
    let (lat, buckets) = process_stats(&recs, 0);
    let (lo, hi) = bucket_bounds(&lat, 0).unwrap();
    assert_eq!((lo, hi), (0, 0));
    assert_eq!(interior_counts(&buckets, lo, hi), Vec::<u64>::new());
}

#[test]
fn timeline_windows_and_percentiles() {
    // two windows: starts 0,100,900 and 1500,1600; overheads chosen by
    // completion = start + cost + overhead with cost 0
    let recs = vec![
        make_stats(Task { start_ms: 0, cost_ms: 0 }, 5),     // overhead 5
        make_stats(Task { start_ms: 100, cost_ms: 0 }, 103), // overhead 3
        make_stats(Task { start_ms: 900, cost_ms: 0 }, 907), // overhead 7
        make_stats(Task { start_ms: 1500, cost_ms: 0 }, 1510), // overhead 10
        make_stats(Task { start_ms: 1600, cost_ms: 0 }, 1602), // overhead 2
    ];
    let sorted = sort_by_start(recs);
    let t = timeline_of_sorted(&sorted).unwrap();
    // window one sorted overheads [3,5,7]: p50 at 3/2-1=0, p90 at 27/10-1=1, p99 at 297/100-1=1
    // window two sorted overheads [2,10]: all three at index 0
    assert_eq!(t.p50, vec![3, 2]);
    assert_eq!(t.p90, vec![5, 2]);
    assert_eq!(t.p99, vec![5, 2]);
}

#[test]
fn timeline_rejects_single_record_window() {
    let recs = vec![
        make_stats(Task { start_ms: 0, cost_ms: 0 }, 1),
        make_stats(Task { start_ms: 10, cost_ms: 0 }, 12),
        make_stats(Task { start_ms: 5000, cost_ms: 0 }, 5001),
    ];
    let sorted = sort_by_start(recs);
    assert_eq!(timeline_of_sorted(&sorted), Err(StatsError::SmallWindow));
}

#[test]
fn timeline_without_data() {
    assert_eq!(timeline_of_sorted(&vec![]), Err(StatsError::NoData));
}
