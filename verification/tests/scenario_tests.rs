// End-to-end scenarios driven on a simulated clock: rate 100/s,
// 1000 requests, every cost 50 ms. With ten workers the service
// capacity (10 workers / 50 ms = 200/s) exceeds the arrival rate, so
// queueing overhead stays at zero; the async run has no worker bound
// at all. Either way the run takes ten simulated seconds and every
// record succeeds.

use loadmodel::config::{cost_at, ModelConfig};
use loadmodel::executor::{AsyncModel, SyncModel};
use loadmodel::rate::rate_limiter_config;
use loadmodel::record::{Task, TaskStats};
use loadmodel::sorting::sort_by_start;
use loadmodel::stats::{
    bucket_bounds, interior_counts, overhead_percentiles, process_stats, sum_counts,
    timeline_of_sorted,
};

fn check_aggregates(records: Vec<TaskStats>, num_req: usize) {
    assert_eq!(records.len(), num_req);
    assert!(records.iter().all(|r| r.success)); // 50 < 1000
    assert!(records.iter().all(|r| r.overhead_ms == 0));

    let (lat, buckets) = process_stats(&records, 0);
    assert_eq!(lat.len(), num_req);
    let (lo, hi) = bucket_bounds(&lat, 0).unwrap();
    assert_eq!((lo, hi), (0, 10));
    // steady state: one hundred completions in every interior second
    let counts = interior_counts(&buckets, lo, hi);
    assert_eq!(counts.len(), 9);
    assert!(counts.iter().all(|&c| c == 100));
    assert_eq!(sum_counts(&counts), 900);

    let curve = overhead_percentiles(&lat).unwrap();
    assert!(curve.iter().all(|&v| v == 0));

    let sorted = sort_by_start(lat);
    let t = timeline_of_sorted(&sorted).unwrap();
    assert_eq!(t.p50.len(), 10);
    assert!(t.p50.iter().all(|&v| v == 0));
    assert!(t.p90.iter().all(|&v| v == 0));
    assert!(t.p99.iter().all(|&v| v == 0));
}

#[test]
fn sync_scenario_rate_100_stays_unqueued() {
    let num_req: usize = 1000;
    let n_workers: usize = 10;
    let rl = rate_limiter_config(100);
    // one admission per granted token: 1 token per 10 ms
    assert_eq!((rl.interval_ms, rl.refill), (10, 1));
    let latency = ModelConfig::parse_latency_item("50*1000").unwrap();
    assert_eq!(latency.len(), num_req);

    let mut m = SyncModel::new(n_workers, num_req);
    // each worker is free again 50 ms after it starts, well before its
    // next arrival 100 ms later, so every request starts on admission
    let mut worker_free = [0u64; 10];
    let mut pending: Vec<u64> = Vec::new(); // completion time per running slot
    for i in 0..num_req {
        let admit_at = (i as u64) * rl.interval_ms / (rl.refill);
        let cost = cost_at(&latency, i);
        m.submit(Task { start_ms: admit_at, cost_ms: cost });
        let w = i % n_workers;
        assert!(worker_free[w] <= admit_at); // capacity exceeds arrival
        m.worker_take();
        pending.push(admit_at + cost);
        worker_free[w] = admit_at + cost;
        if m.running.len() == n_workers {
            let done = pending.remove(0);
            m.worker_finish(0, done);
        }
    }
    m.begin_drain();
    while !pending.is_empty() {
        let done = pending.remove(0);
        m.worker_finish(0, done);
    }
    m.join();
    check_aggregates(m.records, num_req);
}

#[test]
fn async_scenario_rate_100_runs_without_bound() {
    let num_req: usize = 1000;
    let rl = rate_limiter_config(100);
    let latency = ModelConfig::parse_latency_item("50*1000").unwrap();

    let mut m = AsyncModel::new(num_req);
    let mut done_at: Vec<u64> = Vec::new();
    for i in 0..num_req {
        let admit_at = (i as u64) * rl.interval_ms / rl.refill;
        let cost = cost_at(&latency, i);
        m.submit(Task { start_ms: admit_at, cost_ms: cost });
        done_at.push(admit_at + cost);
    }
    m.begin_drain();
    // the units are awaited in admission order
    for d in done_at {
        m.finish(0, d);
    }
    m.join();
    check_aggregates(m.records, num_req);
}
