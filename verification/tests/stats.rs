use bencher::sort::sorted_copy;
use bencher::stats::{LatencyStats, Stats};

fn driver_stats(samples: &[(&str, u64)], span_us: u64) -> Stats {
    let mut stats = Stats::new();
    for (op, lat) in samples {
        assert!(stats.has_room());
        stats.record_op(op, *lat);
    }
    stats.close(span_us);
    stats
}

fn merged_in_order(order: &[usize]) -> Stats {
    let inputs: Vec<(Vec<(&str, u64)>, u64)> = vec![
        (vec![("READ", 30), ("UPDATE", 7), ("READ", 10)], 1_500),
        (vec![("INSERT", 5), ("READ", 20)], 4_000),
        (vec![("SCAN", 90), ("UPDATE", 3), ("UPDATE", 8)], 2_500),
    ];
    let mut total = Stats::new();
    for i in order {
        let (samples, span) = &inputs[*i];
        let next = driver_stats(samples, *span);
        assert!(total.can_merge(&next));
        total.merge(next);
    }
    total
}

fn sorted_samples(stats: &Stats, op: &str) -> Vec<u64> {
    let mut v = stats.samples(op);
    v.sort();
    v
}

#[test]
fn new_stats_hold_nothing() {
    let stats = Stats::new();
    assert_eq!(stats.merged(), 0);
    assert_eq!(stats.total_us(), 0);
    assert_eq!(stats.total_ops(), 0);
    assert!(stats.labels().is_empty());
    assert!(stats.samples("READ").is_empty());
}

#[test]
fn record_appends_under_the_label() {
    let mut stats = Stats::new();
    stats.record_op("READ", 40);
    stats.record_op("INSERT", 12);
    stats.record_op("READ", 8);
    stats.record_op("READ", 40);
    assert_eq!(stats.samples("READ"), vec![40, 8, 40]);
    assert_eq!(stats.samples("INSERT"), vec![12]);
    assert_eq!(stats.samples("SCAN"), Vec::<u64>::new());
    assert_eq!(stats.labels(), vec!["INSERT".to_string(), "READ".to_string()]);
    assert_eq!(stats.total_ops(), 4);
    assert_eq!(stats.merged(), 0);
    assert_eq!(stats.total_us(), 0);
}

#[test]
fn close_marks_one_driver() {
    let stats = driver_stats(&[("READ", 1), ("READ", 2)], 777);
    assert_eq!(stats.merged(), 1);
    assert_eq!(stats.total_us(), 777);
    assert_eq!(stats.samples("READ"), vec![1, 2]);
}

#[test]
fn latency_stats_of_nothing_is_none() {
    assert_eq!(Stats::latency_stats(&[]), None);
}

#[test]
fn latency_stats_of_one_sample() {
    assert_eq!(
        Stats::latency_stats(&[42]),
        Some(LatencyStats { count: 1, sum: 42, min: 42, max: 42, p99: 42 })
    );
}

#[test]
fn latency_stats_of_unsorted_samples() {
    let got = Stats::latency_stats(&[30, 10, 50, 20, 40]).unwrap();
    assert_eq!(got, LatencyStats { count: 5, sum: 150, min: 10, max: 50, p99: 50 });
    assert_eq!(got.mean_hundredths(), 3000);
}

#[test]
fn p99_of_a_hundred_samples_is_the_99th_smallest() {
    let samples: Vec<u64> = (1..=100).collect();
    let got = Stats::latency_stats(&samples).unwrap();
    assert_eq!(got.p99, 99);
    assert_eq!(got.min, 1);
    assert_eq!(got.max, 100);
    assert_eq!(got.sum, 5050);
    assert_eq!(got.count, 100);
    assert_eq!(got.mean_hundredths(), 5050);
    let reversed: Vec<u64> = (1..=100).rev().collect();
    assert_eq!(Stats::latency_stats(&reversed), Some(got));
}

#[test]
fn p99_rank_is_rounded_up() {
    let samples: Vec<u64> = (1..=101).collect();
    assert_eq!(Stats::latency_stats(&samples).unwrap().p99, 100);
    let samples: Vec<u64> = (1..=200).collect();
    assert_eq!(Stats::latency_stats(&samples).unwrap().p99, 198);
    let samples: Vec<u64> = (1..=2).collect();
    assert_eq!(Stats::latency_stats(&samples).unwrap().p99, 2);
    let samples: Vec<u64> = (1..=1000).collect();
    assert_eq!(Stats::latency_stats(&samples).unwrap().p99, 990);
}

#[test]
fn mean_is_rounded_down_to_hundredths() {
    let got = Stats::latency_stats(&[1, 1, 2]).unwrap();
    assert_eq!(got.sum, 4);
    assert_eq!(got.mean_hundredths(), 133);
    let big = Stats::latency_stats(&[u64::MAX, u64::MAX]).unwrap();
    assert_eq!(big.sum, 2 * (u64::MAX as u128));
    assert_eq!(big.mean_hundredths(), (u64::MAX as u128) * 100);
}

#[test]
fn sorted_copy_orders_and_keeps_every_sample() {
    let v = vec![5u64, 3, 9, 3, 0, u64::MAX, 7, 7, 1];
    let mut want = v.clone();
    want.sort();
    assert_eq!(sorted_copy(&v), want);
    assert_eq!(sorted_copy(&[]), Vec::<u64>::new());
    let mut x: u64 = 12345;
    let mut big = Vec::new();
    for _ in 0..1000 {
        x = x.wrapping_mul(6364136223846793005).wrapping_add(1442695040888963407);
        big.push(x % 97);
    }
    let mut want = big.clone();
    want.sort();
    assert_eq!(sorted_copy(&big), want);
}

#[test]
fn merge_into_empty_takes_the_other() {
    let mut total = Stats::new();
    total.record_op("READ", 99);
    total.merge(driver_stats(&[("UPDATE", 4)], 10));
    assert_eq!(total.merged(), 1);
    assert_eq!(total.total_us(), 10);
    assert_eq!(total.samples("UPDATE"), vec![4]);
    assert_eq!(total.samples("READ"), Vec::<u64>::new());
    assert_eq!(total.total_ops(), 1);
}

#[test]
fn merge_appends_counts_and_keeps_the_longer_duration() {
    let mut total = driver_stats(&[("READ", 30), ("UPDATE", 7), ("READ", 10)], 1_500);
    total.merge(driver_stats(&[("INSERT", 5), ("READ", 20)], 4_000));
    assert_eq!(total.merged(), 2);
    assert_eq!(total.total_us(), 4_000);
    assert_eq!(total.samples("READ"), vec![30, 10, 20]);
    assert_eq!(total.samples("UPDATE"), vec![7]);
    assert_eq!(total.samples("INSERT"), vec![5]);
    assert_eq!(total.labels(), vec!["INSERT".to_string(), "READ".to_string(), "UPDATE".to_string()]);
    assert_eq!(total.total_ops(), 5);
    total.merge(driver_stats(&[("READ", 1)], 100));
    assert_eq!(total.merged(), 3);
    assert_eq!(total.total_us(), 4_000);
    assert_eq!(total.samples("READ"), vec![30, 10, 20, 1]);
}

#[test]
fn merge_gives_the_same_in_any_order() {
    let orders: [[usize; 3]; 6] = [[0, 1, 2], [0, 2, 1], [1, 0, 2], [1, 2, 0], [2, 0, 1], [2, 1, 0]];
    let first = merged_in_order(&orders[0]);
    assert_eq!(first.merged(), 3);
    assert_eq!(first.total_us(), 4_000);
    assert_eq!(first.total_ops(), 8);
    assert_eq!(sorted_samples(&first, "READ"), vec![10, 20, 30]);
    assert_eq!(sorted_samples(&first, "UPDATE"), vec![3, 7, 8]);
    for order in orders.iter() {
        let got = merged_in_order(order);
        assert_eq!(got.merged(), first.merged());
        assert_eq!(got.total_us(), first.total_us());
        assert_eq!(got.labels(), first.labels());
        assert_eq!(got.total_ops(), first.total_ops());
        for op in first.labels() {
            assert_eq!(sorted_samples(&got, &op), sorted_samples(&first, &op));
        }
    }
}

#[test]
fn merge_is_associative() {
    let a = || driver_stats(&[("READ", 30), ("UPDATE", 7)], 1_500);
    let b = || driver_stats(&[("INSERT", 5), ("READ", 20)], 4_000);
    let c = || driver_stats(&[("SCAN", 90), ("READ", 8)], 2_500);
    let mut left = a();
    left.merge(b());
    left.merge(c());
    let mut bc = b();
    bc.merge(c());
    let mut right = a();
    right.merge(bc);
    assert_eq!(left.merged(), right.merged());
    assert_eq!(left.total_us(), right.total_us());
    assert_eq!(left.labels(), right.labels());
    for op in left.labels() {
        assert_eq!(left.samples(&op), right.samples(&op));
    }
    assert_eq!(left.samples("READ"), vec![30, 20, 8]);
}

#[test]
fn can_merge_refuses_counts_that_do_not_fit() {
    let a = driver_stats(&[("READ", 1)], 1);
    let b = driver_stats(&[("READ", 2)], 1);
    assert!(a.can_merge(&b));
    assert!(a.has_room());
}

#[test]
fn report_has_no_throughput_without_a_duration() {
    let mut stats = Stats::new();
    stats.record_op("READ", 40);
    stats.record_op("READ", 60);
    stats.record_op("INSERT", 10);
    let report = stats.report();
    assert_eq!(report.total_us, 0);
    assert_eq!(report.total_ops, 3);
    assert_eq!(report.throughput_x100, 0);
    assert_eq!(report.rows.len(), 2);
}

#[test]
fn report_gives_calls_per_second_and_rows_by_label() {
    let stats = driver_stats(
        &[("UPDATE", 7), ("READ", 30), ("SCAN", 100), ("READ", 10), ("INSERT", 5), ("READ", 20)],
        4_000,
    );
    let report = stats.report();
    assert_eq!(report.total_us, 4_000);
    assert_eq!(report.total_ops, 6);
    // 6 calls in 4 ms are 1500 calls per second
    assert_eq!(report.throughput_x100, 150_000);
    let labels: Vec<&str> = report.rows.iter().map(|r| r.label.as_str()).collect();
    assert_eq!(labels, vec!["INSERT", "READ", "SCAN", "UPDATE"]);
    assert_eq!(report.rows[1].stats, LatencyStats { count: 3, sum: 60, min: 10, max: 30, p99: 30 });
    assert_eq!(report.rows[0].stats, LatencyStats { count: 1, sum: 5, min: 5, max: 5, p99: 5 });
    assert_eq!(report.rows[1].stats.mean_hundredths(), 2000);
}

#[test]
fn report_rounds_throughput_down() {
    let stats = driver_stats(&[("READ", 1)], 3_000_000);
    // one call in three seconds
    assert_eq!(stats.report().throughput_x100, 33);
    let empty = Stats::new().report();
    assert_eq!(empty.total_ops, 0);
    assert_eq!(empty.throughput_x100, 0);
    assert!(empty.rows.is_empty());
}
