use bencher::driver::{
    absorb_driver, can_absorb, generator_args, is_valid_workload, push_decimal, ycsb_bin, ycsb_profile,
    RESP_TIMEOUT_SECS, YCSB_TIMEOUT_SECS,
};
use bencher::error::RunnerError;
use bencher::keys::KeySet;
use bencher::order::{str_equal, str_less};
use bencher::stats::Stats;

fn key_set(keys: &[&str]) -> KeySet {
    let mut set = KeySet::new();
    for k in keys {
        set.insert(k.to_string());
    }
    set
}

#[test]
fn profile_of_each_workload() {
    assert_eq!(ycsb_profile('a'), "ycsb/workloads/workloada");
    assert_eq!(ycsb_profile('b'), "ycsb/workloads/workloadb");
    assert_eq!(ycsb_profile('c'), "ycsb/workloads/workloadc");
    assert_eq!(ycsb_profile('d'), "ycsb/workloads/workloadd");
    assert_eq!(ycsb_profile('e'), "ycsb/workloads/workloade");
    assert_eq!(ycsb_profile('f'), "ycsb/workloads/workloadf");
    assert_eq!(ycsb_bin(), "ycsb/bin/ycsb.sh");
}

#[test]
fn workload_letters_are_a_to_f() {
    for c in ['a', 'b', 'c', 'd', 'e', 'f'] {
        assert!(is_valid_workload(c));
    }
    for c in ['g', 'A', '0', ' ', 'z', '`'] {
        assert!(!is_valid_workload(c));
    }
}

#[test]
fn generator_arguments_of_both_phases() {
    assert_eq!(
        generator_args('a', 10000, true),
        vec!["load", "basic", "-P", "ycsb/workloads/workloada", "-p", "operationcount=10000"]
    );
    assert_eq!(
        generator_args('e', 0, false),
        vec!["run", "basic", "-P", "ycsb/workloads/workloade", "-p", "operationcount=0"]
    );
}

#[test]
fn decimal_is_written_as_the_standard_library_writes_it() {
    for n in [0usize, 1, 9, 10, 11, 99, 100, 101, 12345, 1_000_000, usize::MAX, usize::MAX - 1] {
        let mut s = String::from("n=");
        push_decimal(&mut s, n);
        assert_eq!(s, format!("n={}", n));
    }
}

#[test]
fn timeouts_are_one_and_ten_minutes() {
    assert_eq!(RESP_TIMEOUT_SECS, 60);
    assert_eq!(YCSB_TIMEOUT_SECS, 600);
}

#[test]
fn phase_totals_take_each_driver() {
    let mut stats = Stats::new();
    let mut keys = KeySet::new();
    let mut first = Stats::new();
    first.record_op("INSERT", 4);
    first.record_op("INSERT", 6);
    first.close(50);
    let mut second = Stats::new();
    second.record_op("INSERT", 9);
    second.close(20);
    let a = Some((first, key_set(&["u_2", "u_1"])));
    let b = Some((second, key_set(&["u_3", "u_1"])));
    assert!(can_absorb(&stats, &a));
    assert_eq!(absorb_driver(&mut stats, &mut keys, a), Ok(()));
    assert!(can_absorb(&stats, &b));
    assert_eq!(absorb_driver(&mut stats, &mut keys, b), Ok(()));
    assert_eq!(stats.merged(), 2);
    assert_eq!(stats.total_us(), 50);
    assert_eq!(stats.samples("INSERT"), vec![4, 6, 9]);
    assert_eq!(keys.to_vec(), vec!["u_1".to_string(), "u_2".to_string(), "u_3".to_string()]);
}

#[test]
fn failed_driver_fails_the_phase() {
    let mut stats = Stats::new();
    let mut keys = key_set(&["u_1"]);
    assert!(can_absorb(&stats, &None));
    assert_eq!(
        absorb_driver(&mut stats, &mut keys, None),
        Err(RunnerError::Io("a YCSB driver process failed".to_string()))
    );
    assert_eq!(stats.merged(), 0);
    assert_eq!(keys.len(), 1);
}

#[test]
fn key_set_is_ordered_and_holds_each_key_once() {
    let mut set = KeySet::new();
    assert!(set.is_empty());
    assert!(set.insert("user3_field9".to_string()));
    assert!(set.insert("user1_field3".to_string()));
    assert!(!set.insert("user3_field9".to_string()));
    assert!(set.insert("user10_field0".to_string()));
    assert!(set.insert("".to_string()));
    assert_eq!(set.len(), 4);
    assert_eq!(set.to_vec(), vec!["", "user10_field0", "user1_field3", "user3_field9"]);
    assert!(set.contains("user1_field3"));
    assert!(!set.contains("user1_field"));
    assert_eq!(set.rank("user1"), 1);
    assert_eq!(set.rank("user10_field0"), 1);
    assert_eq!(set.rank("user2"), 3);
    assert_eq!(set.rank("zzzzzzzz"), 4);
    assert_eq!(set.get(2), "user1_field3");
    assert_eq!(set.last(), Some(&"user3_field9".to_string()));
    assert_eq!(set.nth_from("user1", 0), Some(&"user10_field0".to_string()));
    assert_eq!(set.nth_from("user1", 2), Some(&"user3_field9".to_string()));
    assert_eq!(set.nth_from("user1", 3), None);
    assert_eq!(set.nth_from("user1", usize::MAX), None);
    assert_eq!(set.nth_from("zz", 0), None);
    assert_eq!(set.nth_from("", 0), Some(&"".to_string()));
    assert_eq!(KeySet::new().last(), None);
    assert_eq!(KeySet::new().nth_from("a", 0), None);
    let copy = set.clone();
    assert_eq!(copy.to_vec(), set.to_vec());
}

#[test]
fn key_sets_are_united() {
    let mut a = key_set(&["b", "d", "f"]);
    a.extend(&key_set(&["a", "b", "c", "g", "h"]));
    assert_eq!(a.to_vec(), vec!["a", "b", "c", "d", "f", "g", "h"]);
    a.extend(&KeySet::new());
    assert_eq!(a.len(), 7);
    let mut e = KeySet::new();
    e.extend(&a);
    assert_eq!(e.to_vec(), a.to_vec());
}

#[test]
fn strings_are_ordered_as_the_standard_library_orders_them() {
    let words = ["", "a", "ab", "b", "B", "user1", "user10", "user2", "é", "日本", "z", "zz", "\u{10348}", "~"];
    for x in words {
        for y in words {
            assert_eq!(str_less(x, y), x < y, "{:?} < {:?}", x, y);
            assert_eq!(str_equal(x, y), x == y, "{:?} == {:?}", x, y);
        }
    }
    let mut sorted: Vec<String> = words.iter().map(|w| w.to_string()).collect();
    sorted.sort();
    let set = key_set(&words);
    assert_eq!(set.to_vec(), sorted);
    for probe in words.iter().chain(["c", "user", "zzz"].iter()) {
        let want = sorted.iter().filter(|k| k.as_str() < *probe).count();
        assert_eq!(set.rank(probe), want);
    }
}
