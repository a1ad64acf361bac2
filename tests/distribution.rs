use ballista_scheduler::config::TaskDistributionPolicy;
use ballista_scheduler::distribution::{assign, Assignment, PendingTask, Placement};
use ballista_scheduler::ring::{hash_str, ConsistentHashRing};

fn plain_tasks(n: usize) -> Vec<PendingTask> {
    (0..n).map(|i| PendingTask { task_id: i, scan_key: None }).collect()
}

fn ids(names: &[&str]) -> Vec<String> {
    names.iter().map(|s| s.to_string()).collect()
}

fn per_executor(a: &[Assignment], m: usize) -> Vec<usize> {
    let mut counts = vec![0; m];
    for x in a {
        counts[x.executor] += 1;
    }
    counts
}

fn assigned(p: Placement) -> Vec<Assignment> {
    match p {
        Placement::Assigned(a) => a,
        Placement::NoCapacity => panic!("expected an assignment"),
    }
}

#[test]
fn round_robin_spreads_in_executor_order() {
    let mut slots = vec![2, 2, 2];
    let a = assigned(assign(
        &plain_tasks(5),
        &ids(&["e1", "e2", "e3"]),
        &mut slots,
        TaskDistributionPolicy::RoundRobin,
    ));
    assert_eq!(per_executor(&a, 3), vec![2, 2, 1]);
    assert_eq!(slots, vec![0, 0, 1]);
    let order: Vec<usize> = a.iter().map(|x| x.executor).collect();
    assert_eq!(order, vec![0, 1, 2, 0, 1]);
}

#[test]
fn bias_fills_the_largest_executor_first() {
    let mut slots = vec![4, 1];
    let a = assigned(assign(
        &plain_tasks(3),
        &ids(&["e1", "e2"]),
        &mut slots,
        TaskDistributionPolicy::Bias,
    ));
    assert_eq!(per_executor(&a, 2), vec![3, 0]);
    assert_eq!(slots, vec![1, 1]);
}

#[test]
fn bias_moves_on_when_the_largest_is_full() {
    let mut slots = vec![1, 3, 2];
    let a = assigned(assign(
        &plain_tasks(5),
        &ids(&["e1", "e2", "e3"]),
        &mut slots,
        TaskDistributionPolicy::Bias,
    ));
    let order: Vec<usize> = a.iter().map(|x| x.executor).collect();
    assert_eq!(order, vec![1, 1, 1, 2, 2]);
    assert_eq!(slots, vec![1, 0, 0]);
}

#[test]
fn no_capacity_when_every_slot_is_taken() {
    let mut slots = vec![0, 0];
    let p = assign(&plain_tasks(2), &ids(&["e1", "e2"]), &mut slots, TaskDistributionPolicy::Bias);
    assert!(matches!(p, Placement::NoCapacity));
    assert_eq!(slots, vec![0, 0]);
}

#[test]
fn no_executor_means_no_capacity() {
    let mut slots: Vec<usize> = vec![];
    let p = assign(&plain_tasks(1), &vec![], &mut slots, TaskDistributionPolicy::RoundRobin);
    assert!(matches!(p, Placement::NoCapacity));
}

#[test]
fn empty_backlog_assigns_nothing() {
    let mut slots = vec![0];
    let a = assigned(assign(&plain_tasks(0), &ids(&["e1"]), &mut slots, TaskDistributionPolicy::Bias));
    assert!(a.is_empty());
}

#[test]
fn more_tasks_than_slots_fills_every_slot_once() {
    let mut slots = vec![1, 2];
    let a = assigned(assign(
        &plain_tasks(10),
        &ids(&["e1", "e2"]),
        &mut slots,
        TaskDistributionPolicy::RoundRobin,
    ));
    assert_eq!(a.len(), 3);
    assert_eq!(per_executor(&a, 2), vec![1, 2]);
    let mut tasks: Vec<usize> = a.iter().map(|x| x.task).collect();
    tasks.sort();
    tasks.dedup();
    assert_eq!(tasks.len(), 3);
}

#[test]
fn capacity_holds_over_two_passes() {
    let mut slots = vec![2, 1];
    let names = ids(&["e1", "e2"]);
    let a1 = assigned(assign(&plain_tasks(2), &names, &mut slots, TaskDistributionPolicy::RoundRobin));
    let a2 = assigned(assign(&plain_tasks(5), &names, &mut slots, TaskDistributionPolicy::Bias));
    let mut total = per_executor(&a1, 2);
    for (i, c) in per_executor(&a2, 2).into_iter().enumerate() {
        total[i] += c;
    }
    assert_eq!(total, vec![2, 1]);
    assert_eq!(slots, vec![0, 0]);
}

/// A scan key whose owner on the ring of `names` is executor 0 and whose
/// next replica clockwise belongs to executor 1.
fn key_owned_by_first_then_second(ring: &ConsistentHashRing) -> String {
    for i in 0..10000 {
        let key = format!("s3://bucket/part-{i}.parquet");
        let h = hash_str(&key);
        if ring.lookup(h) == Some(0) && ring.get_with_tolerance(h, &vec![0, 1], 1) == Some(1) {
            return key;
        }
    }
    panic!("no such key");
}

#[test]
fn consistent_hash_steals_to_the_next_replica() {
    let names = ids(&["e1", "e2"]);
    let ring = ConsistentHashRing::new(&names, 3);
    assert_eq!(ring.len(), 6);
    let key = key_owned_by_first_then_second(&ring);
    let h = hash_str(&key);
    assert_eq!(ring.get_with_tolerance(h, &vec![0, 1], 0), None);
    let tasks = vec![PendingTask { task_id: 9, scan_key: Some(key) }];
    let mut slots = vec![0, 1];
    let a = assigned(assign(
        &tasks,
        &names,
        &mut slots,
        TaskDistributionPolicy::ConsistentHash { num_replicas: 3, tolerance: 1 },
    ));
    assert_eq!(a, vec![Assignment { task: 0, executor: 1 }]);
    assert_eq!(slots, vec![0, 0]);
}

#[test]
fn consistent_hash_keeps_locality_when_the_owner_has_room() {
    let names = ids(&["e1", "e2", "e3"]);
    let ring = ConsistentHashRing::new(&names, 4);
    let key = "hdfs://warehouse/t/part-0".to_string();
    let owner = ring.lookup(hash_str(&key)).unwrap();
    for _ in 0..3 {
        let tasks = vec![PendingTask { task_id: 1, scan_key: Some(key.clone()) }];
        let mut slots = vec![1, 1, 1];
        let a = assigned(assign(
            &tasks,
            &names,
            &mut slots,
            TaskDistributionPolicy::ConsistentHash { num_replicas: 4, tolerance: 2 },
        ));
        assert_eq!(a, vec![Assignment { task: 0, executor: owner }]);
    }
}

#[test]
fn consistent_hash_sends_unscanned_tasks_round_robin() {
    let names = ids(&["e1", "e2"]);
    let mut slots = vec![1, 1];
    let a = assigned(assign(
        &plain_tasks(2),
        &names,
        &mut slots,
        TaskDistributionPolicy::ConsistentHash { num_replicas: 2, tolerance: 0 },
    ));
    assert_eq!(per_executor(&a, 2), vec![1, 1]);
}

#[test]
fn ring_lookup_is_repeatable() {
    let names = ids(&["a", "b", "c"]);
    let ring = ConsistentHashRing::new(&names, 5);
    let again = ConsistentHashRing::new(&names, 5);
    for k in 0..50u64 {
        let h = k.wrapping_mul(0x9e37_79b9_7f4a_7c15);
        assert_eq!(ring.lookup(h), ring.lookup(h));
        assert_eq!(ring.lookup(h), again.lookup(h));
    }
    assert_eq!(ConsistentHashRing::new(&vec![], 5).lookup(7), None);
}

#[test]
fn fnv_hash_known_values() {
    assert_eq!(hash_str(""), 0xcbf2_9ce4_8422_2325);
    assert_eq!(hash_str("a"), 0xaf63_dc4c_8601_ec8c);
    assert_eq!(hash_str("foobar"), 0x8594_4171_f739_67e8);
}
