use ballista_scheduler::cleanup::CleanupScheduler;
use ballista_scheduler::health::{ExecutorHealthTracker, ExecutorState};
use ballista_scheduler::task_status::{
    as_task_status, ExecutionError, FailureCause, OperatorMetric, OperatorMetricsSet, PartitionId,
    ShuffleWritePartition, Status, StatusError, TaskExecutionTimes, TaskStatusTable,
};

fn s(x: &str) -> String {
    x.to_string()
}

#[test]
fn silent_executor_dies_and_its_tasks_return() {
    let mut t = ExecutorHealthTracker::new();
    t.record_heartbeat(s("e1"), 100, 4);
    assert!(t.reserve(&s("e1"), 7));
    assert!(t.reserve(&s("e1"), 8));
    assert_eq!(t.available_slots(&s("e1")), 2);
    let timeout = 180;
    assert!(t.sweep(100 + timeout, timeout, 0).is_empty());
    assert_eq!(t.executor_state(&s("e1")), Some(ExecutorState::Active));
    let mut back = t.sweep(100 + timeout + 1, timeout, 0);
    back.sort();
    assert_eq!(back, vec![7, 8]);
    assert_eq!(t.executor_state(&s("e1")), Some(ExecutorState::Dead));
    assert_eq!(t.available_slots(&s("e1")), 0);
}

#[test]
fn dead_executor_stays_excluded() {
    let mut t = ExecutorHealthTracker::new();
    t.record_heartbeat(s("e1"), 0, 2);
    t.sweep(10, 5, 0);
    assert_eq!(t.executor_state(&s("e1")), Some(ExecutorState::Dead));
    t.record_heartbeat(s("e1"), 11, 8);
    assert_eq!(t.executor_state(&s("e1")), Some(ExecutorState::Dead));
    assert_eq!(t.available_slots(&s("e1")), 0);
    assert!(!t.reserve(&s("e1"), 1));
    t.record_heartbeat(s("e1-restarted"), 12, 8);
    assert_eq!(t.available_slots(&s("e1-restarted")), 8);
}

#[test]
fn terminating_executor_drains_then_dies() {
    let mut t = ExecutorHealthTracker::new();
    t.record_heartbeat(s("e1"), 0, 3);
    assert!(t.reserve(&s("e1"), 5));
    assert!(t.mark_terminating(&s("e1"), 10));
    assert!(!t.mark_terminating(&s("e1"), 11));
    assert_eq!(t.available_slots(&s("e1")), 0);
    t.record_heartbeat(s("e1"), 12, 3);
    assert_eq!(t.executor_state(&s("e1")), Some(ExecutorState::Terminating));
    assert!(t.sweep(40, 1000, 30).is_empty());
    assert_eq!(t.sweep(41, 1000, 30), vec![5]);
    assert_eq!(t.executor_state(&s("e1")), Some(ExecutorState::Dead));
}

#[test]
fn slots_are_reserved_within_capacity_and_released_once() {
    let mut t = ExecutorHealthTracker::new();
    t.record_heartbeat(s("e1"), 0, 1);
    assert!(t.reserve(&s("e1"), 1));
    assert!(!t.reserve(&s("e1"), 2));
    assert!(t.release(&s("e1"), 1));
    assert!(!t.release(&s("e1"), 1));
    assert_eq!(t.available_slots(&s("e1")), 1);
    assert_eq!(t.available_slots(&s("nobody")), 0);
    assert_eq!(t.executor_state(&s("nobody")), None);
}

fn partition() -> PartitionId {
    PartitionId { job_id: s("job-1"), stage_id: 2, partition_id: 3 }
}

fn times() -> TaskExecutionTimes {
    TaskExecutionTimes { launch_time: 10, start_exec_time: 12, end_exec_time: 20 }
}

#[test]
fn failed_execution_keeps_partial_metrics() {
    let metrics = vec![OperatorMetricsSet {
        metrics: vec![OperatorMetric { name: s("output_rows"), value: 42 }],
    }];
    let st = as_task_status(
        Err(ExecutionError::Internal(s("division by zero"))),
        s("e1"),
        4,
        1,
        partition(),
        Some(metrics),
        times(),
    );
    match &st.status {
        Status::Failed(f) => {
            assert_eq!(f.error, "division by zero");
            assert_eq!(f.cause, FailureCause::TaskInternal);
            assert!(!f.retryable);
        }
        Status::Successful(_) => panic!("expected a failure"),
    }
    assert_eq!(st.metrics.len(), 1);
    assert_eq!(st.metrics[0].metrics[0].value, 42);
    assert!(st.launch_time <= st.start_exec_time && st.start_exec_time <= st.end_exec_time);
    assert_eq!((st.launch_time, st.start_exec_time, st.end_exec_time), (10, 12, 20));
    assert_eq!((st.task_id, st.stage_id, st.stage_attempt_num, st.partition_id), (4, 2, 1, 3));
    assert_eq!(st.job_id, "job-1");
}

#[test]
fn lost_executor_failure_is_retryable() {
    let st = as_task_status(
        Err(ExecutionError::ExecutorLost(s("e1 unreachable"))),
        s("e1"),
        0,
        0,
        partition(),
        None,
        TaskExecutionTimes { launch_time: 0, start_exec_time: 0, end_exec_time: 0 },
    );
    match st.status {
        Status::Failed(f) => {
            assert_eq!(f.cause, FailureCause::ExecutorUnreachable);
            assert!(f.retryable);
        }
        Status::Successful(_) => panic!("expected a failure"),
    }
    assert!(st.metrics.is_empty());
}

#[test]
fn successful_execution_carries_partitions() {
    let parts = vec![ShuffleWritePartition {
        partition_id: 0,
        path: s("/tmp/shuffle/0.arrow"),
        num_batches: 1,
        num_rows: 100,
        num_bytes: 2048,
    }];
    let st = as_task_status(Ok(parts), s("e7"), 5, 0, partition(), None, times());
    match st.status {
        Status::Successful(ok) => {
            assert_eq!(ok.executor_id, "e7");
            assert_eq!(ok.partitions.len(), 1);
            assert_eq!(ok.partitions[0].num_rows, 100);
        }
        Status::Failed(_) => panic!("expected success"),
    }
    assert!(st.metrics.is_empty());
}

#[test]
fn second_terminal_status_is_rejected() {
    let mut table = TaskStatusTable::new();
    let ok = as_task_status(Ok(vec![]), s("e1"), 1, 0, partition(), None, times());
    let fail = as_task_status(
        Err(ExecutionError::Cancelled(s("executor died"))),
        s("e1"),
        1,
        0,
        partition(),
        None,
        times(),
    );
    assert_eq!(table.record(ok), Ok(()));
    assert_eq!(table.record(fail.clone()), Err(StatusError::AlreadyFinalized));
    assert_eq!(table.len(), 1);
    assert!(table.contains_attempt(&fail));
    let retry = as_task_status(Ok(vec![]), s("e2"), 1, 1, partition(), None, times());
    assert_eq!(table.record(retry), Ok(()));
    assert_eq!(table.len(), 2);
}

#[test]
fn state_cleanup_waits_for_data_cleanup() {
    let mut c = CleanupScheduler::new(10, 20);
    c.job_finished(s("job-1"), 0);
    c.job_finished(s("job-2"), 100);
    assert!(c.sweep_state(25).is_empty());
    assert_eq!(c.len(), 2);
    assert_eq!(c.sweep_data(25), vec![s("job-1")]);
    assert!(c.sweep_data(25).is_empty());
    assert_eq!(c.sweep_state(25), vec![s("job-1")]);
    assert!(c.sweep_state(25).is_empty());
    assert_eq!(c.len(), 1);
}

#[test]
fn disabled_data_cleanup_does_not_block_state_cleanup() {
    let mut c = CleanupScheduler::new(0, 5);
    c.job_finished(s("job-1"), 0);
    assert!(c.sweep_data(100).is_empty());
    assert!(c.sweep_state(4).is_empty());
    assert_eq!(c.sweep_state(5), vec![s("job-1")]);
}

#[test]
fn disabled_state_cleanup_keeps_records() {
    let mut c = CleanupScheduler::new(1, 0);
    c.job_finished(s("job-1"), 0);
    assert_eq!(c.sweep_data(1), vec![s("job-1")]);
    assert!(c.sweep_state(1000).is_empty());
    assert_eq!(c.len(), 1);
}

#[test]
fn slot_view_feeds_the_engine() {
    let mut t = ExecutorHealthTracker::new();
    t.record_heartbeat(s("e1"), 0, 2);
    t.record_heartbeat(s("e2"), 0, 3);
    t.record_heartbeat(s("e3"), 0, 1);
    assert!(t.reserve(&s("e2"), 4));
    assert!(t.mark_terminating(&s("e3"), 1));
    let (ids, slots) = t.slot_view();
    assert_eq!(ids, vec![s("e1"), s("e2"), s("e3")]);
    assert_eq!(slots, vec![2, 2, 0]);
}

#[test]
fn heartbeat_updates_capacity() {
    let mut t = ExecutorHealthTracker::new();
    t.record_heartbeat(s("e1"), 0, 2);
    t.record_heartbeat(s("e1"), 5, 6);
    assert_eq!(t.available_slots(&s("e1")), 6);
    assert!(t.sweep(100, 95, 0).is_empty());
    assert_eq!(t.executor_state(&s("e1")), Some(ExecutorState::Active));
}
