//! Conversion of an execution outcome into an immutable task status record,
//! and a table that accepts at most one terminal record per task attempt.
use vstd::prelude::*;

verus! {

/// Execution-time markers of a task; each is 0 until it is recorded.
#[derive(Debug, Clone, PartialEq, Eq, PartialOrd, Ord, Hash)]
pub struct TaskExecutionTimes {
    pub launch_time: u64,
    pub start_exec_time: u64,
    pub end_exec_time: u64,
}

impl TaskExecutionTimes {
    /// The markers are ordered once all of them are set.
    pub open spec fn is_ordered(&self) -> bool {
        self.launch_time <= self.start_exec_time <= self.end_exec_time
    }
}

/// Identity of one partition of one stage of a job.
#[derive(Debug, Clone)]
pub struct PartitionId {
    pub job_id: String,
    pub stage_id: usize,
    pub partition_id: usize,
}

/// Descriptor of one output partition written by a task.
#[derive(Debug, Clone)]
pub struct ShuffleWritePartition {
    pub partition_id: u64,
    pub path: String,
    pub num_batches: u64,
    pub num_rows: u64,
    pub num_bytes: u64,
}

/// One named metric value of an operator.
#[derive(Debug, Clone)]
pub struct OperatorMetric {
    pub name: String,
    pub value: u64,
}

/// The metrics collected for one operator of a task's plan.
#[derive(Debug, Clone)]
pub struct OperatorMetricsSet {
    pub metrics: Vec<OperatorMetric>,
}

/// An error reported by the execution engine for a task.
#[derive(Debug, Clone)]
pub enum ExecutionError {
    /// The task itself failed.
    Internal(String),
    /// The executor running the task could not be reached.
    ExecutorLost(String),
    /// The task was cancelled because its executor died.
    Cancelled(String),
}

/// Structured cause of a failed task, for retry classification.
#[derive(Debug, Clone, Copy, PartialEq, Eq, Structural)]
pub enum FailureCause {
    TaskInternal,
    ExecutorUnreachable,
    CancelledExecutorDead,
}

/// Failure record of a task.
#[derive(Debug, Clone)]
pub struct FailedTask {
    pub error: String,
    pub cause: FailureCause,
    /// Whether the task may be re-attempted, possibly on another executor.
    pub retryable: bool,
}

/// Success record of a task.
#[derive(Debug, Clone)]
pub struct SuccessfulTask {
    pub executor_id: String,
    pub partitions: Vec<ShuffleWritePartition>,
}

/// Terminal status of a task attempt.
#[derive(Debug, Clone)]
pub enum Status {
    Successful(SuccessfulTask),
    Failed(FailedTask),
}

/// Immutable status record of one task attempt.
#[derive(Debug, Clone)]
pub struct TaskStatus {
    pub task_id: usize,
    pub job_id: String,
    pub stage_id: usize,
    pub stage_attempt_num: usize,
    pub partition_id: usize,
    pub launch_time: u64,
    pub start_exec_time: u64,
    pub end_exec_time: u64,
    pub metrics: Vec<OperatorMetricsSet>,
    pub status: Status,
}

pub open spec fn cause_of(e: ExecutionError) -> FailureCause {
    match e {
        ExecutionError::Internal(_) => FailureCause::TaskInternal,
        ExecutionError::ExecutorLost(_) => FailureCause::ExecutorUnreachable,
        ExecutionError::Cancelled(_) => FailureCause::CancelledExecutorDead,
    }
}

pub open spec fn message_of(e: ExecutionError) -> Seq<char> {
    match e {
        ExecutionError::Internal(m) => m@,
        ExecutionError::ExecutorLost(m) => m@,
        ExecutionError::Cancelled(m) => m@,
    }
}

/// A task that failed on its own is surfaced; one that lost its executor is retried.
pub open spec fn cause_is_retryable(c: FailureCause) -> bool {
    c != FailureCause::TaskInternal
}

impl ExecutionError {
    pub fn cause(&self) -> (r: FailureCause)
        ensures
            r == cause_of(*self),
    {
        match self {
            ExecutionError::Internal(_) => FailureCause::TaskInternal,
            ExecutionError::ExecutorLost(_) => FailureCause::ExecutorUnreachable,
            ExecutionError::Cancelled(_) => FailureCause::CancelledExecutorDead,
        }
    }

    pub fn message(&self) -> (r: String)
        ensures
            r@ == message_of(*self),
    {
        match self {
            ExecutionError::Internal(m) => m.clone(),
            ExecutionError::ExecutorLost(m) => m.clone(),
            ExecutionError::Cancelled(m) => m.clone(),
        }
    }
}

impl FailureCause {
    pub fn is_retryable(&self) -> (r: bool)
        ensures
            r == cause_is_retryable(*self),
    {
        !matches!(self, FailureCause::TaskInternal)
    }
}

impl FailedTask {
    /// The failure record of an engine error: its message and its structured cause.
    pub fn from_error(e: ExecutionError) -> (r: FailedTask)
        ensures
            r.error@ == message_of(e),
            r.cause == cause_of(e),
            r.retryable == cause_is_retryable(cause_of(e)),
    {
        let cause = e.cause();
        FailedTask { error: e.message(), cause, retryable: cause.is_retryable() }
    }
}

/// Builds the status record of a finished task attempt.  Total: every outcome
/// yields exactly one record, carrying the identity and the three time markers
/// unchanged; metrics default to none when none were supplied.
pub fn as_task_status(
    execution_result: Result<Vec<ShuffleWritePartition>, ExecutionError>,
    executor_id: String,
    task_id: usize,
    stage_attempt_num: usize,
    partition_id: PartitionId,
    operator_metrics: Option<Vec<OperatorMetricsSet>>,
    execution_times: TaskExecutionTimes,
) -> (r: TaskStatus)
    ensures
        r.task_id == task_id,
        r.job_id@ == partition_id.job_id@,
        r.stage_id == partition_id.stage_id,
        r.stage_attempt_num == stage_attempt_num,
        r.partition_id == partition_id.partition_id,
        r.launch_time == execution_times.launch_time,
        r.start_exec_time == execution_times.start_exec_time,
        r.end_exec_time == execution_times.end_exec_time,
        execution_times.is_ordered() ==> r.launch_time <= r.start_exec_time <= r.end_exec_time,
        match operator_metrics {
            Some(m) => r.metrics@ == m@,
            None => r.metrics@.len() == 0,
        },
        match execution_result {
            Ok(parts) => r.status matches Status::Successful(s) && s.executor_id@ == executor_id@
                && s.partitions@ == parts@,
            Err(e) => r.status matches Status::Failed(f) && f.error@ == message_of(e) && f.cause
                == cause_of(e) && f.retryable == cause_is_retryable(cause_of(e)),
        },
{
    let metrics = match operator_metrics {
        Some(m) => m,
        None => Vec::new(),
    };
    let status = match execution_result {
        Ok(partitions) => Status::Successful(SuccessfulTask { executor_id, partitions }),
        Err(e) => Status::Failed(FailedTask::from_error(e)),
    };
    TaskStatus {
        task_id,
        job_id: partition_id.job_id,
        stage_id: partition_id.stage_id,
        stage_attempt_num,
        partition_id: partition_id.partition_id,
        launch_time: execution_times.launch_time,
        start_exec_time: execution_times.start_exec_time,
        end_exec_time: execution_times.end_exec_time,
        metrics,
        status,
    }
}

/// Two records belong to the same task attempt.
pub open spec fn same_attempt(a: TaskStatus, b: TaskStatus) -> bool {
    a.job_id@ == b.job_id@ && a.stage_id == b.stage_id && a.stage_attempt_num
        == b.stage_attempt_num && a.partition_id == b.partition_id && a.task_id == b.task_id
}

pub open spec fn has_attempt(recs: Seq<TaskStatus>, s: TaskStatus) -> bool {
    exists|i: int| 0 <= i < recs.len() && same_attempt(#[trigger] recs[i], s)
}

/// No two records of the sequence belong to the same attempt.
pub open spec fn attempts_unique(recs: Seq<TaskStatus>) -> bool {
    forall|i: int, j: int|
        0 <= i < recs.len() && 0 <= j < recs.len() && i != j ==> !same_attempt(
            #[trigger] recs[i],
            #[trigger] recs[j],
        )
}

/// Why a status record was not accepted.
#[derive(Debug, Clone, Copy, PartialEq, Eq, Structural)]
pub enum StatusError {
    /// The attempt already has its terminal status.
    AlreadyFinalized,
}

/// Terminal status records, at most one per task attempt.
pub struct TaskStatusTable {
    records: Vec<TaskStatus>,
}

impl TaskStatusTable {
    pub closed spec fn view(&self) -> Seq<TaskStatus> {
        self.records@
    }

    pub open spec fn wf(&self) -> bool {
        attempts_unique(self@)
    }

    pub fn new() -> (r: TaskStatusTable)
        ensures
            r@.len() == 0,
            r.wf(),
    {
        TaskStatusTable { records: Vec::new() }
    }

    pub fn len(&self) -> (r: usize)
        ensures
            r == self@.len(),
    {
        self.records.len()
    }

    fn matches_attempt(a: &TaskStatus, b: &TaskStatus) -> (r: bool)
        ensures
            r == same_attempt(*a, *b),
    {
        a.task_id == b.task_id && a.stage_id == b.stage_id && a.stage_attempt_num
            == b.stage_attempt_num && a.partition_id == b.partition_id && a.job_id == b.job_id
    }

    /// Whether a record of the same attempt as `s` is present.
    pub fn contains_attempt(&self, s: &TaskStatus) -> (r: bool)
        ensures
            r == has_attempt(self@, *s),
    {
        let mut i: usize = 0;
        while i < self.records.len()
            invariant
                0 <= i <= self.records@.len(),
                forall|k: int| 0 <= k < i ==> !same_attempt(#[trigger] self.records@[k], *s),
            decreases self.records@.len() - i,
        {
            if Self::matches_attempt(&self.records[i], s) {
                return true;
            }
            i = i + 1;
        }
        false
    }

    /// Records the terminal status of an attempt.  A second record for an
    /// attempt that already has one is rejected and the table is unchanged.
    pub fn record(&mut self, s: TaskStatus) -> (r: Result<(), StatusError>)
        requires
            old(self).wf(),
        ensures
            final(self).wf(),
            r is Err <==> has_attempt(old(self)@, s),
            r is Ok ==> final(self)@ == old(self)@.push(s),
            r is Err ==> final(self)@ == old(self)@,
    {
        if self.contains_attempt(&s) {
            return Err(StatusError::AlreadyFinalized);
        }
        proof {
            lemma_push_new_attempt(self@, s);
        }
        self.records.push(s);
        Ok(())
    }
}

proof fn lemma_push_new_attempt(recs: Seq<TaskStatus>, s: TaskStatus)
    requires
        attempts_unique(recs),
        !has_attempt(recs, s),
    ensures
        attempts_unique(recs.push(s)),
        has_attempt(recs.push(s), s),
{
    let n = recs.push(s);
    assert(same_attempt(n[recs.len() as int], s));
    assert forall|i: int, j: int|
        0 <= i < n.len() && 0 <= j < n.len() && i != j implies !same_attempt(
        #[trigger] n[i],
        #[trigger] n[j],
    ) by {
        if i == recs.len() {
            assert(!same_attempt(recs[j], s));
        } else if j == recs.len() {
            assert(!same_attempt(recs[i], s));
        } else {
            assert(n[i] == recs[i] && n[j] == recs[j]);
        }
    }
}

/// Single terminal status: once an attempt's record has been accepted, the
/// table holds exactly that one record for it, and any further record for the
/// same attempt is rejected.
pub proof fn lemma_single_terminal_status(recs: Seq<TaskStatus>, s: TaskStatus, again: TaskStatus)
    requires
        attempts_unique(recs),
        !has_attempt(recs, s),
        same_attempt(s, again),
    ensures
        attempts_unique(recs.push(s)),
        has_attempt(recs.push(s), again),
        forall|i: int|
            0 <= i < recs.push(s).len() && same_attempt(#[trigger] recs.push(s)[i], s) ==> i
                == recs.len(),
{
    lemma_push_new_attempt(recs, s);
    let n = recs.push(s);
    assert(same_attempt(n[recs.len() as int], again));
    assert forall|i: int| 0 <= i < n.len() && same_attempt(#[trigger] n[i], s) implies i
        == recs.len() by {
        if i < recs.len() {
            assert(n[i] == recs[i]);
        }
    }
}

} // verus!
