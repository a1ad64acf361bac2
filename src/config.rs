//! Scheduler configuration: policy selection, timeouts and intervals, fixed
//! once the scheduler starts.
use vstd::prelude::*;

verus! {

/// Whether executors pull tasks or the scheduler pushes them.
#[derive(Debug, Clone, Copy, PartialEq, Eq, Structural)]
pub enum TaskSchedulingPolicy {
    PullStaged,
    PushStaged,
}

/// Backing store of the cluster state.
#[derive(Debug, Clone, Copy, PartialEq, Eq, Structural)]
pub enum ClusterStorageConfig {
    Memory,
}

/// Policy of distributing tasks to available executor slots, as named on
/// the command line.
#[derive(Debug, Clone, Copy, PartialEq, Eq, Structural)]
pub enum TaskDistribution {
    /// Eagerly assign tasks to executor slots: as many task slots per
    /// executor as are currently available.
    Bias,
    /// Distribute tasks evenly across executors, one task per executor in
    /// turn, until all tasks are assigned.
    RoundRobin,
    /// Place tasks that scan source files by a consistent hash of their
    /// input, with bounded work stealing; the others round-robin.
    ConsistentHash,
}

/// Policy of distributing tasks to available executor slots.
#[derive(Debug, Clone, Copy, PartialEq, Eq, Structural)]
pub enum TaskDistributionPolicy {
    Bias,
    RoundRobin,
    ConsistentHash { num_replicas: usize, tolerance: usize },
}

pub open spec fn ascii_lower(c: char) -> char {
    if 'A' <= c <= 'Z' {
        ((c as u8) + 32) as u8 as char
    } else {
        c
    }
}

/// The two strings are equal up to ASCII case.
pub open spec fn eq_ignore_ascii_case(a: Seq<char>, b: Seq<char>) -> bool {
    a.len() == b.len() && forall|i: int| 0 <= i < a.len() ==> ascii_lower(#[trigger] a[i]) == ascii_lower(b[i])
}

pub open spec fn distribution_name(d: TaskDistribution) -> Seq<char> {
    match d {
        TaskDistribution::Bias => seq!['b', 'i', 'a', 's'],
        TaskDistribution::RoundRobin => seq!['r', 'o', 'u', 'n', 'd', '-', 'r', 'o', 'b', 'i', 'n'],
        TaskDistribution::ConsistentHash => seq![
            'c',
            'o',
            'n',
            's',
            'i',
            's',
            't',
            'e',
            'n',
            't',
            '-',
            'h',
            'a',
            's',
            'h',
        ],
    }
}

fn lower_char(c: char) -> (r: char)
    ensures
        r == ascii_lower(c),
{
    if 'A' <= c && c <= 'Z' {
        ((c as u8) + 32u8) as char
    } else {
        c
    }
}

fn matches_ignore_case(s: &str, name: &str) -> (r: bool)
    ensures
        r == eq_ignore_ascii_case(s@, name@),
{
    let n = s.unicode_len();
    if n != name.unicode_len() {
        return false;
    }
    let mut i: usize = 0;
    while i < n
        invariant
            n == s@.len() == name@.len(),
            0 <= i <= n,
            forall|k: int| 0 <= k < i ==> ascii_lower(#[trigger] s@[k]) == ascii_lower(name@[k]),
        decreases n - i,
    {
        if lower_char(s.get_char(i)) != lower_char(name.get_char(i)) {
            return false;
        }
        i = i + 1;
    }
    true
}

/// The error text for an unknown policy name.
pub open spec fn invalid_variant_message(s: Seq<char>) -> Seq<char> {
    seq!['i', 'n', 'v', 'a', 'l', 'i', 'd', ' ', 'v', 'a', 'r', 'i', 'a', 'n', 't', ':', ' '] + s
}

impl TaskDistribution {
    /// Parses a policy name, ignoring ASCII case.
    pub fn parse(s: &str) -> (r: Result<TaskDistribution, String>)
        ensures
            match r {
                Ok(d) => eq_ignore_ascii_case(s@, distribution_name(d)),
                Err(m) => m@ == invalid_variant_message(s@) && forall|d: TaskDistribution|
                    !eq_ignore_ascii_case(s@, #[trigger] distribution_name(d)),
            },
    {
        proof {
            reveal_strlit("bias");
            reveal_strlit("round-robin");
            reveal_strlit("consistent-hash");
            reveal_strlit("invalid variant: ");
            assert("bias"@ =~= distribution_name(TaskDistribution::Bias));
            assert("round-robin"@ =~= distribution_name(TaskDistribution::RoundRobin));
            assert("consistent-hash"@ =~= distribution_name(TaskDistribution::ConsistentHash));
        }
        if matches_ignore_case(s, "bias") {
            Ok(TaskDistribution::Bias)
        } else if matches_ignore_case(s, "round-robin") {
            Ok(TaskDistribution::RoundRobin)
        } else if matches_ignore_case(s, "consistent-hash") {
            Ok(TaskDistribution::ConsistentHash)
        } else {
            let mut m = String::new();
            m.append("invalid variant: ");
            m.append(s);
            proof {
                assert(m@ =~= invalid_variant_message(s@));
                assert forall|d: TaskDistribution|
                    !eq_ignore_ascii_case(s@, #[trigger] distribution_name(d)) by {
                    match d {
                        TaskDistribution::Bias => {},
                        TaskDistribution::RoundRobin => {},
                        TaskDistribution::ConsistentHash => {},
                    }
                }
            }
            Err(m)
        }
    }
}

impl std::str::FromStr for TaskDistribution {
    type Err = String;

    fn from_str(s: &str) -> Result<TaskDistribution, String> {
        TaskDistribution::parse(s)
    }
}

/// Decimal digits of `n`, most significant first.
pub open spec fn decimal(n: nat) -> Seq<char>
    decreases n,
{
    if n < 10 {
        seq![digit_char(n)]
    } else {
        decimal(n / 10) + seq![digit_char(n % 10)]
    }
}

pub open spec fn digit_char(d: nat) -> char {
    seq!['0', '1', '2', '3', '4', '5', '6', '7', '8', '9'][d as int]
}

fn push_decimal(s: &mut String, n: u16)
    ensures
        final(s)@ == old(s)@ + decimal(n as nat),
    decreases n,
{
    if n >= 10 {
        push_decimal(s, n / 10);
    }
    let d = (n % 10) as usize;
    proof {
        reveal_strlit("0123456789");
        assert("0123456789"@ =~= seq!['0', '1', '2', '3', '4', '5', '6', '7', '8', '9']);
    }
    let digit = "0123456789".substring_char(d, d + 1);
    let ghost before = s@;
    s.append(digit);
    proof {
        assert(digit@ =~= seq![digit_char(d as nat)]);
        if n >= 10 {
            assert(s@ =~= old(s)@ + decimal(n as nat));
        } else {
            assert(s@ =~= old(s)@ + decimal(n as nat));
        }
    }
}

/// How many times a job with no task scheduled is resubmitted before it is
/// left to fail, so that resubmission cannot loop forever.
pub const MAX_JOB_RESUBMISSIONS: u32 = 10;

/// What goes wrong when a configuration is checked at start-up.
#[derive(Debug, Clone, Copy, PartialEq, Eq, Structural)]
pub enum ConfigError {
    /// The consistent-hash ring needs at least one replica per executor.
    ZeroReplicas,
}

/// Raw option values as read from the command line or a config file.
#[derive(Debug, Clone)]
pub struct SchedulerOptions {
    pub namespace: String,
    pub external_host: String,
    pub bind_port: u16,
    pub scheduler_policy: TaskSchedulingPolicy,
    pub event_loop_buffer_size: u32,
    pub task_distribution: TaskDistribution,
    pub consistent_hash_num_replicas: u32,
    pub consistent_hash_tolerance: u32,
    pub finished_job_data_clean_up_interval_seconds: u64,
    pub finished_job_state_clean_up_interval_seconds: u64,
    pub advertise_flight_sql_endpoint: Option<String>,
    /// 0 means jobs are not resubmitted.
    pub job_resubmit_interval_ms: u64,
    pub executor_termination_grace_period: u64,
    pub scheduler_event_expected_processing_duration: u64,
    pub grpc_server_max_decoding_message_size: u32,
    pub grpc_server_max_encoding_message_size: u32,
    pub executor_timeout_seconds: u64,
    pub expire_dead_executor_interval_seconds: u64,
}

/// Configurations for the scheduler of jobs and tasks.
#[derive(Debug, Clone)]
pub struct SchedulerConfig {
    /// Namespace of this scheduler. Schedulers using the same cluster storage
    /// and namespace share global cluster state.
    pub namespace: String,
    /// The external hostname of the scheduler.
    pub external_host: String,
    /// The bind port for the scheduler's gRPC service.
    pub bind_port: u16,
    /// The task scheduling policy for the scheduler.
    pub scheduling_policy: TaskSchedulingPolicy,
    /// The event loop buffer size.
    pub event_loop_buffer_size: u32,
    /// Policy of distributing tasks to available executor slots.
    pub task_distribution: TaskDistributionPolicy,
    /// Delay before cleaning up finished job data; 0 disables it.
    pub finished_job_data_clean_up_interval_seconds: u64,
    /// Delay before cleaning up finished job state; 0 disables it.
    pub finished_job_state_clean_up_interval_seconds: u64,
    /// The route endpoint for proxying flight sql results via the scheduler.
    pub advertise_flight_sql_endpoint: Option<String>,
    /// If set, jobs with no task scheduled are resubmitted after this many
    /// milliseconds.
    pub job_resubmit_interval_ms: Option<u64>,
    /// Configuration for cluster storage.
    pub cluster_storage: ClusterStorageConfig,
    /// Seconds a terminating executor is kept before it is considered dead.
    pub executor_termination_grace_period: u64,
    /// The maximum expected processing time of a scheduler event
    /// (microseconds); 0 disables the check.
    pub scheduler_event_expected_processing_duration: u64,
    /// The maximum size of a decoded message at the grpc server side.
    pub grpc_server_max_decoding_message_size: u32,
    /// The maximum size of an encoded message at the grpc server side.
    pub grpc_server_max_encoding_message_size: u32,
    /// The executor timeout in seconds; longer than the heartbeat interval.
    pub executor_timeout_seconds: u64,
    /// The interval to check expired or dead executors.
    pub expire_dead_executor_interval_seconds: u64,
}

impl Default for SchedulerConfig {
    fn default() -> (r: SchedulerConfig)
        ensures
            r.namespace@.len() == 0,
            r.external_host@ == seq!['l', 'o', 'c', 'a', 'l', 'h', 'o', 's', 't'],
            r.bind_port == 50050,
            r.scheduling_policy == TaskSchedulingPolicy::PullStaged,
            r.event_loop_buffer_size == 10000,
            r.task_distribution == TaskDistributionPolicy::Bias,
            r.finished_job_data_clean_up_interval_seconds == 300,
            r.finished_job_state_clean_up_interval_seconds == 3600,
            r.advertise_flight_sql_endpoint is None,
            r.job_resubmit_interval_ms is None,
            r.cluster_storage == ClusterStorageConfig::Memory,
            r.executor_termination_grace_period == 0,
            r.scheduler_event_expected_processing_duration == 0,
            r.grpc_server_max_decoding_message_size == 16777216,
            r.grpc_server_max_encoding_message_size == 16777216,
            r.executor_timeout_seconds == 180,
            r.expire_dead_executor_interval_seconds == 15,
    {
        let mut host = String::new();
        host.append("localhost");
        proof {
            reveal_strlit("localhost");
            assert(host@ =~= seq!['l', 'o', 'c', 'a', 'l', 'h', 'o', 's', 't']);
        }
        SchedulerConfig {
            namespace: String::new(),
            external_host: host,
            bind_port: 50050,
            scheduling_policy: TaskSchedulingPolicy::PullStaged,
            event_loop_buffer_size: 10000,
            task_distribution: TaskDistributionPolicy::Bias,
            finished_job_data_clean_up_interval_seconds: 300,
            finished_job_state_clean_up_interval_seconds: 3600,
            advertise_flight_sql_endpoint: None,
            cluster_storage: ClusterStorageConfig::Memory,
            job_resubmit_interval_ms: None,
            executor_termination_grace_period: 0,
            scheduler_event_expected_processing_duration: 0,
            grpc_server_max_decoding_message_size: 16777216,
            grpc_server_max_encoding_message_size: 16777216,
            executor_timeout_seconds: 180,
            expire_dead_executor_interval_seconds: 15,
        }
    }
}

/// The policy a set of options selects.
pub open spec fn policy_of(opt: SchedulerOptions) -> TaskDistributionPolicy {
    match opt.task_distribution {
        TaskDistribution::Bias => TaskDistributionPolicy::Bias,
        TaskDistribution::RoundRobin => TaskDistributionPolicy::RoundRobin,
        TaskDistribution::ConsistentHash => TaskDistributionPolicy::ConsistentHash {
            num_replicas: opt.consistent_hash_num_replicas as usize,
            tolerance: opt.consistent_hash_tolerance as usize,
        },
    }
}

impl SchedulerConfig {
    /// `host:port`, the name under which the scheduler is known.
    pub fn scheduler_name(&self) -> (r: String)
        ensures
            r@ == self.external_host@ + seq![':'] + decimal(self.bind_port as nat),
    {
        let mut r = String::new();
        r.append(self.external_host.as_str());
        r.append(":");
        proof {
            reveal_strlit(":");
        }
        push_decimal(&mut r, self.bind_port);
        proof {
            assert(r@ =~= self.external_host@ + seq![':'] + decimal(self.bind_port as nat));
        }
        r
    }

    pub fn with_namespace(self, namespace: String) -> (r: SchedulerConfig)
        ensures
            r == (SchedulerConfig { namespace: namespace, ..self }),
    {
        let mut c = self;
        c.namespace = namespace;
        c
    }

    pub fn with_hostname(self, hostname: String) -> (r: SchedulerConfig)
        ensures
            r == (SchedulerConfig { external_host: hostname, ..self }),
    {
        let mut c = self;
        c.external_host = hostname;
        c
    }

    pub fn with_port(self, port: u16) -> (r: SchedulerConfig)
        ensures
            r == (SchedulerConfig { bind_port: port, ..self }),
    {
        let mut c = self;
        c.bind_port = port;
        c
    }

    pub fn with_scheduler_policy(self, policy: TaskSchedulingPolicy) -> (r: SchedulerConfig)
        ensures
            r == (SchedulerConfig { scheduling_policy: policy, ..self }),
    {
        let mut c = self;
        c.scheduling_policy = policy;
        c
    }

    pub fn with_event_loop_buffer_size(self, buffer_size: u32) -> (r: SchedulerConfig)
        ensures
            r == (SchedulerConfig { event_loop_buffer_size: buffer_size, ..self }),
    {
        let mut c = self;
        c.event_loop_buffer_size = buffer_size;
        c
    }

    pub fn with_finished_job_data_clean_up_interval_seconds(self, interval_seconds: u64) -> (r: SchedulerConfig)
        ensures
            r == (SchedulerConfig { finished_job_data_clean_up_interval_seconds: interval_seconds, ..self }),
    {
        let mut c = self;
        c.finished_job_data_clean_up_interval_seconds = interval_seconds;
        c
    }

    pub fn with_finished_job_state_clean_up_interval_seconds(self, interval_seconds: u64) -> (r: SchedulerConfig)
        ensures
            r == (SchedulerConfig { finished_job_state_clean_up_interval_seconds: interval_seconds, ..self }),
    {
        let mut c = self;
        c.finished_job_state_clean_up_interval_seconds = interval_seconds;
        c
    }

    pub fn with_advertise_flight_sql_endpoint(self, endpoint: Option<String>) -> (r: SchedulerConfig)
        ensures
            r == (SchedulerConfig { advertise_flight_sql_endpoint: endpoint, ..self }),
    {
        let mut c = self;
        c.advertise_flight_sql_endpoint = endpoint;
        c
    }

    pub fn with_task_distribution(self, policy: TaskDistributionPolicy) -> (r: SchedulerConfig)
        ensures
            r == (SchedulerConfig { task_distribution: policy, ..self }),
    {
        let mut c = self;
        c.task_distribution = policy;
        c
    }

    pub fn with_cluster_storage(self, config: ClusterStorageConfig) -> (r: SchedulerConfig)
        ensures
            r == (SchedulerConfig { cluster_storage: config, ..self }),
    {
        let mut c = self;
        c.cluster_storage = config;
        c
    }

    pub fn with_job_resubmit_interval_ms(self, interval_ms: u64) -> (r: SchedulerConfig)
        ensures
            r == (SchedulerConfig { job_resubmit_interval_ms: Some(interval_ms), ..self }),
    {
        let mut c = self;
        c.job_resubmit_interval_ms = Some(interval_ms);
        c
    }

    pub fn with_remove_executor_wait_secs(self, value: u64) -> (r: SchedulerConfig)
        ensures
            r == (SchedulerConfig { executor_termination_grace_period: value, ..self }),
    {
        let mut c = self;
        c.executor_termination_grace_period = value;
        c
    }

    pub fn with_grpc_server_max_decoding_message_size(self, value: u32) -> (r: SchedulerConfig)
        ensures
            r == (SchedulerConfig { grpc_server_max_decoding_message_size: value, ..self }),
    {
        let mut c = self;
        c.grpc_server_max_decoding_message_size = value;
        c
    }

    pub fn with_grpc_server_max_encoding_message_size(self, value: u32) -> (r: SchedulerConfig)
        ensures
            r == (SchedulerConfig { grpc_server_max_encoding_message_size: value, ..self }),
    {
        let mut c = self;
        c.grpc_server_max_encoding_message_size = value;
        c
    }

    /// Whether a job that was resubmitted `attempts` times may be resubmitted
    /// again: only when resubmission is on and the cap is not reached.
    pub fn may_resubmit(&self, attempts: u32) -> (r: bool)
        ensures
            r == (self.job_resubmit_interval_ms is Some && attempts < MAX_JOB_RESUBMISSIONS),
    {
        self.job_resubmit_interval_ms.is_some() && attempts < MAX_JOB_RESUBMISSIONS
    }

    pub fn is_push_staged_scheduling(&self) -> (r: bool)
        ensures
            r == (self.scheduling_policy == TaskSchedulingPolicy::PushStaged),
    {
        matches!(self.scheduling_policy, TaskSchedulingPolicy::PushStaged)
    }

    /// Builds the configuration from raw options.  A consistent-hash policy
    /// with no replica is rejected before any scheduling begins; a resubmit
    /// interval of 0 means no resubmission.
    pub fn try_from_options(opt: SchedulerOptions) -> (r: Result<SchedulerConfig, ConfigError>)
        ensures
            r is Err <==> (opt.task_distribution == TaskDistribution::ConsistentHash
                && opt.consistent_hash_num_replicas == 0),
            r is Err ==> r == Err::<SchedulerConfig, ConfigError>(ConfigError::ZeroReplicas),
            r matches Ok(c) ==> {
                &&& c.namespace == opt.namespace
                &&& c.external_host == opt.external_host
                &&& c.bind_port == opt.bind_port
                &&& c.scheduling_policy == opt.scheduler_policy
                &&& c.event_loop_buffer_size == opt.event_loop_buffer_size
                &&& c.task_distribution == policy_of(opt)
                &&& c.finished_job_data_clean_up_interval_seconds
                    == opt.finished_job_data_clean_up_interval_seconds
                &&& c.finished_job_state_clean_up_interval_seconds
                    == opt.finished_job_state_clean_up_interval_seconds
                &&& c.advertise_flight_sql_endpoint == opt.advertise_flight_sql_endpoint
                &&& c.job_resubmit_interval_ms == if opt.job_resubmit_interval_ms > 0 {
                    Some(opt.job_resubmit_interval_ms)
                } else {
                    None
                }
                &&& c.cluster_storage == ClusterStorageConfig::Memory
                &&& c.executor_termination_grace_period == opt.executor_termination_grace_period
                &&& c.scheduler_event_expected_processing_duration
                    == opt.scheduler_event_expected_processing_duration
                &&& c.grpc_server_max_decoding_message_size
                    == opt.grpc_server_max_decoding_message_size
                &&& c.grpc_server_max_encoding_message_size
                    == opt.grpc_server_max_encoding_message_size
                &&& c.executor_timeout_seconds == opt.executor_timeout_seconds
                &&& c.expire_dead_executor_interval_seconds == opt.expire_dead_executor_interval_seconds
            },
    {
        let task_distribution = match opt.task_distribution {
            TaskDistribution::Bias => TaskDistributionPolicy::Bias,
            TaskDistribution::RoundRobin => TaskDistributionPolicy::RoundRobin,
            TaskDistribution::ConsistentHash => {
                if opt.consistent_hash_num_replicas == 0 {
                    return Err(ConfigError::ZeroReplicas);
                }
                TaskDistributionPolicy::ConsistentHash {
                    num_replicas: opt.consistent_hash_num_replicas as usize,
                    tolerance: opt.consistent_hash_tolerance as usize,
                }
            },
        };
        let job_resubmit_interval_ms = if opt.job_resubmit_interval_ms > 0 {
            Some(opt.job_resubmit_interval_ms)
        } else {
            None
        };
        Ok(
            SchedulerConfig {
                namespace: opt.namespace,
                external_host: opt.external_host,
                bind_port: opt.bind_port,
                scheduling_policy: opt.scheduler_policy,
                event_loop_buffer_size: opt.event_loop_buffer_size,
                task_distribution,
                finished_job_data_clean_up_interval_seconds: opt.finished_job_data_clean_up_interval_seconds,
                finished_job_state_clean_up_interval_seconds: opt.finished_job_state_clean_up_interval_seconds,
                advertise_flight_sql_endpoint: opt.advertise_flight_sql_endpoint,
                cluster_storage: ClusterStorageConfig::Memory,
                job_resubmit_interval_ms,
                executor_termination_grace_period: opt.executor_termination_grace_period,
                scheduler_event_expected_processing_duration: opt.scheduler_event_expected_processing_duration,
                grpc_server_max_decoding_message_size: opt.grpc_server_max_decoding_message_size,
                grpc_server_max_encoding_message_size: opt.grpc_server_max_encoding_message_size,
                executor_timeout_seconds: opt.executor_timeout_seconds,
                expire_dead_executor_interval_seconds: opt.expire_dead_executor_interval_seconds,
            },
        )
    }
}

} // verus!
