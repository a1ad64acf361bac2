use ballista_scheduler::config::{
    ClusterStorageConfig, ConfigError, MAX_JOB_RESUBMISSIONS, SchedulerConfig, SchedulerOptions, TaskDistribution,
    TaskDistributionPolicy, TaskSchedulingPolicy,
};

fn options(d: TaskDistribution, replicas: u32, resubmit: u64) -> SchedulerOptions {
    SchedulerOptions {
        namespace: "ns".to_string(),
        external_host: "sched.local".to_string(),
        bind_port: 50051,
        scheduler_policy: TaskSchedulingPolicy::PushStaged,
        event_loop_buffer_size: 100,
        task_distribution: d,
        consistent_hash_num_replicas: replicas,
        consistent_hash_tolerance: 2,
        finished_job_data_clean_up_interval_seconds: 1,
        finished_job_state_clean_up_interval_seconds: 2,
        advertise_flight_sql_endpoint: None,
        job_resubmit_interval_ms: resubmit,
        executor_termination_grace_period: 30,
        scheduler_event_expected_processing_duration: 0,
        grpc_server_max_decoding_message_size: 1024,
        grpc_server_max_encoding_message_size: 2048,
        executor_timeout_seconds: 60,
        expire_dead_executor_interval_seconds: 5,
    }
}

#[test]
fn default_config_values() {
    let c = SchedulerConfig::default();
    assert_eq!(c.namespace, "");
    assert_eq!(c.external_host, "localhost");
    assert_eq!(c.bind_port, 50050);
    assert_eq!(c.scheduling_policy, TaskSchedulingPolicy::PullStaged);
    assert_eq!(c.event_loop_buffer_size, 10000);
    assert_eq!(c.task_distribution, TaskDistributionPolicy::Bias);
    assert_eq!(c.finished_job_data_clean_up_interval_seconds, 300);
    assert_eq!(c.finished_job_state_clean_up_interval_seconds, 3600);
    assert_eq!(c.job_resubmit_interval_ms, None);
    assert_eq!(c.cluster_storage, ClusterStorageConfig::Memory);
    assert_eq!(c.grpc_server_max_decoding_message_size, 16777216);
    assert_eq!(c.executor_timeout_seconds, 180);
    assert_eq!(c.expire_dead_executor_interval_seconds, 15);
    assert!(!c.is_push_staged_scheduling());
}

#[test]
fn scheduler_name_is_host_and_port() {
    assert_eq!(SchedulerConfig::default().scheduler_name(), "localhost:50050");
    let c = SchedulerConfig::default().with_hostname("h".to_string()).with_port(0);
    assert_eq!(c.scheduler_name(), "h:0");
    let c = c.with_port(65535);
    assert_eq!(c.scheduler_name(), "h:65535");
}

#[test]
fn builders_set_one_field_each() {
    let c = SchedulerConfig::default()
        .with_namespace("prod".to_string())
        .with_scheduler_policy(TaskSchedulingPolicy::PushStaged)
        .with_event_loop_buffer_size(7)
        .with_finished_job_data_clean_up_interval_seconds(11)
        .with_finished_job_state_clean_up_interval_seconds(12)
        .with_advertise_flight_sql_endpoint(Some("proxy:1".to_string()))
        .with_task_distribution(TaskDistributionPolicy::RoundRobin)
        .with_cluster_storage(ClusterStorageConfig::Memory)
        .with_job_resubmit_interval_ms(500)
        .with_remove_executor_wait_secs(9)
        .with_grpc_server_max_decoding_message_size(13)
        .with_grpc_server_max_encoding_message_size(14);
    assert_eq!(c.namespace, "prod");
    assert!(c.is_push_staged_scheduling());
    assert_eq!(c.event_loop_buffer_size, 7);
    assert_eq!(c.finished_job_data_clean_up_interval_seconds, 11);
    assert_eq!(c.finished_job_state_clean_up_interval_seconds, 12);
    assert_eq!(c.advertise_flight_sql_endpoint.as_deref(), Some("proxy:1"));
    assert_eq!(c.task_distribution, TaskDistributionPolicy::RoundRobin);
    assert_eq!(c.job_resubmit_interval_ms, Some(500));
    assert_eq!(c.executor_termination_grace_period, 9);
    assert_eq!(c.grpc_server_max_decoding_message_size, 13);
    assert_eq!(c.grpc_server_max_encoding_message_size, 14);
    assert_eq!(c.external_host, "localhost");
}

#[test]
fn parse_distribution_ignores_case() {
    assert_eq!(TaskDistribution::parse("bias"), Ok(TaskDistribution::Bias));
    assert_eq!(TaskDistribution::parse("Round-Robin"), Ok(TaskDistribution::RoundRobin));
    assert_eq!(
        "CONSISTENT-HASH".parse::<TaskDistribution>(),
        Ok(TaskDistribution::ConsistentHash)
    );
    assert_eq!(
        TaskDistribution::parse("roundrobin"),
        Err("invalid variant: roundrobin".to_string())
    );
    assert!(TaskDistribution::parse("").is_err());
}

#[test]
fn options_become_config() {
    let c = SchedulerConfig::try_from_options(options(TaskDistribution::ConsistentHash, 3, 0)).unwrap();
    assert_eq!(
        c.task_distribution,
        TaskDistributionPolicy::ConsistentHash { num_replicas: 3, tolerance: 2 }
    );
    assert_eq!(c.job_resubmit_interval_ms, None);
    assert_eq!(c.scheduler_name(), "sched.local:50051");
    assert!(c.is_push_staged_scheduling());
    assert_eq!(c.executor_termination_grace_period, 30);
    let c = SchedulerConfig::try_from_options(options(TaskDistribution::Bias, 0, 250)).unwrap();
    assert_eq!(c.task_distribution, TaskDistributionPolicy::Bias);
    assert_eq!(c.job_resubmit_interval_ms, Some(250));
}

#[test]
fn zero_replicas_is_rejected_at_startup() {
    let r = SchedulerConfig::try_from_options(options(TaskDistribution::ConsistentHash, 0, 0));
    assert_eq!(r.err(), Some(ConfigError::ZeroReplicas));
}

#[test]
fn resubmission_is_bounded() {
    let off = SchedulerConfig::default();
    assert!(!off.may_resubmit(0));
    let on = SchedulerConfig::default().with_job_resubmit_interval_ms(100);
    assert!(on.may_resubmit(0));
    assert!(on.may_resubmit(MAX_JOB_RESUBMISSIONS - 1));
    assert!(!on.may_resubmit(MAX_JOB_RESUBMISSIONS));
}
