//! Task placement, executor health and task status bookkeeping of a cluster
//! scheduler.
//!
//! - [`ring`]: a consistent-hash ring of executor replicas.
//! - [`distribution`]: one scheduling pass under the Bias, RoundRobin or
//!   ConsistentHash policy.
//! - [`health`]: heartbeats, slot reservations and the executor lifecycle.
//! - [`task_status`]: status records of finished task attempts.
//! - [`cleanup`]: delayed clean-up of finished jobs.
//! - [`config`]: the scheduler's configuration.

pub mod cleanup;
pub mod config;
pub mod distribution;
pub mod health;
pub mod ring;
pub mod task_status;
