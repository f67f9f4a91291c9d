//! Engine configuration. The command-line and environment parsing lives
//! at the service edge; this is the validated, plain-data form.

use vstd::prelude::*;
use core::time::Duration;

verus! {

use vstd::string::StringExecFns;

/// The duration of a whole number of seconds.
pub uninterp spec fn duration_secs(secs: u64) -> Duration;

/// Relies on `core::time::Duration::from_secs`: the duration of exactly
/// the given number of seconds, a function of its argument alone.
#[verifier::external_body]
fn from_secs(secs: u64) -> (r: Duration)
    ensures
        r == duration_secs(secs),
{
    Duration::from_secs(secs)
}

/// Risk engine configuration.
#[derive(Debug, Clone)]
pub struct Config {
    /// HTTP server listen address
    pub listen_addr: String,
    /// Path to the policy YAML file
    pub policy_path: String,
    /// Path to the sanctions list file
    pub sanctions_path: String,
    /// Path to the WAL file (absent disables the WAL)
    pub wal_path: Option<String>,
    /// Path to the snapshot directory (optional)
    pub snapshot_path: Option<String>,
    /// Policy reload check interval in seconds
    pub policy_reload_secs: u64,
    /// Latency budget in milliseconds for the decision endpoint
    pub latency_budget_ms: u64,
    /// Log level (trace, debug, info, warn, error)
    pub log_level: String,
    /// Maximum entries per user state (for memory bounds)
    pub max_entries_per_user: usize,
    /// Actor pool stripe count for lock contention reduction
    pub stripe_count: usize,
    /// Idle actor eviction timeout in seconds
    pub actor_idle_secs: u64,
    /// Enable graceful shutdown
    pub graceful_shutdown: bool,
    /// Graceful shutdown timeout in seconds
    pub shutdown_timeout_secs: u64,
}

impl Config {
    /// Get the policy reload interval as a `Duration`.
    pub fn policy_reload_interval(&self) -> (r: Duration)
        ensures
            r == duration_secs(self.policy_reload_secs),
    {
        from_secs(self.policy_reload_secs)
    }

    /// Get the shutdown timeout as a `Duration`.
    pub fn shutdown_timeout(&self) -> (r: Duration)
        ensures
            r == duration_secs(self.shutdown_timeout_secs),
    {
        from_secs(self.shutdown_timeout_secs)
    }

    /// Get the actor idle timeout as a `Duration`.
    pub fn actor_idle_timeout(&self) -> (r: Duration)
        ensures
            r == duration_secs(self.actor_idle_secs),
    {
        from_secs(self.actor_idle_secs)
    }
}

impl Default for Config {
    /// The default configuration used when no flag overrides a field.
    fn default() -> (r: Self)
        ensures
            r.listen_addr@ == "0.0.0.0:8080"@,
            r.policy_path@ == "policy.yaml"@,
            r.sanctions_path@ == "sanctions.txt"@,
            r.wal_path is None,
            r.snapshot_path is None,
            r.policy_reload_secs == 30,
            r.latency_budget_ms == 100,
            r.log_level@ == "info"@,
            r.max_entries_per_user == 1000,
            r.stripe_count == 64,
            r.actor_idle_secs == 3600,
            r.graceful_shutdown == true,
            r.shutdown_timeout_secs == 30,
    {
        Config {
            listen_addr: String::from_str("0.0.0.0:8080"),
            policy_path: String::from_str("policy.yaml"),
            sanctions_path: String::from_str("sanctions.txt"),
            wal_path: None,
            snapshot_path: None,
            policy_reload_secs: 30,
            latency_budget_ms: 100,
            log_level: String::from_str("info"),
            max_entries_per_user: 1000,
            stripe_count: 64,
            actor_idle_secs: 3600,
            graceful_shutdown: true,
            shutdown_timeout_secs: 30,
        }
    }
}

} // verus!
