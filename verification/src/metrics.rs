//! Counters for observability, and their Prometheus text rendering. The
//! registry is plain data; the server serializes access to it.

use vstd::prelude::*;
use crate::decision::Decision;
use crate::text;
use crate::text::dec_digits;

verus! {

use vstd::string::StringExecFns;

/// Metrics registry for the application.
#[derive(Debug, Clone, Copy, PartialEq, Eq, Structural)]
pub struct MetricsRegistry {
    /// Total decision requests processed
    pub decisions_total: u64,
    /// Decision requests by outcome
    pub decisions_allow: u64,
    pub decisions_soft_deny: u64,
    pub decisions_hold: u64,
    pub decisions_review: u64,
    pub decisions_reject: u64,
    /// Decision latency buckets (microseconds)
    pub latency_under_1ms: u64,
    pub latency_1_5ms: u64,
    pub latency_5_10ms: u64,
    pub latency_10_50ms: u64,
    pub latency_50_100ms: u64,
    pub latency_over_100ms: u64,
    /// Rule evaluation counts
    pub rules_evaluated_total: u64,
    pub rules_triggered_total: u64,
    /// WAL operations
    pub wal_writes_total: u64,
    pub wal_write_errors: u64,
    /// Policy reloads
    pub policy_reloads_total: u64,
    pub policy_reload_errors: u64,
}

/// Counter increments saturate instead of wrapping.
pub open spec fn bump(c: u64) -> u64 {
    if c == u64::MAX {
        c
    } else {
        (c + 1) as u64
    }
}

fn bump_counter(c: u64) -> (r: u64)
    ensures
        r == bump(c),
{
    if c == u64::MAX {
        c
    } else {
        c + 1
    }
}

impl MetricsRegistry {
    /// Create a new metrics registry with all counters at zero.
    pub fn new() -> (r: MetricsRegistry)
        ensures
            r == MetricsRegistry::spec_zero(),
    {
        MetricsRegistry {
            decisions_total: 0,
            decisions_allow: 0,
            decisions_soft_deny: 0,
            decisions_hold: 0,
            decisions_review: 0,
            decisions_reject: 0,
            latency_under_1ms: 0,
            latency_1_5ms: 0,
            latency_5_10ms: 0,
            latency_10_50ms: 0,
            latency_50_100ms: 0,
            latency_over_100ms: 0,
            rules_evaluated_total: 0,
            rules_triggered_total: 0,
            wal_writes_total: 0,
            wal_write_errors: 0,
            policy_reloads_total: 0,
            policy_reload_errors: 0,
        }
    }

    /// The all-zero registry.
    pub open spec fn spec_zero() -> MetricsRegistry {
        MetricsRegistry {
            decisions_total: 0,
            decisions_allow: 0,
            decisions_soft_deny: 0,
            decisions_hold: 0,
            decisions_review: 0,
            decisions_reject: 0,
            latency_under_1ms: 0,
            latency_1_5ms: 0,
            latency_5_10ms: 0,
            latency_10_50ms: 0,
            latency_50_100ms: 0,
            latency_over_100ms: 0,
            rules_evaluated_total: 0,
            rules_triggered_total: 0,
            wal_writes_total: 0,
            wal_write_errors: 0,
            policy_reloads_total: 0,
            policy_reload_errors: 0,
        }
    }

    /// Record a decision outcome: the total and the outcome's own counter
    /// each go up by one.
    pub fn record_decision(&mut self, decision: Decision)
        ensures
            final(self).decisions_total == bump(old(self).decisions_total),
            final(self).decisions_allow == if decision == Decision::Allow {
                bump(old(self).decisions_allow)
            } else {
                old(self).decisions_allow
            },
            final(self).decisions_soft_deny == if decision == Decision::SoftDenyRetry {
                bump(old(self).decisions_soft_deny)
            } else {
                old(self).decisions_soft_deny
            },
            final(self).decisions_hold == if decision == Decision::HoldAuto {
                bump(old(self).decisions_hold)
            } else {
                old(self).decisions_hold
            },
            final(self).decisions_review == if decision == Decision::Review {
                bump(old(self).decisions_review)
            } else {
                old(self).decisions_review
            },
            final(self).decisions_reject == if decision == Decision::RejectFatal {
                bump(old(self).decisions_reject)
            } else {
                old(self).decisions_reject
            },
            final(self).latency_under_1ms == old(self).latency_under_1ms,
            final(self).latency_1_5ms == old(self).latency_1_5ms,
            final(self).latency_5_10ms == old(self).latency_5_10ms,
            final(self).latency_10_50ms == old(self).latency_10_50ms,
            final(self).latency_50_100ms == old(self).latency_50_100ms,
            final(self).latency_over_100ms == old(self).latency_over_100ms,
            final(self).rules_evaluated_total == old(self).rules_evaluated_total,
            final(self).rules_triggered_total == old(self).rules_triggered_total,
            final(self).wal_writes_total == old(self).wal_writes_total,
            final(self).wal_write_errors == old(self).wal_write_errors,
            final(self).policy_reloads_total == old(self).policy_reloads_total,
            final(self).policy_reload_errors == old(self).policy_reload_errors,
    {
        self.decisions_total = bump_counter(self.decisions_total);
        match decision {
            Decision::Allow => {
                self.decisions_allow = bump_counter(self.decisions_allow);
            },
            Decision::SoftDenyRetry => {
                self.decisions_soft_deny = bump_counter(self.decisions_soft_deny);
            },
            Decision::HoldAuto => {
                self.decisions_hold = bump_counter(self.decisions_hold);
            },
            Decision::Review => {
                self.decisions_review = bump_counter(self.decisions_review);
            },
            Decision::RejectFatal => {
                self.decisions_reject = bump_counter(self.decisions_reject);
            },
        }
    }

    /// Which latency bucket a duration in microseconds falls into,
    /// expressed as the bucket's index (0 is the fastest).
    pub open spec fn spec_bucket(micros: u64) -> int {
        if micros < 1000 {
            0int
        } else if micros < 5000 {
            1int
        } else if micros < 10000 {
            2int
        } else if micros < 50000 {
            3int
        } else if micros < 100000 {
            4int
        } else {
            5int
        }
    }

    /// Record decision latency, in microseconds.
    pub fn record_latency(&mut self, micros: u64)
        ensures
            final(self).latency_under_1ms == if MetricsRegistry::spec_bucket(micros) == 0 {
                bump(old(self).latency_under_1ms)
            } else {
                old(self).latency_under_1ms
            },
            final(self).latency_1_5ms == if MetricsRegistry::spec_bucket(micros) == 1 {
                bump(old(self).latency_1_5ms)
            } else {
                old(self).latency_1_5ms
            },
            final(self).latency_5_10ms == if MetricsRegistry::spec_bucket(micros) == 2 {
                bump(old(self).latency_5_10ms)
            } else {
                old(self).latency_5_10ms
            },
            final(self).latency_10_50ms == if MetricsRegistry::spec_bucket(micros) == 3 {
                bump(old(self).latency_10_50ms)
            } else {
                old(self).latency_10_50ms
            },
            final(self).latency_50_100ms == if MetricsRegistry::spec_bucket(micros) == 4 {
                bump(old(self).latency_50_100ms)
            } else {
                old(self).latency_50_100ms
            },
            final(self).latency_over_100ms == if MetricsRegistry::spec_bucket(micros) == 5 {
                bump(old(self).latency_over_100ms)
            } else {
                old(self).latency_over_100ms
            },
            final(self).decisions_total == old(self).decisions_total,
            final(self).decisions_allow == old(self).decisions_allow,
            final(self).decisions_soft_deny == old(self).decisions_soft_deny,
            final(self).decisions_hold == old(self).decisions_hold,
            final(self).decisions_review == old(self).decisions_review,
            final(self).decisions_reject == old(self).decisions_reject,
            final(self).rules_evaluated_total == old(self).rules_evaluated_total,
            final(self).rules_triggered_total == old(self).rules_triggered_total,
            final(self).wal_writes_total == old(self).wal_writes_total,
            final(self).wal_write_errors == old(self).wal_write_errors,
            final(self).policy_reloads_total == old(self).policy_reloads_total,
            final(self).policy_reload_errors == old(self).policy_reload_errors,
    {
        if micros < 1000 {
            self.latency_under_1ms = bump_counter(self.latency_under_1ms);
        } else if micros < 5000 {
            self.latency_1_5ms = bump_counter(self.latency_1_5ms);
        } else if micros < 10000 {
            self.latency_5_10ms = bump_counter(self.latency_5_10ms);
        } else if micros < 50000 {
            self.latency_10_50ms = bump_counter(self.latency_10_50ms);
        } else if micros < 100000 {
            self.latency_50_100ms = bump_counter(self.latency_50_100ms);
        } else {
            self.latency_over_100ms = bump_counter(self.latency_over_100ms);
        }
    }

    /// Record a rule evaluation, triggered or not.
    pub fn record_rule_evaluation(&mut self, triggered: bool)
        ensures
            final(self).rules_evaluated_total == bump(old(self).rules_evaluated_total),
            final(self).rules_triggered_total == if triggered {
                bump(old(self).rules_triggered_total)
            } else {
                old(self).rules_triggered_total
            },
            final(self).decisions_total == old(self).decisions_total,
            final(self).decisions_allow == old(self).decisions_allow,
            final(self).decisions_soft_deny == old(self).decisions_soft_deny,
            final(self).decisions_hold == old(self).decisions_hold,
            final(self).decisions_review == old(self).decisions_review,
            final(self).decisions_reject == old(self).decisions_reject,
            final(self).latency_under_1ms == old(self).latency_under_1ms,
            final(self).latency_1_5ms == old(self).latency_1_5ms,
            final(self).latency_5_10ms == old(self).latency_5_10ms,
            final(self).latency_10_50ms == old(self).latency_10_50ms,
            final(self).latency_50_100ms == old(self).latency_50_100ms,
            final(self).latency_over_100ms == old(self).latency_over_100ms,
            final(self).wal_writes_total == old(self).wal_writes_total,
            final(self).wal_write_errors == old(self).wal_write_errors,
            final(self).policy_reloads_total == old(self).policy_reloads_total,
            final(self).policy_reload_errors == old(self).policy_reload_errors,
    {
        self.rules_evaluated_total = bump_counter(self.rules_evaluated_total);
        if triggered {
            self.rules_triggered_total = bump_counter(self.rules_triggered_total);
        }
    }

    /// Record a WAL write, successful or not.
    pub fn record_wal_write(&mut self, success: bool)
        ensures
            final(self).wal_writes_total == bump(old(self).wal_writes_total),
            final(self).wal_write_errors == if success {
                old(self).wal_write_errors
            } else {
                bump(old(self).wal_write_errors)
            },
            final(self).decisions_total == old(self).decisions_total,
            final(self).decisions_allow == old(self).decisions_allow,
            final(self).decisions_soft_deny == old(self).decisions_soft_deny,
            final(self).decisions_hold == old(self).decisions_hold,
            final(self).decisions_review == old(self).decisions_review,
            final(self).decisions_reject == old(self).decisions_reject,
            final(self).latency_under_1ms == old(self).latency_under_1ms,
            final(self).latency_1_5ms == old(self).latency_1_5ms,
            final(self).latency_5_10ms == old(self).latency_5_10ms,
            final(self).latency_10_50ms == old(self).latency_10_50ms,
            final(self).latency_50_100ms == old(self).latency_50_100ms,
            final(self).latency_over_100ms == old(self).latency_over_100ms,
            final(self).rules_evaluated_total == old(self).rules_evaluated_total,
            final(self).rules_triggered_total == old(self).rules_triggered_total,
            final(self).policy_reloads_total == old(self).policy_reloads_total,
            final(self).policy_reload_errors == old(self).policy_reload_errors,
    {
        self.wal_writes_total = bump_counter(self.wal_writes_total);
        if !success {
            self.wal_write_errors = bump_counter(self.wal_write_errors);
        }
    }

    /// Record a policy reload, successful or not.
    pub fn record_policy_reload(&mut self, success: bool)
        ensures
            final(self).policy_reloads_total == bump(old(self).policy_reloads_total),
            final(self).policy_reload_errors == if success {
                old(self).policy_reload_errors
            } else {
                bump(old(self).policy_reload_errors)
            },
            final(self).decisions_total == old(self).decisions_total,
            final(self).decisions_allow == old(self).decisions_allow,
            final(self).decisions_soft_deny == old(self).decisions_soft_deny,
            final(self).decisions_hold == old(self).decisions_hold,
            final(self).decisions_review == old(self).decisions_review,
            final(self).decisions_reject == old(self).decisions_reject,
            final(self).latency_under_1ms == old(self).latency_under_1ms,
            final(self).latency_1_5ms == old(self).latency_1_5ms,
            final(self).latency_5_10ms == old(self).latency_5_10ms,
            final(self).latency_10_50ms == old(self).latency_10_50ms,
            final(self).latency_50_100ms == old(self).latency_50_100ms,
            final(self).latency_over_100ms == old(self).latency_over_100ms,
            final(self).rules_evaluated_total == old(self).rules_evaluated_total,
            final(self).rules_triggered_total == old(self).rules_triggered_total,
            final(self).wal_writes_total == old(self).wal_writes_total,
            final(self).wal_write_errors == old(self).wal_write_errors,
    {
        self.policy_reloads_total = bump_counter(self.policy_reloads_total);
        if !success {
            self.policy_reload_errors = bump_counter(self.policy_reload_errors);
        }
    }

    /// One exposition line: `name value` followed by a newline.
    pub open spec fn spec_metric_line(name: Seq<char>, value: u64) -> Seq<char> {
        name + seq![' '] + dec_digits(value as nat) + seq!['\n']
    }

    /// The full Prometheus text exposition.
    pub open spec fn spec_prometheus(self) -> Seq<char> {
        "# HELP riskr_decisions_total Total number of decision requests\n# TYPE riskr_decisions_total counter\n"@
            + MetricsRegistry::spec_metric_line("riskr_decisions_total"@, self.decisions_total)
            + "# HELP riskr_decisions Decision requests by outcome\n# TYPE riskr_decisions counter\n"@
            + MetricsRegistry::spec_metric_line(
            "riskr_decisions{outcome=\"allow\"}"@,
            self.decisions_allow,
        ) + MetricsRegistry::spec_metric_line(
            "riskr_decisions{outcome=\"soft_deny\"}"@,
            self.decisions_soft_deny,
        ) + MetricsRegistry::spec_metric_line(
            "riskr_decisions{outcome=\"hold\"}"@,
            self.decisions_hold,
        ) + MetricsRegistry::spec_metric_line(
            "riskr_decisions{outcome=\"review\"}"@,
            self.decisions_review,
        ) + MetricsRegistry::spec_metric_line(
            "riskr_decisions{outcome=\"reject\"}"@,
            self.decisions_reject,
        ) + "# HELP riskr_decision_latency_bucket Decision latency histogram\n# TYPE riskr_decision_latency_bucket counter\n"@
            + MetricsRegistry::spec_metric_line(
            "riskr_decision_latency_bucket{le=\"0.001\"}"@,
            self.latency_under_1ms,
        ) + MetricsRegistry::spec_metric_line(
            "riskr_decision_latency_bucket{le=\"0.005\"}"@,
            self.latency_1_5ms,
        ) + MetricsRegistry::spec_metric_line(
            "riskr_decision_latency_bucket{le=\"0.01\"}"@,
            self.latency_5_10ms,
        ) + MetricsRegistry::spec_metric_line(
            "riskr_decision_latency_bucket{le=\"0.05\"}"@,
            self.latency_10_50ms,
        ) + MetricsRegistry::spec_metric_line(
            "riskr_decision_latency_bucket{le=\"0.1\"}"@,
            self.latency_50_100ms,
        ) + MetricsRegistry::spec_metric_line(
            "riskr_decision_latency_bucket{le=\"+Inf\"}"@,
            self.latency_over_100ms,
        ) + "# HELP riskr_rules_evaluated_total Total rule evaluations\n# TYPE riskr_rules_evaluated_total counter\n"@
            + MetricsRegistry::spec_metric_line(
            "riskr_rules_evaluated_total"@,
            self.rules_evaluated_total,
        ) + "# HELP riskr_rules_triggered_total Total rules that triggered\n# TYPE riskr_rules_triggered_total counter\n"@
            + MetricsRegistry::spec_metric_line(
            "riskr_rules_triggered_total"@,
            self.rules_triggered_total,
        ) + "# HELP riskr_wal_writes_total Total WAL write operations\n# TYPE riskr_wal_writes_total counter\n"@
            + MetricsRegistry::spec_metric_line("riskr_wal_writes_total"@, self.wal_writes_total)
            + "# HELP riskr_wal_write_errors_total WAL write errors\n# TYPE riskr_wal_write_errors_total counter\n"@
            + MetricsRegistry::spec_metric_line(
            "riskr_wal_write_errors_total"@,
            self.wal_write_errors,
        ) + "# HELP riskr_policy_reloads_total Policy reload operations\n# TYPE riskr_policy_reloads_total counter\n"@
            + MetricsRegistry::spec_metric_line(
            "riskr_policy_reloads_total"@,
            self.policy_reloads_total,
        ) + "# HELP riskr_policy_reload_errors_total Policy reload errors\n# TYPE riskr_policy_reload_errors_total counter\n"@
            + MetricsRegistry::spec_metric_line(
            "riskr_policy_reload_errors_total"@,
            self.policy_reload_errors,
        )
    }

    /// Export the counters in Prometheus text exposition format.
    pub fn to_prometheus(&self) -> (r: String)
        ensures
            r@ == self.spec_prometheus(),
    {
        let mut out = String::new();
        append_header(
            &mut out,
            "# HELP riskr_decisions_total Total number of decision requests\n# TYPE riskr_decisions_total counter\n",
        );
        append_metric_line(&mut out, "riskr_decisions_total", self.decisions_total);
        append_header(
            &mut out,
            "# HELP riskr_decisions Decision requests by outcome\n# TYPE riskr_decisions counter\n",
        );
        append_metric_line(&mut out, "riskr_decisions{outcome=\"allow\"}", self.decisions_allow);
        append_metric_line(
            &mut out,
            "riskr_decisions{outcome=\"soft_deny\"}",
            self.decisions_soft_deny,
        );
        append_metric_line(&mut out, "riskr_decisions{outcome=\"hold\"}", self.decisions_hold);
        append_metric_line(&mut out, "riskr_decisions{outcome=\"review\"}", self.decisions_review);
        append_metric_line(&mut out, "riskr_decisions{outcome=\"reject\"}", self.decisions_reject);
        append_header(
            &mut out,
            "# HELP riskr_decision_latency_bucket Decision latency histogram\n# TYPE riskr_decision_latency_bucket counter\n",
        );
        append_metric_line(
            &mut out,
            "riskr_decision_latency_bucket{le=\"0.001\"}",
            self.latency_under_1ms,
        );
        append_metric_line(
            &mut out,
            "riskr_decision_latency_bucket{le=\"0.005\"}",
            self.latency_1_5ms,
        );
        append_metric_line(
            &mut out,
            "riskr_decision_latency_bucket{le=\"0.01\"}",
            self.latency_5_10ms,
        );
        append_metric_line(
            &mut out,
            "riskr_decision_latency_bucket{le=\"0.05\"}",
            self.latency_10_50ms,
        );
        append_metric_line(
            &mut out,
            "riskr_decision_latency_bucket{le=\"0.1\"}",
            self.latency_50_100ms,
        );
        append_metric_line(
            &mut out,
            "riskr_decision_latency_bucket{le=\"+Inf\"}",
            self.latency_over_100ms,
        );
        append_header(
            &mut out,
            "# HELP riskr_rules_evaluated_total Total rule evaluations\n# TYPE riskr_rules_evaluated_total counter\n",
        );
        append_metric_line(&mut out, "riskr_rules_evaluated_total", self.rules_evaluated_total);
        append_header(
            &mut out,
            "# HELP riskr_rules_triggered_total Total rules that triggered\n# TYPE riskr_rules_triggered_total counter\n",
        );
        append_metric_line(&mut out, "riskr_rules_triggered_total", self.rules_triggered_total);
        append_header(
            &mut out,
            "# HELP riskr_wal_writes_total Total WAL write operations\n# TYPE riskr_wal_writes_total counter\n",
        );
        append_metric_line(&mut out, "riskr_wal_writes_total", self.wal_writes_total);
        append_header(
            &mut out,
            "# HELP riskr_wal_write_errors_total WAL write errors\n# TYPE riskr_wal_write_errors_total counter\n",
        );
        append_metric_line(&mut out, "riskr_wal_write_errors_total", self.wal_write_errors);
        append_header(
            &mut out,
            "# HELP riskr_policy_reloads_total Policy reload operations\n# TYPE riskr_policy_reloads_total counter\n",
        );
        append_metric_line(&mut out, "riskr_policy_reloads_total", self.policy_reloads_total);
        append_header(
            &mut out,
            "# HELP riskr_policy_reload_errors_total Policy reload errors\n# TYPE riskr_policy_reload_errors_total counter\n",
        );
        append_metric_line(&mut out, "riskr_policy_reload_errors_total", self.policy_reload_errors);
        out
    }
}

/// Append a fixed header block.
fn append_header(out: &mut String, header: &str)
    ensures
        final(out)@ == old(out)@ + header@,
{
    out.append(header);
}

/// Append one `name value` line.
fn append_metric_line(out: &mut String, name: &str, value: u64)
    ensures
        final(out)@ == old(out)@ + MetricsRegistry::spec_metric_line(name@, value),
{
    out.append(name);
    out.append(" ");
    let v = text::u64_to_string(value);
    out.append(v.as_str());
    out.append("\n");
    proof {
        reveal_strlit(" ");
        reveal_strlit("\n");
        assert(" "@ =~= seq![' ']);
        assert("\n"@ =~= seq!['\n']);
        assert(out@ =~= old(out)@ + MetricsRegistry::spec_metric_line(name@, value));
    }
}

} // verus!
