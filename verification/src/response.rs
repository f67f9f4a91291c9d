//! Response records returned by the decision pipeline and the service
//! endpoints.

use vstd::prelude::*;
use crate::decision::Decision;
use crate::event::spec_pick_code;
use crate::evidence::Evidence;

verus! {

use vstd::string::StringExecFns;

/// Response from a decision check.
#[derive(Debug)]
pub struct DecisionResponse {
    /// The decision outcome
    pub decision: Decision,
    /// Human-readable decision code
    pub decision_code: String,
    /// Policy version used for this decision
    pub policy_version: String,
    /// Evidence from triggered rules
    pub evidence: Vec<Evidence>,
    /// When this decision expires, in epoch milliseconds (if applicable)
    pub expires_at_ms: Option<i64>,
}

impl DecisionResponse {
    /// Create a new decision response. The decision code is the first
    /// evidence record's rule id, or "OK" when no rule fired.
    pub fn new(decision: Decision, policy_version: String, evidence: Vec<Evidence>) -> (r:
        DecisionResponse)
        ensures
            r.decision == decision,
            r.decision_code@ == spec_pick_code(evidence@.map_values(|e: Evidence| e@)),
            r.policy_version == policy_version,
            r.evidence == evidence,
            r.expires_at_ms is None,
    {
        let decision_code: String = if evidence.len() == 0 {
            String::from_str("OK")
        } else {
            evidence[0].rule_id.clone()
        };
        proof {
            if evidence@.len() > 0 {
                assert(evidence@.map_values(|e: Evidence| e@)[0] == evidence@[0]@);
            }
        }
        DecisionResponse { decision, decision_code, policy_version, evidence, expires_at_ms: None }
    }

    /// Create an allow response with no evidence.
    pub fn allow(policy_version: String) -> (r: DecisionResponse)
        ensures
            r.decision == Decision::Allow,
            r.decision_code@ == "OK"@,
            r.policy_version == policy_version,
            r.evidence@.len() == 0,
            r.expires_at_ms is None,
    {
        DecisionResponse {
            decision: Decision::Allow,
            decision_code: String::from_str("OK"),
            policy_version,
            evidence: Vec::new(),
            expires_at_ms: None,
        }
    }
}

/// Health check response.
#[derive(Debug)]
pub struct HealthResponse {
    pub status: String,
    pub version: String,
    pub policy_version: String,
    pub uptime_secs: u64,
}

/// Readiness check response.
#[derive(Debug)]
pub struct ReadyResponse {
    pub ready: bool,
    pub policy_version: String,
    pub inline_rules: usize,
    pub streaming_rules: usize,
}

/// Error response.
#[derive(Debug)]
pub struct ErrorResponse {
    pub error: String,
    pub code: String,
}

impl ErrorResponse {
    pub fn new(error: &str, code: &str) -> (r: ErrorResponse)
        ensures
            r.error@ == error@,
            r.code@ == code@,
    {
        ErrorResponse { error: String::from_str(error), code: String::from_str(code) }
    }

    pub fn bad_request(message: &str) -> (r: ErrorResponse)
        ensures
            r.error@ == message@,
            r.code@ == "BAD_REQUEST"@,
    {
        ErrorResponse::new(message, "BAD_REQUEST")
    }

    pub fn internal_error(message: &str) -> (r: ErrorResponse)
        ensures
            r.error@ == message@,
            r.code@ == "INTERNAL_ERROR"@,
    {
        ErrorResponse::new(message, "INTERNAL_ERROR")
    }
}

} // verus!
