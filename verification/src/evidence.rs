//! Evidence captured when a rule triggers, and the uniform result record
//! that every rule evaluation returns.

use vstd::prelude::*;
use crate::decision::Decision;

verus! {

use vstd::string::StringExecFns;

/// Audit-trail record for a rule firing: which rule, what was checked,
/// the offending value, and the limit that was exceeded, if any.
#[derive(Debug)]
pub struct Evidence {
    /// The rule that triggered
    pub rule_id: String,
    /// Key identifying what was checked (e.g., "address", "geo_iso")
    pub key: String,
    /// The actual value that triggered the rule
    pub value: String,
    /// The threshold/limit that was exceeded (if applicable)
    pub limit: Option<String>,
}

/// The ghost shape of an `Evidence` record.
pub ghost struct EvidenceView {
    pub rule_id: Seq<char>,
    pub key: Seq<char>,
    pub value: Seq<char>,
    pub limit: Option<Seq<char>>,
}

impl View for Evidence {
    type V = EvidenceView;

    open spec fn view(&self) -> EvidenceView {
        EvidenceView {
            rule_id: self.rule_id@,
            key: self.key@,
            value: self.value@,
            limit: match self.limit {
                Some(ref l) => Some(l@),
                None => None,
            },
        }
    }
}

impl Clone for Evidence {
    /// Cloning preserves every field.
    fn clone(&self) -> (r: Self)
        ensures
            r@ == self@,
    {
        Evidence {
            rule_id: self.rule_id.clone(),
            key: self.key.clone(),
            value: self.value.clone(),
            limit: match &self.limit {
                Some(l) => Some(l.clone()),
                None => None,
            },
        }
    }
}

impl Evidence {
    /// Create evidence for a rule hit, with no limit attached.
    pub fn new(rule_id: &str, key: &str, value: &str) -> (r: Evidence)
        ensures
            r@ == (EvidenceView {
                rule_id: rule_id@,
                key: key@,
                value: value@,
                limit: None,
            }),
    {
        Evidence {
            rule_id: String::from_str(rule_id),
            key: String::from_str(key),
            value: String::from_str(value),
            limit: None,
        }
    }

    /// Create evidence with a limit/threshold.
    pub fn with_limit(rule_id: &str, key: &str, value: &str, limit: &str) -> (r: Evidence)
        ensures
            r@ == (EvidenceView {
                rule_id: rule_id@,
                key: key@,
                value: value@,
                limit: Some(limit@),
            }),
    {
        Evidence {
            rule_id: String::from_str(rule_id),
            key: String::from_str(key),
            value: String::from_str(value),
            limit: Some(String::from_str(limit)),
        }
    }
}

/// Result of evaluating a rule.
#[derive(Debug)]
pub struct RuleResult {
    /// Whether the rule triggered
    pub hit: bool,
    /// The decision if the rule triggered
    pub decision: Decision,
    /// Evidence if the rule triggered
    pub evidence: Option<Evidence>,
}

/// The ghost shape of a `RuleResult`.
pub ghost struct RuleResultView {
    pub hit: bool,
    pub decision: Decision,
    pub evidence: Option<EvidenceView>,
}

impl View for RuleResult {
    type V = RuleResultView;

    open spec fn view(&self) -> RuleResultView {
        RuleResultView {
            hit: self.hit,
            decision: self.decision,
            evidence: match self.evidence {
                Some(ref e) => Some(e@),
                None => None,
            },
        }
    }
}

impl Clone for RuleResult {
    /// Cloning preserves the whole record.
    fn clone(&self) -> (r: Self)
        ensures
            r@ == self@,
            r.hit == self.hit,
            r.decision == self.decision,
            r.wf() == self.wf(),
    {
        RuleResult {
            hit: self.hit,
            decision: self.decision,
            evidence: match &self.evidence {
                Some(e) => Some(e.clone()),
                None => None,
            },
        }
    }
}

impl RuleResult {
    /// A result that did not trigger carries the least severe decision and
    /// no evidence.
    pub open spec fn wf(self) -> bool {
        !self.hit ==> self.decision == Decision::Allow && self.evidence is None
    }

    /// Create an allowing result (rule did not trigger).
    pub fn allow() -> (r: RuleResult)
        ensures
            r.hit == false,
            r.decision == Decision::Allow,
            r.evidence is None,
            r.wf(),
    {
        RuleResult { hit: false, decision: Decision::Allow, evidence: None }
    }

    /// Create a triggering result with evidence.
    pub fn trigger(decision: Decision, evidence: Evidence) -> (r: RuleResult)
        ensures
            r.hit == true,
            r.decision == decision,
            r.evidence matches Some(e) && e@ == evidence@,
            r.wf(),
    {
        RuleResult { hit: true, decision, evidence: Some(evidence) }
    }

    /// Combine two results, keeping the one with the more severe decision;
    /// on a tie the receiver wins.
    pub fn combine(self, other: Self) -> (r: Self)
        ensures
            r == self.spec_combine(other),
    {
        if other.decision.severity() > self.decision.severity() {
            other
        } else {
            self
        }
    }

    /// The combination rule: the more severe decision's whole record, the
    /// receiver on ties.
    pub open spec fn spec_combine(self, other: Self) -> Self {
        if other.decision.spec_severity() > self.decision.spec_severity() {
            other
        } else {
            self
        }
    }
}

impl Default for RuleResult {
    /// The default result is the allowing one.
    fn default() -> (r: Self)
        ensures
            r.hit == false,
            r.decision == Decision::Allow,
            r.evidence is None,
    {
        RuleResult::allow()
    }
}

} // verus!
