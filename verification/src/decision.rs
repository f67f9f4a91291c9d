//! The decision ladder: a totally ordered enumeration of five severities.
//! Severity combination is pointwise maximum; `RejectFatal` is the sticky
//! top element on which the pipeline may short-circuit.

use vstd::prelude::*;
use crate::text;

verus! {

/// Risk decision outcome with severity ordering, least to most severe.
#[derive(Debug, Clone, Copy, PartialEq, Eq, PartialOrd, Ord, Hash, Structural)]
pub enum Decision {
    /// Transaction approved
    Allow,
    /// Temporary denial, client may retry
    SoftDenyRetry,
    /// Automatic hold for processing
    HoldAuto,
    /// Requires manual review
    Review,
    /// Permanently rejected (fatal compliance violation)
    RejectFatal,
}

impl Decision {
    /// The numeric severity rank of a decision.
    pub open spec fn spec_severity(self) -> u8 {
        match self {
            Decision::Allow => 0,
            Decision::SoftDenyRetry => 1,
            Decision::HoldAuto => 2,
            Decision::Review => 3,
            Decision::RejectFatal => 4,
        }
    }

    /// The more severe of two decisions; on a tie, either (they are equal).
    pub open spec fn spec_max(self, other: Self) -> Self {
        if other.spec_severity() > self.spec_severity() {
            other
        } else {
            self
        }
    }

    /// Returns the severity rank (0-4).
    pub fn severity(&self) -> (r: u8)
        ensures
            r == self.spec_severity(),
    {
        match self {
            Decision::Allow => 0,
            Decision::SoftDenyRetry => 1,
            Decision::HoldAuto => 2,
            Decision::Review => 3,
            Decision::RejectFatal => 4,
        }
    }

    /// Returns the more severe of two decisions.
    pub fn max(self, other: Self) -> (r: Self)
        ensures
            r == self.spec_max(other),
            r.spec_severity() >= self.spec_severity(),
            r.spec_severity() >= other.spec_severity(),
            r == self || r == other,
    {
        if other.severity() > self.severity() {
            other
        } else {
            self
        }
    }

    /// Returns true if this is a fatal rejection.
    pub fn is_fatal(&self) -> (r: bool)
        ensures
            r == (*self == Decision::RejectFatal),
    {
        matches!(self, Decision::RejectFatal)
    }

    /// Returns true if this decision allows the transaction.
    pub fn is_allowed(&self) -> (r: bool)
        ensures
            r == (*self == Decision::Allow),
    {
        matches!(self, Decision::Allow)
    }

    /// Returns true if this decision requires some form of hold or review.
    pub fn requires_action(&self) -> (r: bool)
        ensures
            r == (*self == Decision::HoldAuto || *self == Decision::Review),
    {
        matches!(self, Decision::HoldAuto | Decision::Review)
    }

    /// The canonical SCREAMING_SNAKE_CASE name of a decision.
    pub open spec fn spec_name(self) -> Seq<char> {
        match self {
            Decision::Allow => "ALLOW"@,
            Decision::SoftDenyRetry => "SOFT_DENY_RETRY"@,
            Decision::HoldAuto => "HOLD_AUTO"@,
            Decision::Review => "REVIEW"@,
            Decision::RejectFatal => "REJECT_FATAL"@,
        }
    }

    /// The canonical name of the decision.
    pub fn as_str(&self) -> (r: &'static str)
        ensures
            r@ == self.spec_name(),
    {
        match self {
            Decision::Allow => "ALLOW",
            Decision::SoftDenyRetry => "SOFT_DENY_RETRY",
            Decision::HoldAuto => "HOLD_AUTO",
            Decision::Review => "REVIEW",
            Decision::RejectFatal => "REJECT_FATAL",
        }
    }

    /// The decision whose canonical name matches the given uppercased
    /// characters, if any.
    pub open spec fn spec_of_name(s: Seq<char>) -> Option<Decision> {
        if s == "ALLOW"@ {
            Some(Decision::Allow)
        } else if s == "SOFT_DENY_RETRY"@ {
            Some(Decision::SoftDenyRetry)
        } else if s == "HOLD_AUTO"@ {
            Some(Decision::HoldAuto)
        } else if s == "REVIEW"@ {
            Some(Decision::Review)
        } else if s == "REJECT_FATAL"@ {
            Some(Decision::RejectFatal)
        } else {
            None
        }
    }

    /// Parse from a string representation, case-insensitively.
    pub fn from_str(s: &str) -> (r: Option<Decision>)
        ensures
            r == Decision::spec_of_name(text::upper_seq(s@)),
    {
        let upper = text::ascii_upper(s);
        if text::str_eq(upper.as_str(), "ALLOW") {
            Some(Decision::Allow)
        } else if text::str_eq(upper.as_str(), "SOFT_DENY_RETRY") {
            Some(Decision::SoftDenyRetry)
        } else if text::str_eq(upper.as_str(), "HOLD_AUTO") {
            Some(Decision::HoldAuto)
        } else if text::str_eq(upper.as_str(), "REVIEW") {
            Some(Decision::Review)
        } else if text::str_eq(upper.as_str(), "REJECT_FATAL") {
            Some(Decision::RejectFatal)
        } else {
            None
        }
    }
}

impl Default for Decision {
    /// The default decision is the least severe one.
    fn default() -> (r: Self)
        ensures
            r == Decision::Allow,
    {
        Decision::Allow
    }
}

/// Severity join is commutative up to severity, associative, idempotent,
/// and has `Allow` as its unit: the shape that makes "final decision is
/// the severity-maximum of all triggered decisions" well defined.
pub proof fn lemma_decision_max_algebra(a: Decision, b: Decision, c: Decision)
    ensures
        a.spec_max(a) == a,
        a.spec_max(b).spec_severity() == b.spec_max(a).spec_severity(),
        a.spec_max(b).spec_max(c) == a.spec_max(b.spec_max(c)),
        Decision::Allow.spec_max(a) == a,
{
}

} // verus!
