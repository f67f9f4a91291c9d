//! Stateful streaming rules, evaluated against the subject's rolling
//! 24-hour window. Evaluation reads state and the event; it never mutates
//! state — the pipeline appends the transaction after evaluation.

use vstd::prelude::*;
use crate::decision::Decision;
use crate::evidence::{Evidence, EvidenceView, RuleResult, RuleResultView};
use crate::event::TxEvent;
use crate::rules_inline::allow_view;
use crate::state::{rolling_sum, small_count, TxEntry, UserState, MAX_TX_ENTRIES};
use crate::text;
use crate::usd::{usd_chars, Usd, TX_ABS_MAX_CENTS};

verus! {

/// Daily USD volume limit rule: triggers when the rolling 24-hour volume
/// plus the current transaction strictly exceeds the limit.
#[derive(Debug)]
pub struct DailyVolumeRule {
    /// Unique rule identifier
    pub id: String,
    /// Action when the rule triggers
    pub action: Decision,
    /// Daily volume limit in USD
    pub limit: Usd,
}

impl DailyVolumeRule {
    /// What evaluation returns, as a function of the rule, the event and
    /// the state's entries at the evaluation time.
    pub open spec fn spec_eval(self, event: TxEvent, entries: Seq<TxEntry>, now: int) -> RuleResultView {
        let total = rolling_sum(entries, now) + event.usd_value@;
        if total > self.limit@ {
            RuleResultView {
                hit: true,
                decision: self.action,
                evidence: Some(
                    EvidenceView {
                        rule_id: self.id@,
                        key: "daily_usd"@,
                        value: usd_chars(total),
                        limit: Some(usd_chars(self.limit@)),
                    },
                ),
            }
        } else {
            allow_view()
        }
    }

    /// Create a new daily volume rule.
    pub fn new(id: String, action: Decision, limit: Usd) -> (r: DailyVolumeRule)
        ensures
            r.id@ == id@,
            r.action == action,
            r.limit == limit,
    {
        DailyVolumeRule { id, action, limit }
    }

    /// The rule identifier.
    pub fn id(&self) -> (r: &str)
        ensures
            r@ == self.id@,
    {
        self.id.as_str()
    }

    /// Evaluate against the rolling window: the new total is the exact sum
    /// of the in-window entries plus this transaction's value.
    pub fn evaluate(&self, event: &TxEvent, state: &UserState, now_ms: i64) -> (r: RuleResult)
        requires
            state.wf(),
            event.usd_value.tx_sized(),
        ensures
            r@ == self.spec_eval(*event, state@, now_ms as int),
            r.wf(),
    {
        let current: Usd = state.rolling_usd_24h(now_ms);
        proof {
            crate::state::lemma_rolling_sum_bound(state@, now_ms as int);
            assert((state@.len() as int) * TX_ABS_MAX_CENTS <= MAX_TX_ENTRIES
                * TX_ABS_MAX_CENTS) by (nonlinear_arith)
                requires
                    state@.len() <= MAX_TX_ENTRIES,
            ;
        }
        let total_cents: i64 = current.cents() + event.usd_value.cents();
        let total = Usd::from_cents(total_cents);
        if total.gt(&self.limit) {
            let value = total.to_string();
            let limit = self.limit.to_string();
            return RuleResult::trigger(
                self.action,
                Evidence::with_limit(
                    self.id.as_str(),
                    "daily_usd",
                    value.as_str(),
                    limit.as_str(),
                ),
            );
        }
        RuleResult::allow()
    }
}

/// Structuring detection rule: counts small transactions in the window
/// and triggers when the count, including the current transaction if it
/// is small, strictly exceeds the threshold. "Small" is strictly below
/// the amount threshold.
#[derive(Debug)]
pub struct StructuringRule {
    /// Unique rule identifier
    pub id: String,
    /// Action when the rule triggers
    pub action: Decision,
    /// Threshold below which a transaction is considered "small"
    pub amount_threshold: Usd,
    /// Number of small transactions to trigger the rule
    pub count_threshold: u32,
}

impl StructuringRule {
    /// The total count the rule considers: in-window entries strictly
    /// below the threshold, plus one if the current transaction is small.
    pub open spec fn spec_total(self, event: TxEvent, entries: Seq<TxEntry>, now: int) -> int {
        small_count(entries, now, self.amount_threshold@) + if event.usd_value@
            < self.amount_threshold@ {
            1int
        } else {
            0int
        }
    }

    /// What evaluation returns.
    pub open spec fn spec_eval(self, event: TxEvent, entries: Seq<TxEntry>, now: int) -> RuleResultView {
        let total = self.spec_total(event, entries, now);
        if total > self.count_threshold {
            RuleResultView {
                hit: true,
                decision: self.action,
                evidence: Some(
                    EvidenceView {
                        rule_id: self.id@,
                        key: "small_cnt_24h"@,
                        value: text::dec_digits(total as nat),
                        limit: Some(text::dec_digits(self.count_threshold as nat)),
                    },
                ),
            }
        } else {
            allow_view()
        }
    }

    /// Create a new structuring detection rule.
    pub fn new(id: String, action: Decision, amount_threshold: Usd, count_threshold: u32) -> (r:
        StructuringRule)
        ensures
            r.id@ == id@,
            r.action == action,
            r.amount_threshold == amount_threshold,
            r.count_threshold == count_threshold,
    {
        StructuringRule { id, action, amount_threshold, count_threshold }
    }

    /// The rule identifier.
    pub fn id(&self) -> (r: &str)
        ensures
            r@ == self.id@,
    {
        self.id.as_str()
    }

    /// Evaluate against the rolling window: the count is exact.
    pub fn evaluate(&self, event: &TxEvent, state: &UserState, now_ms: i64) -> (r: RuleResult)
        requires
            state.wf(),
        ensures
            r@ == self.spec_eval(*event, state@, now_ms as int),
            r.wf(),
    {
        let small: u64 = state.count_small_tx(&self.amount_threshold, now_ms);
        proof {
            lemma_small_count_bounds(state@, now_ms as int, self.amount_threshold@);
        }
        let current_is_small: bool = event.usd_value.lt(&self.amount_threshold);
        let total: u64 = if current_is_small {
            small + 1
        } else {
            small
        };
        if total > self.count_threshold as u64 {
            let value = text::u64_to_string(total);
            let limit = text::u64_to_string(self.count_threshold as u64);
            return RuleResult::trigger(
                self.action,
                Evidence::with_limit(
                    self.id.as_str(),
                    "small_cnt_24h",
                    value.as_str(),
                    limit.as_str(),
                ),
            );
        }
        RuleResult::allow()
    }
}

/// The small-transaction count lies between zero and the entry count.
pub proof fn lemma_small_count_bounds(s: Seq<TxEntry>, now: int, threshold: int)
    ensures
        0 <= small_count(s, now, threshold) <= s.len(),
    decreases s.len(),
{
    if s.len() > 0 {
        lemma_small_count_bounds(s.drop_last(), now, threshold);
    }
}

/// The closed set of streaming rule kinds.
#[derive(Debug)]
pub enum StreamingRule {
    DailyVolume(DailyVolumeRule),
    Structuring(StructuringRule),
}

impl StreamingRule {
    /// What evaluating this rule returns.
    pub open spec fn spec_eval(self, event: TxEvent, entries: Seq<TxEntry>, now: int) -> RuleResultView {
        match self {
            StreamingRule::DailyVolume(r) => r.spec_eval(event, entries, now),
            StreamingRule::Structuring(r) => r.spec_eval(event, entries, now),
        }
    }

    /// The rule identifier.
    pub open spec fn spec_id(self) -> Seq<char> {
        match self {
            StreamingRule::DailyVolume(r) => r.id@,
            StreamingRule::Structuring(r) => r.id@,
        }
    }

    /// The rule identifier.
    pub fn id(&self) -> (r: &str)
        ensures
            r@ == self.spec_id(),
    {
        match self {
            StreamingRule::DailyVolume(r) => r.id(),
            StreamingRule::Structuring(r) => r.id(),
        }
    }

    /// Evaluate the rule against a transaction and the subject's state.
    pub fn evaluate(&self, event: &TxEvent, state: &UserState, now_ms: i64) -> (r: RuleResult)
        requires
            state.wf(),
            event.usd_value.tx_sized(),
        ensures
            r@ == self.spec_eval(*event, state@, now_ms as int),
            r.wf(),
    {
        match self {
            StreamingRule::DailyVolume(rule) => rule.evaluate(event, state, now_ms),
            StreamingRule::Structuring(rule) => rule.evaluate(event, state, now_ms),
        }
    }
}

} // verus!
