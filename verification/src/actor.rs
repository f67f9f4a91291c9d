//! A user actor: the exclusively-owned state container for one subject.
//! Streaming rules are passed in per evaluation, so a ruleset replacement
//! needs no per-actor update.

use vstd::prelude::*;
use crate::evidence::{RuleResult, RuleResultView};
use crate::event::TxEvent;
use crate::rules_inline::allow_view;
use crate::rules_streaming::StreamingRule;
use crate::state::{add_tx_spec, prune_spec, TxEntry, UserState};

verus! {

/// The per-rule results of evaluating a list of streaming rules against
/// one event and one state, in rule order.
pub open spec fn spec_streaming_results(
    rules: Seq<StreamingRule>,
    event: TxEvent,
    entries: Seq<TxEntry>,
    now: int,
) -> Seq<RuleResultView> {
    rules.map_values(|r: StreamingRule| r.spec_eval(event, entries, now))
}

/// Joining a list of results: the record with the most severe decision
/// wins; the earlier record wins ties.
pub open spec fn combine_view(a: RuleResultView, b: RuleResultView) -> RuleResultView {
    if b.decision.spec_severity() > a.decision.spec_severity() {
        b
    } else {
        a
    }
}

/// The join of a whole result list, starting from the allowing result.
pub open spec fn combine_all(results: Seq<RuleResultView>) -> RuleResultView
    decreases results.len(),
{
    if results.len() == 0 {
        allow_view()
    } else {
        combine_view(combine_all(results.drop_last()), results.last())
    }
}

/// Actor owning a single user's rolling-window state.
#[derive(Debug)]
pub struct UserActor {
    /// The user's rolling window state
    pub state: UserState,
}

impl UserActor {
    /// Create a new user actor with empty state.
    pub fn new(user_id: String, now_ms: i64) -> (r: UserActor)
        ensures
            r.state.wf(),
            r.state.spec_user_id() == user_id@,
            r.state@ == Seq::<TxEntry>::empty(),
            r.state.spec_last_access() == now_ms,
    {
        UserActor { state: UserState::new(user_id, now_ms) }
    }

    /// Create a user actor with existing state (for recovery).
    pub fn with_state(state: UserState) -> (r: UserActor)
        ensures
            r.state == state,
    {
        UserActor { state }
    }

    /// Get the user ID.
    pub fn user_id(&self) -> (r: &str)
        ensures
            r@ == self.state.spec_user_id(),
    {
        self.state.user_id()
    }

    /// Get read access to the user's state.
    pub fn state(&self) -> (r: &UserState)
        ensures
            r == &self.state,
    {
        &self.state
    }

    /// Evaluate each streaming rule in order against the pruned state.
    /// Does not mutate state.
    pub fn evaluate_all(&self, rules: &Vec<StreamingRule>, event: &TxEvent, now_ms: i64) -> (r:
        Vec<RuleResult>)
        requires
            self.state.wf(),
            event.usd_value.tx_sized(),
        ensures
            r@.map_values(|x: RuleResult| x@) == spec_streaming_results(
                rules@,
                *event,
                self.state@,
                now_ms as int,
            ),
            forall|i: int| 0 <= i < r@.len() ==> (#[trigger] r@[i]).wf(),
    {
        let mut out: Vec<RuleResult> = Vec::new();
        let mut i: usize = 0;
        while i < rules.len()
            invariant
                i <= rules@.len(),
                self.state.wf(),
                event.usd_value.tx_sized(),
                out@.len() == i,
                forall|j: int|
                    0 <= j < i ==> (#[trigger] out@[j])@ == rules@[j].spec_eval(
                        *event,
                        self.state@,
                        now_ms as int,
                    ),
                forall|j: int| 0 <= j < out@.len() ==> (#[trigger] out@[j]).wf(),
            decreases rules@.len() - i,
        {
            let result = rules[i].evaluate(event, &self.state, now_ms);
            out.push(result);
            i = i + 1;
        }
        proof {
            assert(out@.map_values(|x: RuleResult| x@) =~= spec_streaming_results(
                rules@,
                *event,
                self.state@,
                now_ms as int,
            ));
        }
        out
    }

    /// Run the streaming phase for one transaction: prune expired
    /// entries, evaluate every rule in order against the pruned state,
    /// then append the transaction. Returns the per-rule results.
    pub fn run_streaming(&mut self, rules: &Vec<StreamingRule>, event: &TxEvent, now_ms: i64) -> (r:
        Vec<RuleResult>)
        requires
            old(self).state.wf(),
            event.usd_value.tx_sized(),
        ensures
            final(self).state.wf(),
            final(self).state@ == add_tx_spec(
                prune_spec(old(self).state@, now_ms as int),
                TxEntry { timestamp_ms: event.occurred_at_ms, usd_value: event.usd_value },
            ),
            final(self).state.spec_user_id() == old(self).state.spec_user_id(),
            final(self).state.spec_last_access() == now_ms,
            r@.map_values(|x: RuleResult| x@) == spec_streaming_results(
                rules@,
                *event,
                prune_spec(old(self).state@, now_ms as int),
                now_ms as int,
            ),
            forall|i: int| 0 <= i < r@.len() ==> (#[trigger] r@[i]).wf(),
    {
        self.state.prune_expired(now_ms);
        let results = self.evaluate_all(rules, event, now_ms);
        self.state.add_tx(TxEntry::new(event.occurred_at_ms, event.usd_value), now_ms);
        results
    }

    /// Evaluate streaming rules for a transaction: prune expired entries,
    /// evaluate all rules against the pruned state, then append the
    /// transaction. Returns the combined result.
    pub fn evaluate(&mut self, rules: &Vec<StreamingRule>, event: &TxEvent, now_ms: i64) -> (r:
        RuleResult)
        requires
            old(self).state.wf(),
            event.usd_value.tx_sized(),
        ensures
            final(self).state.wf(),
            final(self).state@ == add_tx_spec(
                prune_spec(old(self).state@, now_ms as int),
                TxEntry { timestamp_ms: event.occurred_at_ms, usd_value: event.usd_value },
            ),
            final(self).state.spec_user_id() == old(self).state.spec_user_id(),
            final(self).state.spec_last_access() == now_ms,
            r@ == combine_all(
                spec_streaming_results(
                    rules@,
                    *event,
                    prune_spec(old(self).state@, now_ms as int),
                    now_ms as int,
                ),
            ),
            r.wf(),
    {
        let results = self.run_streaming(rules, event, now_ms);
        let mut combined = RuleResult::allow();
        let mut i: usize = 0;
        let ghost views = results@.map_values(|x: RuleResult| x@);
        while i < results.len()
            invariant
                i <= results@.len(),
                views == results@.map_values(|x: RuleResult| x@),
                combined@ == combine_all(views.subrange(0, i as int)),
                combined.wf(),
                forall|j: int| 0 <= j < results@.len() ==> (#[trigger] results@[j]).wf(),
            decreases results@.len() - i,
        {
            proof {
                assert(views.subrange(0, (i + 1) as int).drop_last() =~= views.subrange(
                    0,
                    i as int,
                ));
                assert(views.subrange(0, (i + 1) as int).last() == views[i as int]);
            }
            let next = results[i].clone();
            combined = combined.combine(next);
            i = i + 1;
        }
        proof {
            assert(views.subrange(0, views.len() as int) =~= views);
        }
        combined
    }

    /// Check if this actor is idle: no access within the threshold.
    pub fn is_idle(&self, idle_threshold_secs: i64, now_ms: i64) -> (r: bool)
        ensures
            r == (now_ms - self.state.spec_last_access() > idle_threshold_secs * 1000),
    {
        (now_ms as i128) - (self.state.last_access_ms() as i128) > (idle_threshold_secs as i128)
            * 1000
    }

    /// Get the number of transactions in state.
    pub fn entry_count(&self) -> (r: usize)
        ensures
            r == self.state@.len(),
    {
        self.state.entry_count()
    }
}

} // verus!
