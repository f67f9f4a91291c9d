//! The decision pipeline: derive an event from a request, evaluate the
//! inline rules in order, short-circuit on a fatal outcome, otherwise run
//! the streaming rules under the subject's actor and append the
//! transaction, then assemble the response and the durability record.

use vstd::prelude::*;
use crate::decision::Decision;
use crate::event::{EventId, TxEvent};
use crate::evidence::{Evidence, EvidenceView, RuleResult, RuleResultView};
use crate::pool::ActorPool;
use crate::response::DecisionResponse;
use crate::rules_inline::InlineRule;
use crate::ruleset::RuleSet;
use crate::state::{add_tx_spec, prune_spec, TxEntry};
use crate::subject::{AccountId, Address, CountryCode, KycTier, Subject, UserId};
use crate::text;
use crate::usd::Usd;
use crate::wal::{entry_wf, WalEntry, WalEntryView};
use crate::actor::spec_streaming_results;

verus! {

use vstd::string::StringExecFns;

/// Subject portion of a decision request.
#[derive(Debug, Clone)]
pub struct SubjectRequest {
    pub user_id: String,
    pub account_id: String,
    pub addresses: Vec<String>,
    pub geo_iso: String,
    pub kyc_tier: String,
}

/// Transaction portion of a decision request.
#[derive(Debug, Clone)]
pub struct TxRequest {
    /// Transaction type (withdraw, deposit, etc.)
    pub tx_type: String,
    /// Asset being transferred
    pub asset: String,
    /// Amount in base units (string for precision)
    pub amount: String,
    /// USD value of the transaction
    pub usd_value: Usd,
    /// Destination address (for withdrawals)
    pub dest_address: Option<String>,
}

/// Request for a decision check, already decoded from the wire.
#[derive(Debug, Clone)]
pub struct DecisionRequest {
    pub subject: SubjectRequest,
    pub tx: TxRequest,
}

impl DecisionRequest {
    /// Convert to a `TxEvent` for rule evaluation: parse the KYC tier
    /// (defaulting to the lowest), normalize addresses and country, and
    /// map a transaction type containing "withdraw" (case-insensitively)
    /// to the outbound direction.
    pub fn to_tx_event(&self, now_ms: i64) -> (r: TxEvent)
        ensures
            r.subject.user_id@ == self.subject.user_id@,
            r.subject.account_id@ == self.subject.account_id@,
            r.subject.spec_addresses() == self.subject.addresses@.map_values(
                |a: String| text::lower_seq(a@),
            ),
            r.subject.geo_iso@ == text::upper_seq(self.subject.geo_iso@),
            r.subject.kyc_tier == (match KycTier::spec_of_name(
                text::upper_seq(self.subject.kyc_tier@),
            ) {
                Some(t) => t,
                None => KycTier::L0,
            }),
            r.direction == (if text::spec_contains_seq(
                text::lower_seq(self.tx.tx_type@),
                "withdraw"@,
            ) {
                crate::event::Direction::Outbound
            } else {
                crate::event::Direction::Inbound
            }),
            r.asset@ == self.tx.asset@,
            r.amount@ == self.tx.amount@,
            r.usd_value == self.tx.usd_value,
            r.occurred_at_ms == now_ms,
            r.observed_at_ms == now_ms,
            r.schema_version@ == "v1"@,
            r.chain@ == "INLINE"@,
    {
        let kyc_tier = match KycTier::from_str(self.subject.kyc_tier.as_str()) {
            Some(t) => t,
            None => KycTier::L0,
        };
        let mut addresses: Vec<Address> = Vec::new();
        let mut i: usize = 0;
        while i < self.subject.addresses.len()
            invariant
                i <= self.subject.addresses@.len(),
                addresses@.len() == i,
                forall|j: int|
                    0 <= j < i ==> (#[trigger] addresses@[j])@ == text::lower_seq(
                        self.subject.addresses@[j]@,
                    ),
            decreases self.subject.addresses@.len() - i,
        {
            addresses.push(Address::new(self.subject.addresses[i].as_str()));
            i = i + 1;
        }
        let lowered = text::ascii_lower(self.tx.tx_type.as_str());
        let lowered_chars = text::str_chars(lowered.as_str());
        let needle = text::str_chars("withdraw");
        let is_withdraw = text::chars_contains(&lowered_chars, &needle);
        let direction = if is_withdraw {
            crate::event::Direction::Outbound
        } else {
            crate::event::Direction::Inbound
        };
        let subject = Subject {
            user_id: UserId::new(self.subject.user_id.as_str()),
            account_id: AccountId::new(self.subject.account_id.as_str()),
            addresses,
            geo_iso: CountryCode::new(self.subject.geo_iso.as_str()),
            kyc_tier,
        };
        let event = TxEvent {
            schema_version: String::from_str(crate::event::schema_version()),
            event_id: EventId::new(),
            occurred_at_ms: now_ms,
            observed_at_ms: now_ms,
            subject,
            chain: crate::event::Chain::inline(),
            tx_hash: String::new(),
            direction,
            asset: crate::event::Asset::new(self.tx.asset.as_str()),
            amount: self.tx.amount.clone(),
            usd_value: self.tx.usd_value,
            confirmations: 0,
            max_finality_depth: 0,
        };
        proof {
            assert(event.subject.spec_addresses() =~= self.subject.addresses@.map_values(
                |a: String| text::lower_seq(a@),
            ));
        }
        event
    }
}

/// The per-rule results of the inline phase, in declaration order.
pub open spec fn spec_inline_results(rules: Seq<InlineRule>, event: TxEvent) -> Seq<
    RuleResultView,
> {
    rules.map_values(|r: InlineRule| r.spec_eval(event))
}

/// The decision the pipeline reaches over a result list: the severity
/// maximum of the decisions of the results that hit, starting from the
/// least severe decision.
pub open spec fn max_decision(results: Seq<RuleResultView>) -> Decision
    decreases results.len(),
{
    if results.len() == 0 {
        Decision::Allow
    } else {
        let prev = max_decision(results.drop_last());
        if results.last().hit {
            prev.spec_max(results.last().decision)
        } else {
            prev
        }
    }
}

/// The evidence the pipeline collects: each hit's evidence record, in
/// evaluation order.
pub open spec fn triggered_evidence(results: Seq<RuleResultView>) -> Seq<EvidenceView>
    decreases results.len(),
{
    if results.len() == 0 {
        Seq::empty()
    } else {
        let rest = triggered_evidence(results.drop_last());
        if results.last().hit && results.last().evidence is Some {
            rest.push(results.last().evidence->0)
        } else {
            rest
        }
    }
}

/// The final decision is the severity maximum of the triggered
/// decisions among the evaluated results: it dominates every triggered
/// decision, and unless nothing triggered it is itself one of them.
pub proof fn lemma_max_decision_characterization(results: Seq<RuleResultView>)
    ensures
        forall|i: int|
            0 <= i < results.len() && (#[trigger] results[i]).hit ==> max_decision(
                results,
            ).spec_severity() >= results[i].decision.spec_severity(),
        max_decision(results) == Decision::Allow || exists|i: int|
            0 <= i < results.len() && (#[trigger] results[i]).hit && results[i].decision
                == max_decision(results),
    decreases results.len(),
{
    if results.len() > 0 {
        lemma_max_decision_characterization(results.drop_last());
        let prev = max_decision(results.drop_last());
        assert forall|i: int|
            0 <= i < results.len() && (#[trigger] results[i]).hit implies max_decision(
            results,
        ).spec_severity() >= results[i].decision.spec_severity() by {
            if i < results.len() - 1 {
                assert(results.drop_last()[i] == results[i]);
            }
        }
        if max_decision(results) != Decision::Allow {
            if results.last().hit && max_decision(results) == results.last().decision {
                assert(results[results.len() - 1].hit && results[results.len() - 1].decision
                    == max_decision(results));
            } else {
                assert(max_decision(results) == prev);
                let i = choose|i: int|
                    0 <= i < results.drop_last().len() && (#[trigger] results.drop_last()[i]).hit
                        && results.drop_last()[i].decision == prev;
                assert(results[i] == results.drop_last()[i]);
            }
        }
    }
}

/// Joining result lists one after the other joins their decisions.
pub proof fn lemma_max_decision_concat(a: Seq<RuleResultView>, b: Seq<RuleResultView>)
    ensures
        max_decision(a + b) == max_decision(a).spec_max(max_decision(b)),
        triggered_evidence(a + b) == triggered_evidence(a) + triggered_evidence(b),
    decreases b.len(),
{
    if b.len() == 0 {
        assert(a + b =~= a);
        assert(triggered_evidence(a) + triggered_evidence(b) =~= triggered_evidence(a));
    } else {
        lemma_max_decision_concat(a, b.drop_last());
        assert((a + b).drop_last() =~= a + b.drop_last());
        assert((a + b).last() == b.last());
        if b.last().hit && b.last().evidence is Some {
            assert(triggered_evidence(a) + triggered_evidence(b) =~= (triggered_evidence(a)
                + triggered_evidence(b.drop_last())).push(b.last().evidence->0));
        } else {
            assert(triggered_evidence(a) + triggered_evidence(b) =~= triggered_evidence(a)
                + triggered_evidence(b.drop_last()));
        }
    }
}

/// What a decision run returns: the response, and the durability record
/// to append when the streaming phase ran and mutated state.
#[derive(Debug)]
pub struct Decided {
    /// The response for the caller
    pub response: DecisionResponse,
    /// The WAL record for the appended transaction, present exactly when
    /// the streaming phase ran
    pub wal_entry: Option<WalEntry>,
}

/// Evaluate the inline rules in order, collecting the joined decision
/// and the evidence of every hit.
fn run_inline(rules: &Vec<InlineRule>, event: &TxEvent) -> (r: (Decision, Vec<Evidence>))
    ensures
        r.0 == max_decision(spec_inline_results(rules@, *event)),
        r.1@.map_values(|e: Evidence| e@) == triggered_evidence(
            spec_inline_results(rules@, *event),
        ),
{
    let mut decision = Decision::Allow;
    let mut evidence: Vec<Evidence> = Vec::new();
    let mut i: usize = 0;
    let ghost all = spec_inline_results(rules@, *event);
    proof {
        assert(all.subrange(0, 0) =~= Seq::<RuleResultView>::empty());
        assert(evidence@.map_values(|e: Evidence| e@) =~= triggered_evidence(
            all.subrange(0, 0),
        ));
    }
    while i < rules.len()
        invariant
            i <= rules@.len(),
            all == spec_inline_results(rules@, *event),
            decision == max_decision(all.subrange(0, i as int)),
            evidence@.map_values(|e: Evidence| e@) == triggered_evidence(
                all.subrange(0, i as int),
            ),
        decreases rules@.len() - i,
    {
        proof {
            assert(all.subrange(0, (i + 1) as int).drop_last() =~= all.subrange(0, i as int));
            assert(all.subrange(0, (i + 1) as int).last() == all[i as int]);
        }
        let result = rules[i].evaluate(event);
        if result.hit {
            decision = decision.max(result.decision);
            match result.evidence {
                Some(ev) => {
                    evidence.push(ev);
                    proof {
                        assert(evidence@.map_values(|e: Evidence| e@) =~= triggered_evidence(
                            all.subrange(0, (i + 1) as int),
                        ));
                    }
                },
                None => {
                    proof {
                        assert(evidence@.map_values(|e: Evidence| e@) =~= triggered_evidence(
                            all.subrange(0, (i + 1) as int),
                        ));
                    }
                },
            }
        } else {
            proof {
                assert(evidence@.map_values(|e: Evidence| e@) =~= triggered_evidence(
                    all.subrange(0, (i + 1) as int),
                ));
            }
        }
        i = i + 1;
    }
    proof {
        assert(all.subrange(0, all.len() as int) =~= all);
    }
    (decision, evidence)
}

/// Run one decision: inline phase in declaration order; short-circuit on
/// a fatal inline outcome without touching per-user state; otherwise the
/// streaming phase under the subject's actor, which appends the
/// transaction to the rolling window. The final decision is the severity
/// maximum over every evaluated rule that hit, and the evidence lists
/// every hit in evaluation order.
pub fn decide(ruleset: &RuleSet, pool: &mut ActorPool, event: &TxEvent, now_ms: i64) -> (r:
    Decided)
    requires
        old(pool).wf(),
        event.usd_value.tx_sized(),
        event.occurred_at_ms != i64::MIN,
    ensures
        final(pool).wf(),
        ({
            let inline_res = spec_inline_results(ruleset.inline@, *event);
            let uid = event.subject.user_id@;
            if max_decision(inline_res) == Decision::RejectFatal {
                // fatal inline short-circuit: no streaming rule is
                // evaluated and no state is touched
                &&& r.response.decision == max_decision(inline_res)
                &&& r.response.evidence@.map_values(|e: Evidence| e@) == triggered_evidence(
                    inline_res,
                )
                &&& *final(pool) == *old(pool)
                &&& r.wal_entry is None
            } else {
                let prior = match old(pool).spec_get(uid) {
                    Some(st) => st@,
                    None => Seq::<TxEntry>::empty(),
                };
                let pruned = prune_spec(prior, now_ms as int);
                let stream_res = spec_streaming_results(
                    ruleset.streaming@,
                    *event,
                    pruned,
                    now_ms as int,
                );
                &&& r.response.decision == max_decision(inline_res + stream_res)
                &&& r.response.evidence@.map_values(|e: Evidence| e@) == triggered_evidence(
                    inline_res + stream_res,
                )
                &&& final(pool).spec_get(uid) matches Some(st2) && st2@ == add_tx_spec(
                    pruned,
                    TxEntry { timestamp_ms: event.occurred_at_ms, usd_value: event.usd_value },
                )
                &&& forall|u2: Seq<char>|
                    u2 != uid ==> final(pool).spec_get(u2) == old(pool).spec_get(u2)
                &&& r.wal_entry matches Some(w) && w@ == (WalEntryView::Transaction {
                    user_id: uid,
                    timestamp_ms: event.occurred_at_ms as int,
                    usd_cents: event.usd_value@,
                }) && entry_wf(w@)
            }
        }),
        r.response.policy_version@ == ruleset.policy_version@,
        r.response.decision_code@ == crate::event::spec_pick_code(
            r.response.evidence@.map_values(|e: Evidence| e@),
        ),
    {
        let (inline_decision, evidence) = run_inline(&ruleset.inline, event);
        if inline_decision.is_fatal() {
            let response = DecisionResponse::new(
                inline_decision,
                ruleset.policy_version.clone(),
                evidence,
            );
            return Decided { response, wal_entry: None };
        }
        let ghost inline_res = spec_inline_results(ruleset.inline@, *event);
        let results = pool.evaluate_streaming(
            event.subject.user_id.as_str(),
            &ruleset.streaming,
            event,
            now_ms,
        );
        let mut decision = inline_decision;
        let mut evidence = evidence;
        let mut i: usize = 0;
        let ghost stream_views = results@.map_values(|x: RuleResult| x@);
        proof {
            assert(stream_views.subrange(0, 0) =~= Seq::<RuleResultView>::empty());
            lemma_max_decision_concat(inline_res, stream_views.subrange(0, 0));
            assert(inline_res + stream_views.subrange(0, 0) =~= inline_res);
        }
        while i < results.len()
            invariant
                i <= results@.len(),
                stream_views == results@.map_values(|x: RuleResult| x@),
                decision == max_decision(inline_res + stream_views.subrange(0, i as int)),
                evidence@.map_values(|e: Evidence| e@) == triggered_evidence(
                    inline_res + stream_views.subrange(0, i as int),
                ),
            decreases results@.len() - i,
        {
            proof {
                assert((inline_res + stream_views.subrange(0, (i + 1) as int)).drop_last()
                    =~= inline_res + stream_views.subrange(0, i as int));
                assert((inline_res + stream_views.subrange(0, (i + 1) as int)).last()
                    == stream_views[i as int]);
            }
            let result = results[i].clone();
            if result.hit {
                decision = decision.max(result.decision);
                match result.evidence {
                    Some(ev) => {
                        evidence.push(ev);
                        proof {
                            assert(evidence@.map_values(|e: Evidence| e@)
                                =~= triggered_evidence(
                                inline_res + stream_views.subrange(0, (i + 1) as int),
                            ));
                        }
                    },
                    None => {
                        proof {
                            assert(evidence@.map_values(|e: Evidence| e@)
                                =~= triggered_evidence(
                                inline_res + stream_views.subrange(0, (i + 1) as int),
                            ));
                        }
                    },
                }
            } else {
                proof {
                    assert(evidence@.map_values(|e: Evidence| e@) =~= triggered_evidence(
                        inline_res + stream_views.subrange(0, (i + 1) as int),
                    ));
                }
            }
            i = i + 1;
        }
        proof {
            assert(stream_views.subrange(0, stream_views.len() as int) =~= stream_views);
        }
        let wal = WalEntry::transaction(
            String::from_str(event.subject.user_id.as_str()),
            event.occurred_at_ms,
            event.usd_value,
        );
        let response = DecisionResponse::new(decision, ruleset.policy_version.clone(), evidence);
        Decided { response, wal_entry: Some(wal) }
    }

} // verus!
