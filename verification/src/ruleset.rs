//! Compiling a policy and a sanctions list into an executable rule set.
//! The output preserves the relative order of the policy's rule
//! definitions, which fixes evidence identity on ties.

use vstd::prelude::*;
use crate::decision::Decision;
use crate::policy::{Policy, RuleDef, RuleParams, RuleType};
use crate::rules_inline::{InlineRule, JurisdictionRule, KycCapRule, OfacRule};
use crate::rules_streaming::{DailyVolumeRule, StreamingRule, StructuringRule};
use crate::text;
use crate::usd::Usd;

verus! {

use vstd::string::StringExecFns;

/// The ghost shape of a compiled inline rule.
pub ghost enum InlineRuleV {
    Ofac { id: Seq<char>, action: Decision, sanctions: Set<Seq<char>> },
    Jurisdiction { id: Seq<char>, action: Decision, blocked: Set<Seq<char>> },
    KycCap { id: Seq<char>, action: Decision, caps: crate::policy::KycCaps },
}

/// The ghost shape of a compiled streaming rule.
pub ghost enum StreamingRuleV {
    DailyVolume { id: Seq<char>, action: Decision, limit: int },
    Structuring { id: Seq<char>, action: Decision, threshold: int, count: u32 },
}

impl InlineRule {
    /// The ghost shape of this rule.
    pub open spec fn shape(self) -> InlineRuleV {
        match self {
            InlineRule::Ofac(r) => InlineRuleV::Ofac {
                id: r.spec_id(),
                action: r.spec_action(),
                sanctions: r.spec_sanctions(),
            },
            InlineRule::Jurisdiction(r) => InlineRuleV::Jurisdiction {
                id: r.id@,
                action: r.action,
                blocked: r.spec_blocked(),
            },
            InlineRule::KycCap(r) => InlineRuleV::KycCap {
                id: r.id@,
                action: r.action,
                caps: r.caps,
            },
        }
    }
}

impl StreamingRule {
    /// The ghost shape of this rule.
    pub open spec fn shape(self) -> StreamingRuleV {
        match self {
            StreamingRule::DailyVolume(r) => StreamingRuleV::DailyVolume {
                id: r.id@,
                action: r.action,
                limit: r.limit@,
            },
            StreamingRule::Structuring(r) => StreamingRuleV::Structuring {
                id: r.id@,
                action: r.action,
                threshold: r.amount_threshold@,
                count: r.count_threshold,
            },
        }
    }
}

/// The inline rules a policy compiles to, in declaration order.
pub open spec fn spec_compile_inline(
    defs: Seq<RuleDef>,
    params: RuleParams,
    sanctions: Set<Seq<char>>,
) -> Seq<InlineRuleV>
    decreases defs.len(),
{
    if defs.len() == 0 {
        Seq::empty()
    } else {
        let rest = spec_compile_inline(defs.drop_last(), params, sanctions);
        let d = defs.last();
        match d.rule_type {
            RuleType::OfacAddr => rest.push(
                InlineRuleV::Ofac { id: d.id@, action: d.action, sanctions },
            ),
            RuleType::JurisdictionBlock => rest.push(
                InlineRuleV::Jurisdiction {
                    id: d.id@,
                    action: d.action,
                    blocked: d.blocked_countries@.map_values(
                        |c: String| text::upper_seq(c@),
                    ).to_set(),
                },
            ),
            RuleType::KycTierTxCap => rest.push(
                InlineRuleV::KycCap { id: d.id@, action: d.action, caps: params.kyc_tier_caps_usd },
            ),
            _ => rest,
        }
    }
}

/// The streaming rules a policy compiles to, in declaration order. A
/// streaming rule definition is skipped silently when its parameters are
/// not configured.
pub open spec fn spec_compile_streaming(defs: Seq<RuleDef>, params: RuleParams) -> Seq<
    StreamingRuleV,
>
    decreases defs.len(),
{
    if defs.len() == 0 {
        Seq::empty()
    } else {
        let rest = spec_compile_streaming(defs.drop_last(), params);
        let d = defs.last();
        match d.rule_type {
            RuleType::DailyUsdVolume => match params.daily_volume_limit_usd {
                Some(limit) => rest.push(
                    StreamingRuleV::DailyVolume { id: d.id@, action: d.action, limit: limit@ },
                ),
                None => rest,
            },
            RuleType::StructuringSmallTx => match (
                params.structuring_small_usd,
                params.structuring_small_count,
            ) {
                (Some(threshold), Some(count)) => rest.push(
                    StreamingRuleV::Structuring {
                        id: d.id@,
                        action: d.action,
                        threshold: threshold@,
                        count,
                    },
                ),
                _ => rest,
            },
            _ => rest,
        }
    }
}

/// Collection of compiled rules ready for evaluation. Shared by
/// reference; never mutated in place.
#[derive(Debug)]
pub struct RuleSet {
    pub inline: Vec<InlineRule>,
    pub streaming: Vec<StreamingRule>,
    pub policy_version: String,
}

/// Copy a vector of strings.
fn clone_string_vec(v: &Vec<String>) -> (r: Vec<String>)
    ensures
        r@ == v@,
{
    let mut out: Vec<String> = Vec::new();
    let mut i: usize = 0;
    while i < v.len()
        invariant
            i <= v@.len(),
            out@ == v@.subrange(0, i as int),
        decreases v@.len() - i,
    {
        out.push(v[i].clone());
        i = i + 1;
        proof {
            assert(out@ =~= v@.subrange(0, i as int));
        }
    }
    proof {
        assert(out@ =~= v@);
    }
    out
}

impl RuleSet {
    /// Build rules from a policy and sanctions list. The compiled inline
    /// and streaming vectors preserve the relative order of the policy's
    /// rule definitions.
    pub fn from_policy(policy: &Policy, sanctions: Vec<String>) -> (r: RuleSet)
        ensures
            r.policy_version@ == policy.version@,
            r.inline@.map_values(|ir: InlineRule| ir.shape()) == spec_compile_inline(
                policy.rules@,
                policy.params,
                sanctions@.map_values(|a: String| text::lower_seq(a@)).to_set(),
            ),
            r.streaming@.map_values(|sr: StreamingRule| sr.shape()) == spec_compile_streaming(
                policy.rules@,
                policy.params,
            ),
    {
        let ghost sanc_set = sanctions@.map_values(|a: String| text::lower_seq(a@)).to_set();
        let mut inline: Vec<InlineRule> = Vec::new();
        let mut streaming: Vec<StreamingRule> = Vec::new();
        let mut i: usize = 0;
        while i < policy.rules.len()
            invariant
                i <= policy.rules@.len(),
                inline@.map_values(|ir: InlineRule| ir.shape()) == spec_compile_inline(
                    policy.rules@.subrange(0, i as int),
                    policy.params,
                    sanc_set,
                ),
                streaming@.map_values(|sr: StreamingRule| sr.shape()) == spec_compile_streaming(
                    policy.rules@.subrange(0, i as int),
                    policy.params,
                ),
                sanc_set == sanctions@.map_values(|a: String| text::lower_seq(a@)).to_set(),
            decreases policy.rules@.len() - i,
        {
            let rule_def: &RuleDef = &policy.rules[i];
            proof {
                assert(policy.rules@.subrange(0, (i + 1) as int).drop_last() =~= policy.rules@.subrange(
                    0,
                    i as int,
                ));
                assert(policy.rules@.subrange(0, (i + 1) as int).last() == policy.rules@[i as int]);
            }
            match rule_def.rule_type {
                RuleType::OfacAddr => {
                    let sanc_clone = clone_string_vec(&sanctions);
                    let rule = OfacRule::new(
                        rule_def.id.clone(),
                        rule_def.action,
                        sanc_clone,
                    );
                    inline.push(InlineRule::Ofac(rule));
                },
                RuleType::JurisdictionBlock => {
                    let blocked = clone_string_vec(&rule_def.blocked_countries);
                    let rule = JurisdictionRule::new(
                        rule_def.id.clone(),
                        rule_def.action,
                        blocked,
                    );
                    inline.push(InlineRule::Jurisdiction(rule));
                },
                RuleType::KycTierTxCap => {
                    let rule = KycCapRule::new(
                        rule_def.id.clone(),
                        rule_def.action,
                        policy.params.kyc_tier_caps_usd,
                    );
                    inline.push(InlineRule::KycCap(rule));
                },
                RuleType::DailyUsdVolume => {
                    match policy.params.daily_volume_limit_usd {
                        Some(limit) => {
                            let rule = DailyVolumeRule::new(
                                rule_def.id.clone(),
                                rule_def.action,
                                limit,
                            );
                            streaming.push(StreamingRule::DailyVolume(rule));
                        },
                        None => {},
                    }
                },
                RuleType::StructuringSmallTx => {
                    match (
                        policy.params.structuring_small_usd,
                        policy.params.structuring_small_count,
                    ) {
                        (Some(threshold), Some(count)) => {
                            let rule = StructuringRule::new(
                                rule_def.id.clone(),
                                rule_def.action,
                                threshold,
                                count,
                            );
                            streaming.push(StreamingRule::Structuring(rule));
                        },
                        _ => {},
                    }
                },
            }
            i = i + 1;
            proof {
                assert(inline@.map_values(|ir: InlineRule| ir.shape()) =~= spec_compile_inline(
                    policy.rules@.subrange(0, i as int),
                    policy.params,
                    sanc_set,
                ));
                assert(streaming@.map_values(|sr: StreamingRule| sr.shape())
                    =~= spec_compile_streaming(
                    policy.rules@.subrange(0, i as int),
                    policy.params,
                ));
            }
        }
        proof {
            assert(policy.rules@.subrange(0, policy.rules@.len() as int) =~= policy.rules@);
        }
        RuleSet { inline, streaming, policy_version: policy.version.clone() }
    }

    /// Create an empty rule set.
    pub fn empty() -> (r: RuleSet)
        ensures
            r.inline@.len() == 0,
            r.streaming@.len() == 0,
            r.policy_version@ == "0.0.0"@,
    {
        RuleSet {
            inline: Vec::new(),
            streaming: Vec::new(),
            policy_version: String::from_str("0.0.0"),
        }
    }
}

} // verus!
