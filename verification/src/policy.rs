//! Policy configuration: the versioned document that defines which rules
//! run and with what parameters.

use vstd::prelude::*;
use crate::decision::Decision;
use crate::subject::KycTier;
use crate::usd::Usd;

verus! {

use vstd::string::StringExecFns;

/// Per-tier transaction caps in USD. A tier that is absent has no cap.
#[derive(Debug, Clone, Copy, PartialEq, Eq)]
pub struct KycCaps {
    pub l0: Option<Usd>,
    pub l1: Option<Usd>,
    pub l2: Option<Usd>,
}

impl KycCaps {
    /// No caps at all.
    pub fn none() -> (r: KycCaps)
        ensures
            r.l0 is None,
            r.l1 is None,
            r.l2 is None,
    {
        KycCaps { l0: None, l1: None, l2: None }
    }

    /// The cap configured for a tier, if any.
    pub open spec fn spec_cap(self, tier: KycTier) -> Option<Usd> {
        match tier {
            KycTier::L0 => self.l0,
            KycTier::L1 => self.l1,
            KycTier::L2 => self.l2,
        }
    }

    /// The cap configured for a tier, if any.
    pub fn cap(&self, tier: KycTier) -> (r: Option<Usd>)
        ensures
            r == self.spec_cap(tier),
    {
        match tier {
            KycTier::L0 => self.l0,
            KycTier::L1 => self.l1,
            KycTier::L2 => self.l2,
        }
    }
}

/// Parameters used by rules.
#[derive(Debug, Clone, Copy, PartialEq, Eq)]
pub struct RuleParams {
    /// KYC tier transaction caps in USD
    pub kyc_tier_caps_usd: KycCaps,
    /// Daily volume limit in USD
    pub daily_volume_limit_usd: Option<Usd>,
    /// Small transaction threshold for structuring detection
    pub structuring_small_usd: Option<Usd>,
    /// Count threshold for structuring detection
    pub structuring_small_count: Option<u32>,
}

impl RuleParams {
    /// Get the KYC cap for a tier, returning `None` if no limit.
    pub fn kyc_cap(&self, tier: KycTier) -> (r: Option<Usd>)
        ensures
            r == self.kyc_tier_caps_usd.spec_cap(tier),
    {
        self.kyc_tier_caps_usd.cap(tier)
    }
}

impl Default for RuleParams {
    /// By default no caps and no streaming thresholds are configured.
    fn default() -> (r: Self)
        ensures
            r.kyc_tier_caps_usd.l0 is None,
            r.kyc_tier_caps_usd.l1 is None,
            r.kyc_tier_caps_usd.l2 is None,
            r.daily_volume_limit_usd is None,
            r.structuring_small_usd is None,
            r.structuring_small_count is None,
    {
        RuleParams {
            kyc_tier_caps_usd: KycCaps::none(),
            daily_volume_limit_usd: None,
            structuring_small_usd: None,
            structuring_small_count: None,
        }
    }
}

/// Rule type identifier.
#[derive(Debug, Clone, Copy, PartialEq, Eq, Hash, Structural)]
pub enum RuleType {
    /// OFAC address screening
    OfacAddr,
    /// Jurisdiction blocking
    JurisdictionBlock,
    /// KYC tier transaction cap
    KycTierTxCap,
    /// Daily USD volume limit
    DailyUsdVolume,
    /// Structuring detection (small tx pattern)
    StructuringSmallTx,
}

/// Definition of a single rule.
#[derive(Debug, Clone)]
pub struct RuleDef {
    /// Unique rule identifier
    pub id: String,
    /// Rule type
    pub rule_type: RuleType,
    /// Action to take when rule triggers
    pub action: Decision,
    /// Blocked countries for jurisdiction rule
    pub blocked_countries: Vec<String>,
}

impl RuleDef {
    /// A rule type is inline when it is stateless.
    pub open spec fn spec_is_inline(self) -> bool {
        self.rule_type == RuleType::OfacAddr || self.rule_type == RuleType::JurisdictionBlock
            || self.rule_type == RuleType::KycTierTxCap
    }

    /// A rule type is streaming when it reads per-user state.
    pub open spec fn spec_is_streaming(self) -> bool {
        self.rule_type == RuleType::DailyUsdVolume || self.rule_type
            == RuleType::StructuringSmallTx
    }

    /// Check if this rule is an inline rule (stateless).
    pub fn is_inline(&self) -> (r: bool)
        ensures
            r == self.spec_is_inline(),
    {
        matches!(
            self.rule_type,
            RuleType::OfacAddr | RuleType::JurisdictionBlock | RuleType::KycTierTxCap
        )
    }

    /// Check if this rule is a streaming rule (stateful).
    pub fn is_streaming(&self) -> (r: bool)
        ensures
            r == self.spec_is_streaming(),
    {
        matches!(self.rule_type, RuleType::DailyUsdVolume | RuleType::StructuringSmallTx)
    }
}

/// Policy configuration defining rules and their parameters.
#[derive(Debug, Clone)]
pub struct Policy {
    /// Policy version identifier
    pub version: String,
    /// Parameters used by rules
    pub params: RuleParams,
    /// Rule definitions
    pub rules: Vec<RuleDef>,
    /// Policy signature (for verification)
    pub signature: String,
}

impl Policy {
    /// Create an empty policy.
    pub fn empty() -> (r: Policy)
        ensures
            r.version@ == "0.0.0"@,
            r.rules@.len() == 0,
            r.signature@ == Seq::<char>::empty(),
            r.params.daily_volume_limit_usd is None,
            r.params.structuring_small_usd is None,
            r.params.structuring_small_count is None,
            r.params.kyc_tier_caps_usd.l0 is None,
            r.params.kyc_tier_caps_usd.l1 is None,
            r.params.kyc_tier_caps_usd.l2 is None,
    {
        Policy {
            version: String::from_str("0.0.0"),
            params: RuleParams {
                kyc_tier_caps_usd: KycCaps::none(),
                daily_volume_limit_usd: None,
                structuring_small_usd: None,
                structuring_small_count: None,
            },
            rules: Vec::new(),
            signature: String::new(),
        }
    }
}

} // verus!
