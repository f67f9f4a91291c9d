//! Tests for the domain model, the rules, the rolling-window state, the
//! actor and the pool.

use riskr::actor::UserActor;
use riskr::decision::Decision;
use riskr::event::{Asset, Direction, TxEvent};
use riskr::evidence::{Evidence, RuleResult};
use riskr::policy::{KycCaps, Policy, RuleDef, RuleParams, RuleType};
use riskr::pool::{ActorPool, NUM_STRIPES};
use riskr::rules_inline::{JurisdictionRule, KycCapRule, OfacRule};
use riskr::rules_streaming::{DailyVolumeRule, StreamingRule, StructuringRule};
use riskr::ruleset::RuleSet;
use riskr::state::{TxEntry, UserState, MAX_TX_ENTRIES};
use riskr::subject::{AccountId, Address, CountryCode, KycTier, Subject, UserId};
use riskr::usd::Usd;

const NOW: i64 = 1_700_000_000_000;
const HOUR_MS: i64 = 3_600_000;

fn subject(addresses: Vec<&str>, geo: &str, tier: KycTier) -> Subject {
    Subject {
        user_id: UserId::new("U1"),
        account_id: AccountId::new("A1"),
        addresses: addresses.into_iter().map(Address::new).collect(),
        geo_iso: CountryCode::new(geo),
        kyc_tier: tier,
    }
}

fn event_with(subject: Subject, usd: i64) -> TxEvent {
    TxEvent::new(
        subject,
        Asset::new("USDC"),
        Usd::from_dollars(usd),
        Direction::Outbound,
        NOW,
    )
}

#[test]
fn test_decision_ordering() {
    assert!(Decision::Allow < Decision::SoftDenyRetry);
    assert!(Decision::SoftDenyRetry < Decision::HoldAuto);
    assert!(Decision::HoldAuto < Decision::Review);
    assert!(Decision::Review < Decision::RejectFatal);
}

#[test]
fn test_decision_max() {
    assert_eq!(Decision::Allow.max(Decision::HoldAuto), Decision::HoldAuto);
    assert_eq!(Decision::RejectFatal.max(Decision::Allow), Decision::RejectFatal);
    assert_eq!(Decision::Review.max(Decision::Review), Decision::Review);
}

#[test]
fn test_decision_names_round_trip() {
    for d in [
        Decision::Allow,
        Decision::SoftDenyRetry,
        Decision::HoldAuto,
        Decision::Review,
        Decision::RejectFatal,
    ] {
        assert_eq!(Decision::from_str(d.as_str()), Some(d));
    }
    assert_eq!(Decision::from_str("hold_auto"), Some(Decision::HoldAuto));
    assert_eq!(Decision::from_str("nonsense"), None);
}

#[test]
fn test_evidence_creation() {
    let ev = Evidence::new("R1_OFAC", "address", "0xdead");
    assert_eq!(ev.rule_id, "R1_OFAC");
    assert_eq!(ev.key, "address");
    assert_eq!(ev.value, "0xdead");
    assert!(ev.limit.is_none());
}

#[test]
fn test_evidence_with_limit() {
    let ev = Evidence::with_limit("R4_DAILY", "daily_usd", "60000", "50000");
    assert_eq!(ev.limit, Some("50000".to_string()));
}

#[test]
fn test_rule_result_combine() {
    let allow = RuleResult::allow();
    let hold = RuleResult::trigger(Decision::HoldAuto, Evidence::new("R3", "test", "value"));
    let combined = allow.combine(hold.clone());
    assert!(combined.hit);
    assert_eq!(combined.decision, Decision::HoldAuto);
}

#[test]
fn test_rule_classification() {
    let inline_rule = RuleDef {
        id: "R1".to_string(),
        rule_type: RuleType::OfacAddr,
        action: Decision::RejectFatal,
        blocked_countries: vec![],
    };
    assert!(inline_rule.is_inline());
    assert!(!inline_rule.is_streaming());

    let streaming_rule = RuleDef {
        id: "R4".to_string(),
        rule_type: RuleType::DailyUsdVolume,
        action: Decision::HoldAuto,
        blocked_countries: vec![],
    };
    assert!(!streaming_rule.is_inline());
    assert!(streaming_rule.is_streaming());
}

#[test]
fn test_address_normalization() {
    let addr = Address::new("0xABCDEF123456");
    assert_eq!(addr.normalized(), "0xabcdef123456");
}

#[test]
fn test_country_code_normalization() {
    let code = CountryCode::new("us");
    assert_eq!(code.as_str(), "US");
}

#[test]
fn test_event_id_shape() {
    let id = riskr::event::EventId::new();
    assert_eq!(id.0.len(), 36);
    let other = riskr::event::EventId::new();
    assert_ne!(id.0, other.0);
}

#[test]
fn test_usd_rendering() {
    assert_eq!(Usd::from_dollars(1000).to_string(), "1000");
    assert_eq!(Usd::from_cents(500050).to_string(), "5000.50");
    assert_eq!(Usd::from_cents(5).to_string(), "0.05");
    assert_eq!(Usd::from_cents(-125).to_string(), "-1.25");
    assert_eq!(Usd::from_dollars(0).to_string(), "0");
}

#[test]
fn test_add_and_query() {
    let mut state = UserState::new("U1".to_string(), NOW);
    state.add_tx(TxEntry::new(NOW, Usd::from_dollars(100)), NOW);
    state.add_tx(TxEntry::new(NOW, Usd::from_dollars(200)), NOW);
    state.add_tx(TxEntry::new(NOW, Usd::from_dollars(300)), NOW);
    assert_eq!(state.rolling_usd_24h(NOW), Usd::from_dollars(600));
    assert_eq!(state.entry_count(), 3);
}

#[test]
fn test_prune_expired() {
    let mut state = UserState::new("U1".to_string(), NOW);
    let old_time = NOW - 25 * HOUR_MS;
    state.add_tx(TxEntry::new(old_time, Usd::from_dollars(1000)), NOW);
    state.add_tx(TxEntry::new(NOW, Usd::from_dollars(100)), NOW);
    state.prune_expired(NOW);
    assert_eq!(state.entry_count(), 1);
    assert_eq!(state.rolling_usd_24h(NOW), Usd::from_dollars(100));
}

#[test]
fn test_count_small_tx() {
    let mut state = UserState::new("U1".to_string(), NOW);
    let threshold = Usd::from_dollars(10000);
    state.add_tx(TxEntry::new(NOW, Usd::from_dollars(5000)), NOW);
    state.add_tx(TxEntry::new(NOW, Usd::from_dollars(15000)), NOW);
    state.add_tx(TxEntry::new(NOW, Usd::from_dollars(8000)), NOW);
    state.add_tx(TxEntry::new(NOW, Usd::from_dollars(3000)), NOW);
    assert_eq!(state.count_small_tx(&threshold, NOW), 3);
}

#[test]
fn test_max_capacity() {
    let mut state = UserState::new("U1".to_string(), NOW);
    for i in 0..(MAX_TX_ENTRIES + 100) {
        state.add_tx(TxEntry::new(NOW, Usd::from_dollars(i as i64)), NOW);
    }
    assert!(state.entry_count() <= MAX_TX_ENTRIES);
}

#[test]
fn test_empty_state() {
    let state = UserState::new("U1".to_string(), NOW);
    assert!(state.is_empty());
    assert_eq!(state.rolling_usd_24h(NOW), Usd::from_dollars(0));
    assert_eq!(state.count_small_tx(&Usd::from_dollars(100), NOW), 0);
}

#[test]
fn test_clean_address() {
    let rule = OfacRule::new(
        "R1_OFAC".to_string(),
        Decision::RejectFatal,
        vec!["0xdead".to_string(), "0xbeef".to_string()],
    );
    let event = event_with(subject(vec!["0xclean"], "US", KycTier::L1), 1000);
    let result = rule.evaluate(&event);
    assert!(!result.hit);
    assert_eq!(result.decision, Decision::Allow);
}

#[test]
fn test_sanctioned_address() {
    let rule = OfacRule::new(
        "R1_OFAC".to_string(),
        Decision::RejectFatal,
        vec!["0xdead".to_string(), "0xbeef".to_string()],
    );
    let event = event_with(subject(vec!["0xDEAD"], "US", KycTier::L1), 1000);
    let result = rule.evaluate(&event);
    assert!(result.hit);
    assert_eq!(result.decision, Decision::RejectFatal);
    assert_eq!(result.evidence.as_ref().unwrap().rule_id, "R1_OFAC");
}

#[test]
fn test_multiple_addresses_one_bad() {
    let rule = OfacRule::new(
        "R1_OFAC".to_string(),
        Decision::RejectFatal,
        vec!["0xdead".to_string()],
    );
    let event = event_with(subject(vec!["0xclean", "0xdead", "0xsafe"], "US", KycTier::L1), 1000);
    let result = rule.evaluate(&event);
    assert!(result.hit);
    assert_eq!(result.evidence.as_ref().unwrap().value, "0xdead");
}

#[test]
fn test_empty_addresses() {
    let rule = OfacRule::new(
        "R1_OFAC".to_string(),
        Decision::RejectFatal,
        vec!["0xdead".to_string()],
    );
    let event = event_with(subject(vec![], "US", KycTier::L1), 1000);
    let result = rule.evaluate(&event);
    assert!(!result.hit);
}

#[test]
fn test_allowed_country() {
    let rule = JurisdictionRule::new(
        "R2_JURISDICTION".to_string(),
        Decision::RejectFatal,
        vec!["IR".to_string(), "KP".to_string()],
    );
    let event = event_with(subject(vec!["0xabc"], "US", KycTier::L1), 1000);
    let result = rule.evaluate(&event);
    assert!(!result.hit);
    assert_eq!(result.decision, Decision::Allow);
}

#[test]
fn test_blocked_country() {
    let rule = JurisdictionRule::new(
        "R2_JURISDICTION".to_string(),
        Decision::RejectFatal,
        vec!["IR".to_string(), "KP".to_string()],
    );
    let event = event_with(subject(vec!["0xabc"], "IR", KycTier::L1), 1000);
    let result = rule.evaluate(&event);
    assert!(result.hit);
    assert_eq!(result.decision, Decision::RejectFatal);
    assert_eq!(result.evidence.as_ref().unwrap().value, "IR");
}

#[test]
fn test_blocked_country_lowercase() {
    let rule = JurisdictionRule::new(
        "R2_JURISDICTION".to_string(),
        Decision::RejectFatal,
        vec!["IR".to_string()],
    );
    let event = event_with(subject(vec!["0xabc"], "ir", KycTier::L1), 1000);
    let result = rule.evaluate(&event);
    assert!(result.hit);
}

#[test]
fn test_empty_country() {
    let rule = JurisdictionRule::new(
        "R2_JURISDICTION".to_string(),
        Decision::RejectFatal,
        vec!["IR".to_string()],
    );
    let event = event_with(subject(vec!["0xabc"], "", KycTier::L1), 1000);
    let result = rule.evaluate(&event);
    assert!(!result.hit);
}

fn test_caps() -> KycCaps {
    KycCaps {
        l0: Some(Usd::from_dollars(1000)),
        l1: Some(Usd::from_dollars(5000)),
        l2: Some(Usd::from_dollars(100000)),
    }
}

#[test]
fn kyc_cap_test_under_limit() {
    let rule = KycCapRule::new("R3_KYC".to_string(), Decision::HoldAuto, test_caps());
    let event = event_with(subject(vec!["0xabc"], "US", KycTier::L0), 500);
    let result = rule.evaluate(&event);
    assert!(!result.hit);
    assert_eq!(result.decision, Decision::Allow);
}

#[test]
fn test_at_limit() {
    let rule = KycCapRule::new("R3_KYC".to_string(), Decision::HoldAuto, test_caps());
    let event = event_with(subject(vec!["0xabc"], "US", KycTier::L0), 1000);
    let result = rule.evaluate(&event);
    assert!(!result.hit);
}

#[test]
fn kyc_cap_test_over_limit() {
    let rule = KycCapRule::new("R3_KYC".to_string(), Decision::HoldAuto, test_caps());
    let event = event_with(subject(vec!["0xabc"], "US", KycTier::L0), 1001);
    let result = rule.evaluate(&event);
    assert!(result.hit);
    assert_eq!(result.decision, Decision::HoldAuto);
    let ev = result.evidence.unwrap();
    assert_eq!(ev.rule_id, "R3_KYC");
    assert_eq!(ev.value, "1001");
    assert_eq!(ev.limit, Some("1000".to_string()));
}

#[test]
fn test_higher_tier_higher_limit() {
    let rule = KycCapRule::new("R3_KYC".to_string(), Decision::HoldAuto, test_caps());
    let event = event_with(subject(vec!["0xabc"], "US", KycTier::L1), 4000);
    assert!(!rule.evaluate(&event).hit);
    let event = event_with(subject(vec!["0xabc"], "US", KycTier::L2), 50000);
    assert!(!rule.evaluate(&event).hit);
}

#[test]
fn test_unknown_tier_no_limit() {
    let caps = KycCaps { l0: Some(Usd::from_dollars(1000)), l1: None, l2: None };
    let rule = KycCapRule::new("R3_KYC".to_string(), Decision::HoldAuto, caps);
    let event = event_with(subject(vec!["0xabc"], "US", KycTier::L1), 999999);
    assert!(!rule.evaluate(&event).hit);
}

fn state_with_volume(dollars: i64) -> UserState {
    let mut state = UserState::new("U1".to_string(), NOW);
    if dollars > 0 {
        state.add_tx(TxEntry::new(NOW, Usd::from_dollars(dollars)), NOW);
    }
    state
}

#[test]
fn daily_volume_test_under_limit() {
    let rule = DailyVolumeRule::new(
        "R4_DAILY".to_string(),
        Decision::HoldAuto,
        Usd::from_dollars(50000),
    );
    let state = state_with_volume(10000);
    let event = event_with(subject(vec!["0xabc"], "US", KycTier::L1), 10000);
    let result = rule.evaluate(&event, &state, NOW);
    assert!(!result.hit);
}

#[test]
fn daily_volume_test_over_limit() {
    let rule = DailyVolumeRule::new(
        "R4_DAILY".to_string(),
        Decision::HoldAuto,
        Usd::from_dollars(50000),
    );
    let state = state_with_volume(40000);
    let event = event_with(subject(vec!["0xabc"], "US", KycTier::L1), 20000);
    let result = rule.evaluate(&event, &state, NOW);
    assert!(result.hit);
    assert_eq!(result.decision, Decision::HoldAuto);
    let ev = result.evidence.unwrap();
    assert_eq!(ev.value, "60000");
    assert_eq!(ev.limit, Some("50000".to_string()));
}

#[test]
fn test_exactly_at_limit() {
    let rule = DailyVolumeRule::new(
        "R4_DAILY".to_string(),
        Decision::HoldAuto,
        Usd::from_dollars(50000),
    );
    let state = state_with_volume(40000);
    let event = event_with(subject(vec!["0xabc"], "US", KycTier::L1), 10000);
    let result = rule.evaluate(&event, &state, NOW);
    assert!(!result.hit);
}

#[test]
fn test_old_transactions_not_counted() {
    let rule = DailyVolumeRule::new(
        "R4_DAILY".to_string(),
        Decision::HoldAuto,
        Usd::from_dollars(50000),
    );
    let mut state = UserState::new("U1".to_string(), NOW);
    state.add_tx(TxEntry::new(NOW - 25 * HOUR_MS, Usd::from_dollars(45000)), NOW);
    let event = event_with(subject(vec!["0xabc"], "US", KycTier::L1), 20000);
    let result = rule.evaluate(&event, &state, NOW);
    assert!(!result.hit);
}

fn state_with_small(count: usize) -> UserState {
    let mut state = UserState::new("U1".to_string(), NOW);
    for _ in 0..count {
        state.add_tx(TxEntry::new(NOW, Usd::from_dollars(1000)), NOW);
    }
    state
}

#[test]
fn test_under_count_threshold() {
    let rule = StructuringRule::new(
        "R5_STRUCT".to_string(),
        Decision::Review,
        Usd::from_dollars(10000),
        5,
    );
    let state = state_with_small(3);
    let event = event_with(subject(vec!["0xabc"], "US", KycTier::L1), 5000);
    assert!(!rule.evaluate(&event, &state, NOW).hit);
}

#[test]
fn test_at_count_threshold() {
    let rule = StructuringRule::new(
        "R5_STRUCT".to_string(),
        Decision::Review,
        Usd::from_dollars(10000),
        5,
    );
    let state = state_with_small(4);
    let event = event_with(subject(vec!["0xabc"], "US", KycTier::L1), 5000);
    assert!(!rule.evaluate(&event, &state, NOW).hit);
}

#[test]
fn test_over_count_threshold() {
    let rule = StructuringRule::new(
        "R5_STRUCT".to_string(),
        Decision::Review,
        Usd::from_dollars(10000),
        5,
    );
    let state = state_with_small(5);
    let event = event_with(subject(vec!["0xabc"], "US", KycTier::L1), 5000);
    let result = rule.evaluate(&event, &state, NOW);
    assert!(result.hit);
    assert_eq!(result.decision, Decision::Review);
    let ev = result.evidence.unwrap();
    assert_eq!(ev.value, "6");
    assert_eq!(ev.limit, Some("5".to_string()));
}

#[test]
fn test_large_tx_not_counted() {
    let rule = StructuringRule::new(
        "R5_STRUCT".to_string(),
        Decision::Review,
        Usd::from_dollars(10000),
        5,
    );
    let state = state_with_small(5);
    let event = event_with(subject(vec!["0xabc"], "US", KycTier::L1), 20000);
    assert!(!rule.evaluate(&event, &state, NOW).hit);
}

#[test]
fn test_mixed_transactions() {
    let rule = StructuringRule::new(
        "R5_STRUCT".to_string(),
        Decision::Review,
        Usd::from_dollars(10000),
        5,
    );
    let mut state = state_with_small(3);
    state.add_tx(TxEntry::new(NOW, Usd::from_dollars(15000)), NOW);
    state.add_tx(TxEntry::new(NOW, Usd::from_dollars(20000)), NOW);
    let event = event_with(subject(vec!["0xabc"], "US", KycTier::L1), 5000);
    assert!(!rule.evaluate(&event, &state, NOW).hit);
}

fn test_rules() -> Vec<StreamingRule> {
    vec![StreamingRule::DailyVolume(DailyVolumeRule::new(
        "R4_DAILY".to_string(),
        Decision::HoldAuto,
        Usd::from_dollars(50000),
    ))]
}

#[test]
fn test_actor_evaluate() {
    let mut actor = UserActor::new("U1".to_string(), NOW);
    let rules = test_rules();
    let event = event_with(subject(vec!["0xabc"], "US", KycTier::L1), 10000);
    let result = actor.evaluate(&rules, &event, NOW);
    assert!(!result.hit);
    assert_eq!(actor.entry_count(), 1);
    let event = event_with(subject(vec!["0xabc"], "US", KycTier::L1), 20000);
    let result = actor.evaluate(&rules, &event, NOW);
    assert!(!result.hit);
    assert_eq!(actor.entry_count(), 2);
}

#[test]
fn test_actor_triggers_rule() {
    let mut actor = UserActor::new("U1".to_string(), NOW);
    let rules = test_rules();
    let event = event_with(subject(vec!["0xabc"], "US", KycTier::L1), 40000);
    actor.evaluate(&rules, &event, NOW);
    let event = event_with(subject(vec!["0xabc"], "US", KycTier::L1), 20000);
    let result = actor.evaluate(&rules, &event, NOW);
    assert!(result.hit);
    assert_eq!(result.decision, Decision::HoldAuto);
}

#[test]
fn test_actor_state_accumulates() {
    let mut actor = UserActor::new("U1".to_string(), NOW);
    let rules = test_rules();
    for i in 0..5 {
        let event = event_with(subject(vec!["0xabc"], "US", KycTier::L1), 1000 * (i + 1));
        actor.evaluate(&rules, &event, NOW);
    }
    assert_eq!(actor.entry_count(), 5);
    assert_eq!(actor.state().rolling_usd_24h(NOW), Usd::from_dollars(15000));
}

#[test]
fn test_get_or_create() {
    let mut pool = ActorPool::new();
    pool.get_or_create("user1", NOW);
    pool.get_or_create("user1", NOW);
    assert_eq!(pool.actor_count(), 1);
    pool.get_or_create("user2", NOW);
    assert_eq!(pool.actor_count(), 2);
}

#[test]
fn test_get_nonexistent() {
    let mut pool = ActorPool::new();
    assert!(pool.get("nonexistent").is_none());
    pool.get_or_create("user1", NOW);
    assert!(pool.get("user1").is_some());
}

#[test]
fn test_insert_with_state() {
    let mut pool = ActorPool::new();
    let state = UserState::new("recovered_user".to_string(), NOW);
    pool.insert_with_state(state);
    assert!(pool.get("recovered_user").is_some());
}

#[test]
fn test_stats() {
    let mut pool = ActorPool::new();
    pool.get_or_create("user1", NOW);
    pool.get_or_create("user2", NOW);
    pool.get_or_create("user3", NOW);
    let stats = pool.stats();
    assert_eq!(stats.total_actors, 3);
    assert_eq!(stats.stripe_sizes.len(), NUM_STRIPES);
}

#[test]
fn test_stripe_distribution() {
    let mut pool = ActorPool::new();
    for i in 0..1000 {
        pool.get_or_create(&format!("user{}", i), NOW);
    }
    let stats = pool.stats();
    assert_eq!(stats.total_actors, 1000);
    let avg = 1000.0_f64 / NUM_STRIPES as f64;
    let max_stripe = *stats.stripe_sizes.iter().max().unwrap() as f64;
    let min_stripe = *stats.stripe_sizes.iter().min().unwrap() as f64;
    assert!(max_stripe < avg * 5.0, "max stripe too large: {}", max_stripe);
    assert!(
        min_stripe > avg / 5.0 || min_stripe == 0.0,
        "min stripe too small: {}",
        min_stripe
    );
}

#[test]
fn test_evict_idle() {
    let mut pool = ActorPool::new();
    pool.get_or_create("stale", NOW - 7200 * 1000);
    pool.get_or_create("fresh", NOW);
    let evicted = pool.evict_idle(3600, NOW);
    assert_eq!(evicted, 1);
    assert!(pool.get("stale").is_none());
    assert!(pool.get("fresh").is_some());
}

#[test]
fn test_ruleset_from_policy() {
    let policy = Policy {
        version: "test-1".to_string(),
        params: RuleParams {
            kyc_tier_caps_usd: KycCaps { l0: Some(Usd::from_dollars(1000)), l1: None, l2: None },
            daily_volume_limit_usd: Some(Usd::from_dollars(50000)),
            structuring_small_usd: Some(Usd::from_dollars(10000)),
            structuring_small_count: Some(5),
        },
        rules: vec![
            RuleDef {
                id: "R1".to_string(),
                rule_type: RuleType::OfacAddr,
                action: Decision::RejectFatal,
                blocked_countries: vec![],
            },
            RuleDef {
                id: "R4".to_string(),
                rule_type: RuleType::DailyUsdVolume,
                action: Decision::HoldAuto,
                blocked_countries: vec![],
            },
        ],
        signature: String::new(),
    };
    let sanctions = vec!["0xdead".to_string()];
    let ruleset = RuleSet::from_policy(&policy, sanctions);
    assert_eq!(ruleset.inline.len(), 1);
    assert_eq!(ruleset.streaming.len(), 1);
    assert_eq!(ruleset.policy_version, "test-1");
}

#[test]
fn test_inline_rule_trait() {
    let rule = JurisdictionRule::new("TEST_RULE".to_string(), Decision::HoldAuto, vec![]);
    assert_eq!(rule.id(), "TEST_RULE");
}
