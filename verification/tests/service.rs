//! Tests for configuration, metrics, policy loading, the hot-reload
//! watcher, and end-to-end decision scenarios through the pipeline.

use core::time::Duration;
use riskr::decision::Decision;
use riskr::config::Config;
use riskr::event::{DecisionEvent, EventId};
use riskr::evidence::Evidence;
use riskr::loader::{parse_sanctions, validate_policy, PolicyLoader};
use riskr::metrics::MetricsRegistry;
use riskr::pipeline::{decide, DecisionRequest, SubjectRequest, TxRequest};
use riskr::policy::{KycCaps, Policy, RuleDef, RuleParams, RuleType};
use riskr::pool::ActorPool;
use riskr::response::{DecisionResponse, ErrorResponse};
use riskr::ruleset::RuleSet;
use riskr::subject::KycTier;
use riskr::usd::Usd;
use riskr::watch::PolicyWatcher;

const NOW: i64 = 1_700_000_000_000;

#[test]
fn test_default_config() {
    let config = Config::default();
    assert_eq!(config.listen_addr, "0.0.0.0:8080");
    assert_eq!(config.latency_budget_ms, 100);
    assert_eq!(config.stripe_count, 64);
}

#[test]
fn test_duration_helpers() {
    let config = Config {
        policy_reload_secs: 60,
        shutdown_timeout_secs: 15,
        actor_idle_secs: 1800,
        ..Default::default()
    };
    assert_eq!(config.policy_reload_interval(), Duration::from_secs(60));
    assert_eq!(config.shutdown_timeout(), Duration::from_secs(15));
    assert_eq!(config.actor_idle_timeout(), Duration::from_secs(1800));
}

#[test]
fn test_record_decision() {
    let mut metrics = MetricsRegistry::new();
    metrics.record_decision(Decision::Allow);
    metrics.record_decision(Decision::Allow);
    metrics.record_decision(Decision::RejectFatal);
    assert_eq!(metrics.decisions_total, 3);
    assert_eq!(metrics.decisions_allow, 2);
    assert_eq!(metrics.decisions_reject, 1);
}

#[test]
fn test_record_latency() {
    let mut metrics = MetricsRegistry::new();
    metrics.record_latency(100);
    assert!(metrics.latency_under_1ms >= 1);
    metrics.record_latency(7_000);
    assert_eq!(metrics.latency_5_10ms, 1);
}

#[test]
fn test_prometheus_format() {
    let mut metrics = MetricsRegistry::new();
    metrics.record_decision(Decision::Allow);
    let output = metrics.to_prometheus();
    assert!(output.contains("riskr_decisions_total 1"));
    assert!(output.contains("riskr_decisions{outcome=\"allow\"} 1"));
}

#[test]
fn test_load_sanctions() {
    let content = "\n# OFAC sanctions list\n0xDEAD1234567890\n0xBEEF0987654321\n\n# Another bad address\n0xBAD1111111111\n";
    let sanctions = parse_sanctions(content);
    assert_eq!(sanctions.len(), 3);
    assert!(sanctions.contains(&"0xdead1234567890".to_string()));
    assert!(sanctions.contains(&"0xbeef0987654321".to_string()));
    assert!(sanctions.contains(&"0xbad1111111111".to_string()));
}

#[test]
fn test_policy_validation_empty_version() {
    let mut policy = Policy::empty();
    policy.version = String::new();
    let result = validate_policy(&policy);
    assert!(result.is_err());
    assert!(result.unwrap_err().message().contains("version"));
}

#[test]
fn test_policy_validation_duplicate_ids() {
    let mut policy = Policy::empty();
    policy.version = "test".to_string();
    policy.rules = vec![
        RuleDef {
            id: "R1".to_string(),
            rule_type: RuleType::OfacAddr,
            action: Decision::RejectFatal,
            blocked_countries: vec![],
        },
        RuleDef {
            id: "R1".to_string(),
            rule_type: RuleType::JurisdictionBlock,
            action: Decision::RejectFatal,
            blocked_countries: vec![],
        },
    ];
    let result = validate_policy(&policy);
    assert!(result.is_err());
    assert!(result.unwrap_err().message().contains("duplicate"));
}

#[test]
fn test_policy_loader() {
    let loader = PolicyLoader::new("policy.yaml", "sanctions.txt");
    assert_eq!(loader.policy_path(), "policy.yaml");
    assert_eq!(loader.sanctions_path(), "sanctions.txt");
}

#[test]
fn test_policy_watcher_versions() {
    let loader = PolicyLoader::new("policy.yaml", "sanctions.txt");
    let mut watcher = PolicyWatcher::new(loader, 30);
    assert!(watcher.observe_version("v1"));
    assert!(!watcher.observe_version("v1"));
    assert!(watcher.observe_version("v2"));
    assert!(!watcher.observe_version("v2"));
}

#[test]
fn test_allow_response() {
    let resp = DecisionResponse::allow("v1.0".to_string());
    assert_eq!(resp.decision, Decision::Allow);
    assert_eq!(resp.decision_code, "OK");
    assert!(resp.evidence.is_empty());
}

#[test]
fn test_error_responses() {
    let bad = ErrorResponse::bad_request("bad kyc tier");
    assert_eq!(bad.code, "BAD_REQUEST");
    let internal = ErrorResponse::internal_error("oops");
    assert_eq!(internal.code, "INTERNAL_ERROR");
}

#[test]
fn test_decision_event_pick_code() {
    let evidence = vec![
        Evidence::new("R1_OFAC", "address", "0xdead"),
        Evidence::new("R2_JURISDICTION", "geo", "IR"),
    ];
    let event = DecisionEvent::new(
        EventId::new(),
        Decision::RejectFatal,
        "2025-01-01.1",
        evidence,
        NOW,
    );
    assert_eq!(event.decision_code, "R1_OFAC");
}

fn request(user: &str, addresses: Vec<&str>, geo: &str, tier: &str, usd: i64) -> DecisionRequest {
    DecisionRequest {
        subject: SubjectRequest {
            user_id: user.to_string(),
            account_id: "A456".to_string(),
            addresses: addresses.into_iter().map(|a| a.to_string()).collect(),
            geo_iso: geo.to_string(),
            kyc_tier: tier.to_string(),
        },
        tx: TxRequest {
            tx_type: "withdraw".to_string(),
            asset: "USDC".to_string(),
            amount: "1000000".to_string(),
            usd_value: Usd::from_dollars(usd),
            dest_address: None,
        },
    }
}

#[test]
fn test_to_tx_event() {
    let req = request("U123", vec!["0xABC"], "us", "L2", 5000);
    let event = req.to_tx_event(NOW);
    assert_eq!(event.subject.user_id.as_str(), "U123");
    assert_eq!(event.subject.geo_iso.as_str(), "US");
    assert_eq!(event.subject.kyc_tier, KycTier::L2);
    assert_eq!(event.direction, riskr::event::Direction::Outbound);
    assert_eq!(event.subject.addresses[0].as_str(), "0xabc");
}

fn scenario_policy() -> Policy {
    Policy {
        version: "v1".to_string(),
        params: RuleParams {
            kyc_tier_caps_usd: KycCaps {
                l0: Some(Usd::from_dollars(1000)),
                l1: Some(Usd::from_dollars(5000)),
                l2: Some(Usd::from_dollars(100000)),
            },
            daily_volume_limit_usd: Some(Usd::from_dollars(50000)),
            structuring_small_usd: Some(Usd::from_dollars(10000)),
            structuring_small_count: Some(5),
        },
        rules: vec![
            RuleDef {
                id: "R1_OFAC".to_string(),
                rule_type: RuleType::OfacAddr,
                action: Decision::RejectFatal,
                blocked_countries: vec![],
            },
            RuleDef {
                id: "R3_KYC".to_string(),
                rule_type: RuleType::KycTierTxCap,
                action: Decision::HoldAuto,
                blocked_countries: vec![],
            },
            RuleDef {
                id: "R4_DAILY".to_string(),
                rule_type: RuleType::DailyUsdVolume,
                action: Decision::HoldAuto,
                blocked_countries: vec![],
            },
            RuleDef {
                id: "R5_STRUCT".to_string(),
                rule_type: RuleType::StructuringSmallTx,
                action: Decision::Review,
                blocked_countries: vec![],
            },
        ],
        signature: "UNSIGNED-MVP".to_string(),
    }
}

#[test]
fn scenario_allow() {
    let ruleset = RuleSet::from_policy(&scenario_policy(), vec!["0xdead".to_string()]);
    let mut pool = ActorPool::new();
    let event = request("U1", vec!["0xclean"], "US", "L2", 5000).to_tx_event(NOW);
    let decided = decide(&ruleset, &mut pool, &event, NOW);
    assert_eq!(decided.response.decision, Decision::Allow);
    assert_eq!(decided.response.decision_code, "OK");
    assert!(decided.response.evidence.is_empty());
    assert!(decided.wal_entry.is_some());
}

#[test]
fn scenario_inline_fatal_short_circuit() {
    let ruleset = RuleSet::from_policy(&scenario_policy(), vec!["0xdead".to_string()]);
    let mut pool = ActorPool::new();
    let event = request("U1", vec!["0xDEAD"], "US", "L2", 5000).to_tx_event(NOW);
    let decided = decide(&ruleset, &mut pool, &event, NOW);
    assert_eq!(decided.response.decision, Decision::RejectFatal);
    assert_eq!(decided.response.evidence.len(), 1);
    let ev = &decided.response.evidence[0];
    assert_eq!(ev.rule_id, "R1_OFAC");
    assert_eq!(ev.key, "address");
    assert_eq!(ev.value, "0xdead");
    // the streaming phase never ran: no state, no durability record
    assert!(pool.get("U1").is_none());
    assert!(decided.wal_entry.is_none());
}

#[test]
fn scenario_kyc_cap_hit() {
    let ruleset = RuleSet::from_policy(&scenario_policy(), vec![]);
    let mut pool = ActorPool::new();
    let event = request("U1", vec!["0xclean"], "US", "L0", 1001).to_tx_event(NOW);
    let decided = decide(&ruleset, &mut pool, &event, NOW);
    assert_eq!(decided.response.decision, Decision::HoldAuto);
    let ev = &decided.response.evidence[0];
    assert_eq!(ev.key, "usd_value");
    assert_eq!(ev.value, "1001");
    assert_eq!(ev.limit, Some("1000".to_string()));
}

#[test]
fn scenario_rolling_volume_crossover() {
    let ruleset = RuleSet::from_policy(&scenario_policy(), vec![]);
    let mut pool = ActorPool::new();
    for _ in 0..2 {
        let event = request("U1", vec!["0xclean"], "US", "L2", 20000).to_tx_event(NOW);
        let decided = decide(&ruleset, &mut pool, &event, NOW);
        assert_eq!(decided.response.decision, Decision::Allow);
    }
    let event = request("U1", vec!["0xclean"], "US", "L2", 20000).to_tx_event(NOW);
    let decided = decide(&ruleset, &mut pool, &event, NOW);
    assert_eq!(decided.response.decision, Decision::HoldAuto);
    let ev = &decided.response.evidence[0];
    assert_eq!(ev.value, "60000");
    assert_eq!(ev.limit, Some("50000".to_string()));

    // after the window has passed, the entries expire and a fourth
    // request is allowed again
    let later = NOW + 25 * 3_600_000;
    let event = request("U1", vec!["0xclean"], "US", "L2", 20000).to_tx_event(later);
    let decided = decide(&ruleset, &mut pool, &event, later);
    assert_eq!(decided.response.decision, Decision::Allow);
}

#[test]
fn scenario_structuring() {
    let ruleset = RuleSet::from_policy(&scenario_policy(), vec![]);
    let mut pool = ActorPool::new();
    for _ in 0..5 {
        let event = request("U1", vec!["0xclean"], "US", "L2", 1000).to_tx_event(NOW);
        let decided = decide(&ruleset, &mut pool, &event, NOW);
        assert_eq!(decided.response.decision, Decision::Allow);
    }
    let event = request("U1", vec!["0xclean"], "US", "L2", 1000).to_tx_event(NOW);
    let decided = decide(&ruleset, &mut pool, &event, NOW);
    assert_eq!(decided.response.decision, Decision::Review);
    let ev = &decided.response.evidence[0];
    assert_eq!(ev.value, "6");
    assert_eq!(ev.limit, Some("5".to_string()));

    // a large transaction is not counted on its own: the small count
    // stays at six, so the evidence still reports the earlier pattern
    let event = request("U1", vec!["0xclean"], "US", "L2", 20000).to_tx_event(NOW);
    let decided = decide(&ruleset, &mut pool, &event, NOW);
    assert_eq!(decided.response.evidence[0].value, "6");
}

#[test]
fn scenario_hot_reload_jurisdiction() {
    // v1 without a jurisdiction rule: a request from a later-blocked
    // country passes
    let mut policy = scenario_policy();
    let ruleset_v1 = RuleSet::from_policy(&policy, vec![]);
    let mut pool = ActorPool::new();
    let event = request("U1", vec!["0xclean"], "IR", "L2", 5000).to_tx_event(NOW);
    let decided = decide(&ruleset_v1, &mut pool, &event, NOW);
    assert_eq!(decided.response.decision, Decision::Allow);

    // v2 adds the jurisdiction block; the watcher notices the version
    // change, the ruleset is recompiled, and the same request is refused
    let loader = PolicyLoader::new("policy.yaml", "sanctions.txt");
    let mut watcher = PolicyWatcher::new(loader, 30);
    assert!(watcher.observe_version("v1"));
    policy.version = "v2".to_string();
    policy.rules.push(RuleDef {
        id: "R2_JURISDICTION".to_string(),
        rule_type: RuleType::JurisdictionBlock,
        action: Decision::RejectFatal,
        blocked_countries: vec!["IR".to_string()],
    });
    assert!(watcher.observe_version("v2"));
    let ruleset_v2 = RuleSet::from_policy(&policy, vec![]);
    let event = request("U1", vec!["0xclean"], "IR", "L2", 5000).to_tx_event(NOW);
    let decided = decide(&ruleset_v2, &mut pool, &event, NOW);
    assert_eq!(decided.response.decision, Decision::RejectFatal);
    assert_eq!(decided.response.policy_version, "v2");
}
