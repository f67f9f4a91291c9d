//! Transaction and decision events: what the engine observes and what it
//! concludes. Timestamps are integer milliseconds since the Unix epoch;
//! amounts are exact fixed-point USD.

use vstd::prelude::*;
use crate::decision::Decision;
use crate::evidence::{Evidence, EvidenceView};
use crate::subject::Subject;
use crate::usd::Usd;

verus! {

use vstd::string::StringExecFns;

/// Unique event identifier.
#[derive(Debug, Clone, PartialEq, Eq, Hash)]
pub struct EventId(pub String);

impl View for EventId {
    type V = Seq<char>;

    open spec fn view(&self) -> Seq<char> {
        self.0@
    }
}

/// Relies on `uuid::Uuid::new_v4` and its hyphenated `Display` form: a
/// freshly generated identifier renders as 36 characters. The value
/// itself is random, so nothing more is promised of it. Generation
/// draws on the operating system's entropy source and aborts if that
/// source fails — an environmental, input-independent condition, like
/// running out of memory.
#[verifier::external_body]
fn fresh_uuid_string() -> (r: String)
    ensures
        r@.len() == 36,
{
    uuid::Uuid::new_v4().to_string()
}

impl EventId {
    /// A freshly generated random identifier.
    pub fn new() -> (r: EventId)
        ensures
            r@.len() == 36,
    {
        EventId(fresh_uuid_string())
    }

    pub fn from_string(s: &str) -> (r: EventId)
        ensures
            r@ == s@,
    {
        EventId(String::from_str(s))
    }
}

/// Blockchain/chain identifier.
#[derive(Debug, Clone, PartialEq, Eq, Hash)]
pub struct Chain(pub String);

impl View for Chain {
    type V = Seq<char>;

    open spec fn view(&self) -> Seq<char> {
        self.0@
    }
}

impl Chain {
    pub fn new(chain: &str) -> (r: Chain)
        ensures
            r@ == chain@,
    {
        Chain(String::from_str(chain))
    }

    /// Inline chain (not blockchain-specific).
    pub fn inline() -> (r: Chain)
        ensures
            r@ == "INLINE"@,
    {
        Chain(String::from_str("INLINE"))
    }
}

/// Asset identifier (e.g., "USDC", "ETH").
#[derive(Debug, Clone, PartialEq, Eq, Hash)]
pub struct Asset(pub String);

impl View for Asset {
    type V = Seq<char>;

    open spec fn view(&self) -> Seq<char> {
        self.0@
    }
}

impl Asset {
    pub fn new(asset: &str) -> (r: Asset)
        ensures
            r@ == asset@,
    {
        Asset(String::from_str(asset))
    }
}

/// Transaction direction.
#[derive(Debug, Clone, Copy, PartialEq, Eq, Structural)]
pub enum Direction {
    Inbound,
    Outbound,
}

/// The schema version stamped on new events.
pub fn schema_version() -> (r: &'static str)
    ensures
        r@ == "v1"@,
{
    "v1"
}

/// Transaction event representing an observed transfer.
#[derive(Debug, Clone)]
pub struct TxEvent {
    /// Schema version for forward compatibility
    pub schema_version: String,
    /// Unique event identifier
    pub event_id: EventId,
    /// When the transaction occurred on-chain (epoch milliseconds)
    pub occurred_at_ms: i64,
    /// When we observed the transaction (epoch milliseconds)
    pub observed_at_ms: i64,
    /// Subject (user/account) of the transaction
    pub subject: Subject,
    /// Blockchain chain identifier
    pub chain: Chain,
    /// Transaction hash (empty for inline requests)
    pub tx_hash: String,
    /// Direction of the transfer
    pub direction: Direction,
    /// Asset being transferred
    pub asset: Asset,
    /// Amount in base units (string for precision)
    pub amount: String,
    /// USD value at observation time
    pub usd_value: Usd,
    /// Number of confirmations
    pub confirmations: u32,
    /// Maximum finality depth for the chain
    pub max_finality_depth: u32,
}

impl TxEvent {
    /// Create a new transaction event stamped with the given time.
    pub fn new(subject: Subject, asset: Asset, usd_value: Usd, direction: Direction, now_ms: i64) -> (r:
        TxEvent)
        ensures
            r.schema_version@ == "v1"@,
            r.occurred_at_ms == now_ms,
            r.observed_at_ms == now_ms,
            r.subject == subject,
            r.chain@ == "INLINE"@,
            r.tx_hash@ == Seq::<char>::empty(),
            r.direction == direction,
            r.asset == asset,
            r.amount@ == Seq::<char>::empty(),
            r.usd_value == usd_value,
            r.confirmations == 0,
            r.max_finality_depth == 0,
    {
        TxEvent {
            schema_version: String::from_str(schema_version()),
            event_id: EventId::new(),
            occurred_at_ms: now_ms,
            observed_at_ms: now_ms,
            subject,
            chain: Chain::inline(),
            tx_hash: String::new(),
            direction,
            asset,
            amount: String::new(),
            usd_value,
            confirmations: 0,
            max_finality_depth: 0,
        }
    }
}

/// Decision stage in the processing pipeline. The pipeline itself only
/// ever emits `Final`.
#[derive(Debug, Clone, Copy, PartialEq, Eq, Structural)]
pub enum DecisionStage {
    /// Initial fast-path decision
    Provisional,
    /// Final decision after full analysis
    Final,
    /// Manual or system override
    Override,
}

/// Decision event recording a risk decision.
#[derive(Debug, Clone)]
pub struct DecisionEvent {
    /// Schema version for forward compatibility
    pub schema_version: String,
    /// Unique decision identifier
    pub decision_id: EventId,
    /// Correlated transaction event ID
    pub event_id: EventId,
    /// When the decision was issued (epoch milliseconds)
    pub issued_at_ms: i64,
    /// Stage of the decision
    pub stage: DecisionStage,
    /// The decision outcome
    pub decision: Decision,
    /// Human-readable decision code
    pub decision_code: String,
    /// Policy version used for this decision
    pub policy_version: String,
    /// Evidence from triggered rules
    pub evidence: Vec<Evidence>,
}

/// The decision code: the first evidence record's rule id, or "OK" when no
/// rule fired.
pub open spec fn spec_pick_code(evidence: Seq<EvidenceView>) -> Seq<char> {
    if evidence.len() == 0 {
        "OK"@
    } else {
        evidence[0].rule_id
    }
}

impl DecisionEvent {
    /// Create a new final decision event stamped with the given time.
    pub fn new(
        event_id: EventId,
        decision: Decision,
        policy_version: &str,
        evidence: Vec<Evidence>,
        now_ms: i64,
    ) -> (r: DecisionEvent)
        ensures
            r.schema_version@ == "v1"@,
            r.event_id == event_id,
            r.issued_at_ms == now_ms,
            r.stage == DecisionStage::Final,
            r.decision == decision,
            r.decision_code@ == spec_pick_code(evidence@.map_values(|e: Evidence| e@)),
            r.policy_version@ == policy_version@,
            r.evidence == evidence,
    {
        let code: String = if evidence.len() == 0 {
            String::from_str("OK")
        } else {
            evidence[0].rule_id.clone()
        };
        proof {
            if evidence@.len() > 0 {
                assert(evidence@.map_values(|e: Evidence| e@)[0] == evidence@[0]@);
            }
        }
        DecisionEvent {
            schema_version: String::from_str(schema_version()),
            decision_id: EventId::new(),
            event_id,
            issued_at_ms: now_ms,
            stage: DecisionStage::Final,
            decision,
            decision_code: code,
            policy_version: String::from_str(policy_version),
            evidence,
        }
    }
}

} // verus!
