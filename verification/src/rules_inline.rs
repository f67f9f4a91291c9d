//! Stateless inline rules: sanctions screening, jurisdiction blocking and
//! the per-transaction KYC tier cap. Each evaluation is a pure function
//! of the rule's configuration and the event.

use vstd::prelude::*;
use crate::bloom::{bloom_check, bloom_elems, bloom_new, bloom_set};
use crate::decision::Decision;
use crate::evidence::{Evidence, EvidenceView, RuleResult, RuleResultView};
use crate::event::TxEvent;
use crate::policy::KycCaps;
use crate::subject::KycTier;
use crate::text;
use crate::usd::{usd_chars, Usd};

verus! {

use vstd::string::StringExecFns;

/// The result view of a rule that did not trigger.
pub open spec fn allow_view() -> RuleResultView {
    RuleResultView { hit: false, decision: Decision::Allow, evidence: None }
}

/// The first address (in order) that belongs to the sanctioned set.
pub open spec fn first_sanctioned(addrs: Seq<Seq<char>>, s: Set<Seq<char>>) -> Option<Seq<char>>
    decreases addrs.len(),
{
    if addrs.len() == 0 {
        None
    } else if s.contains(addrs[0]) {
        Some(addrs[0])
    } else {
        first_sanctioned(addrs.skip(1), s)
    }
}

proof fn lemma_first_sanctioned_none(addrs: Seq<Seq<char>>, s: Set<Seq<char>>)
    requires
        forall|j: int| 0 <= j < addrs.len() ==> !s.contains(#[trigger] addrs[j]),
    ensures
        first_sanctioned(addrs, s) is None,
    decreases addrs.len(),
{
    if addrs.len() > 0 {
        assert(forall|j: int|
            0 <= j < addrs.skip(1).len() ==> addrs.skip(1)[j] == addrs[j + 1]);
        lemma_first_sanctioned_none(addrs.skip(1), s);
    }
}

proof fn lemma_first_sanctioned_at(addrs: Seq<Seq<char>>, s: Set<Seq<char>>, i: int)
    requires
        0 <= i < addrs.len(),
        forall|j: int| 0 <= j < i ==> !s.contains(#[trigger] addrs[j]),
        s.contains(addrs[i]),
    ensures
        first_sanctioned(addrs, s) == Some(addrs[i]),
    decreases i,
{
    if i == 0 {
    } else {
        assert(!s.contains(addrs[0]));
        assert(forall|j: int|
            0 <= j < addrs.skip(1).len() ==> addrs.skip(1)[j] == addrs[j + 1]);
        lemma_first_sanctioned_at(addrs.skip(1), s, i - 1);
    }
}

/// Extending a mapped prefix by one element inserts exactly that
/// element's image into the prefix's set.
proof fn lemma_prefix_to_set_insert(v: Seq<String>, j: int)
    requires
        0 <= j < v.len(),
    ensures
        v.subrange(0, j + 1).map_values(|a: String| a@).to_set() == v.subrange(0, j).map_values(
            |a: String| a@,
        ).to_set().insert(v[j]@),
    decreases 0int,
{
    let p0 = v.subrange(0, j).map_values(|a: String| a@);
    let p1 = v.subrange(0, j + 1).map_values(|a: String| a@);
    assert forall|e: Seq<char>| p1.to_set().contains(e) implies p0.to_set().insert(v[j]@).contains(
        e,
    ) by {
        let k = choose|k: int| 0 <= k < p1.len() && p1[k] == e;
        if k < j {
            assert(p0[k] == e);
        } else {
            assert(e == v[j]@);
        }
    }
    assert forall|e: Seq<char>| p0.to_set().insert(v[j]@).contains(e) implies p1.to_set().contains(
        e,
    ) by {
        if e == v[j]@ {
            assert(p1[j] == e);
        } else {
            let k = choose|k: int| 0 <= k < p0.len() && p0[k] == e;
            assert(p1[k] == e);
        }
    }
    assert(p1.to_set() =~= p0.to_set().insert(v[j]@));
}

/// OFAC sanctions address screening rule.
///
/// A bloom filter gives fast negative answers; positive bloom results are
/// confirmed against the exact set, so the rule's outcome is exactly set
/// membership — the filter is an optimization, not a semantic element.
#[derive(Debug)]
pub struct OfacRule {
    id: String,
    action: Decision,
    /// Bloom filter for fast negative checks; absent if it could not be
    /// seeded, in which case only the exact set is consulted.
    bloom: Option<bloomfilter::Bloom<String>>,
    /// Definitive set of normalized (lowercase) sanctioned addresses
    addresses: Vec<String>,
}

impl OfacRule {
    /// The filter, when present, has recorded exactly the sanctioned set:
    /// this is what makes a negative bloom answer definitive.
    #[verifier::type_invariant]
    pub closed spec fn inv(self) -> bool {
        match self.bloom {
            Some(b) => bloom_elems(b) == self.spec_sanctions(),
            None => true,
        }
    }

    /// The rule identifier, as characters.
    pub closed spec fn spec_id(self) -> Seq<char> {
        self.id@
    }

    /// The configured action.
    pub closed spec fn spec_action(self) -> Decision {
        self.action
    }

    /// The set of normalized sanctioned addresses.
    pub closed spec fn spec_sanctions(self) -> Set<Seq<char>> {
        self.addresses@.map_values(|a: String| a@).to_set()
    }

    /// What evaluation returns: the configured action and the first
    /// sanctioned address as evidence, or an allowing result.
    pub open spec fn spec_eval(self, event: TxEvent) -> RuleResultView {
        match first_sanctioned(event.subject.spec_addresses(), self.spec_sanctions()) {
            Some(a) => RuleResultView {
                hit: true,
                decision: self.spec_action(),
                evidence: Some(
                    EvidenceView {
                        rule_id: self.spec_id(),
                        key: "address"@,
                        value: a,
                        limit: None,
                    },
                ),
            },
            None => allow_view(),
        }
    }

    /// Create a new OFAC rule with the given sanctions list. Addresses are
    /// normalized to lowercase.
    pub fn new(id: String, action: Decision, sanctions: Vec<String>) -> (r: OfacRule)
        ensures
            r.spec_id() == id@,
            r.spec_action() == action,
            r.spec_sanctions() == sanctions@.map_values(|a: String| text::lower_seq(a@)).to_set(),
    {
        let mut normalized: Vec<String> = Vec::new();
        let mut i: usize = 0;
        while i < sanctions.len()
            invariant
                i <= sanctions@.len(),
                normalized@.len() == i,
                forall|j: int|
                    0 <= j < i ==> (#[trigger] normalized@[j])@ == text::lower_seq(
                        sanctions@[j]@,
                    ),
            decreases sanctions@.len() - i,
        {
            let low = text::ascii_lower(sanctions[i].as_str());
            normalized.push(low);
            i = i + 1;
        }
        proof {
            assert(normalized@.map_values(|a: String| a@) =~= sanctions@.map_values(
                |a: String| text::lower_seq(a@),
            ));
        }
        // Size the filter for the expected item count at a ~1% target
        // false-positive rate (about 1.2 bytes per item).
        let item_count: usize = if normalized.len() < 100 {
            100
        } else {
            normalized.len()
        };
        let bloom: Option<bloomfilter::Bloom<String>> = if item_count <= (usize::MAX - 5) / 6 {
            let bitmap_bytes: usize = item_count * 6 / 5 + 1;
            match bloom_new(bitmap_bytes, item_count) {
                Some(mut b) => {
                    let mut j: usize = 0;
                    proof {
                        assert(normalized@.subrange(0, 0).map_values(|a: String| a@).to_set()
                            =~= Set::<Seq<char>>::empty());
                    }
                    while j < normalized.len()
                        invariant
                            j <= normalized@.len(),
                            bloom_elems(b) == normalized@.subrange(0, j as int).map_values(
                                |a: String| a@,
                            ).to_set(),
                        decreases normalized@.len() - j,
                    {
                        proof {
                            lemma_prefix_to_set_insert(normalized@, j as int);
                        }
                        bloom_set(&mut b, &normalized[j]);
                        j = j + 1;
                    }
                    proof {
                        assert(normalized@.subrange(0, normalized@.len() as int) =~= normalized@);
                    }
                    Some(b)
                },
                None => None,
            }
        } else {
            None
        };
        OfacRule { id, action, bloom, addresses: normalized }
    }

    /// The rule identifier.
    pub fn id(&self) -> (r: &str)
        ensures
            r@ == self.spec_id(),
    {
        self.id.as_str()
    }

    /// Check if an address is sanctioned: exactly membership in the
    /// normalized sanctions set. A negative bloom answer short-circuits;
    /// a positive one is confirmed against the exact set, so the filter
    /// never changes the outcome.
    fn is_sanctioned(&self, addr: &str) -> (r: bool)
        ensures
            r == self.spec_sanctions().contains(text::lower_seq(addr@)),
    {
        proof {
            use_type_invariant(self);
        }
        let normalized = text::ascii_lower(addr);
        match &self.bloom {
            Some(b) => {
                if !bloom_check(b, &normalized) {
                    return false;
                }
            },
            None => {},
        }
        let mut k: usize = 0;
        while k < self.addresses.len()
            invariant
                k <= self.addresses@.len(),
                normalized@ == text::lower_seq(addr@),
                forall|j: int|
                    0 <= j < k ==> (#[trigger] self.addresses@[j])@ != normalized@,
            decreases self.addresses@.len() - k,
        {
            if text::str_eq(self.addresses[k].as_str(), normalized.as_str()) {
                proof {
                    assert(self.addresses@.map_values(|a: String| a@)[k as int] == normalized@);
                    lemma_map_to_set_contains(self.addresses@, k as int);
                }
                return true;
            }
            k = k + 1;
        }
        proof {
            lemma_map_to_set_absent(self.addresses@, normalized@);
        }
        false
    }

    /// Evaluate the rule: check each of the subject's addresses, in order,
    /// and trigger on the first sanctioned one.
    pub fn evaluate(&self, event: &TxEvent) -> (r: RuleResult)
        ensures
            r@ == self.spec_eval(*event),
            r.wf(),
    {
        let ghost addrs = event.subject.spec_addresses();
        let mut i: usize = 0;
        while i < event.subject.addresses.len()
            invariant
                i <= addrs.len(),
                addrs == event.subject.spec_addresses(),
                forall|j: int|
                    0 <= j < i ==> !self.spec_sanctions().contains(#[trigger] addrs[j]),
            decreases addrs.len() - i,
        {
            let addr = &event.subject.addresses[i];
            proof {
                use_type_invariant(addr);
                assert(addrs[i as int] == event.subject.addresses@[i as int]@);
            }
            if self.is_sanctioned(addr.as_str()) {
                proof {
                    lemma_first_sanctioned_at(addrs, self.spec_sanctions(), i as int);
                }
                return RuleResult::trigger(
                    self.action,
                    Evidence::new(self.id.as_str(), "address", addr.as_str()),
                );
            }
            i = i + 1;
        }
        proof {
            lemma_first_sanctioned_none(addrs, self.spec_sanctions());
        }
        RuleResult::allow()
    }

}

proof fn lemma_map_to_set_contains(v: Seq<String>, i: int)
    requires
        0 <= i < v.len(),
    ensures
        v.map_values(|a: String| a@).to_set().contains(v.map_values(|a: String| a@)[i]),
{
    let m = v.map_values(|a: String| a@);
    assert(m.contains(m[i]));
}

proof fn lemma_map_to_set_absent(v: Seq<String>, x: Seq<char>)
    requires
        forall|j: int| 0 <= j < v.len() ==> (#[trigger] v[j])@ != x,
    ensures
        !v.map_values(|a: String| a@).to_set().contains(x),
{
    let m = v.map_values(|a: String| a@);
    assert(forall|j: int| 0 <= j < m.len() ==> m[j] != x);
    if m.to_set().contains(x) {
        assert(m.contains(x));
        let j = choose|j: int| 0 <= j < m.len() && m[j] == x;
        assert(false);
    }
}

/// Jurisdiction blocking rule: blocks transactions from specific
/// countries by ISO 3166-1 alpha-2 code. An empty country code is treated
/// as unknown and never blocked.
#[derive(Debug)]
pub struct JurisdictionRule {
    /// Unique rule identifier
    pub id: String,
    /// Action when the rule triggers
    pub action: Decision,
    /// Set of blocked country codes (uppercase)
    pub blocked: Vec<String>,
}

impl JurisdictionRule {
    /// The blocked country codes, uppercased, as a set.
    pub open spec fn spec_blocked(self) -> Set<Seq<char>> {
        self.blocked@.map_values(|c: String| c@).to_set()
    }

    /// What evaluation returns: the configured action with the country as
    /// evidence iff the subject's country is non-empty and blocked.
    pub open spec fn spec_eval(self, event: TxEvent) -> RuleResultView {
        if event.subject.geo_iso@.len() > 0 && self.spec_blocked().contains(
            text::upper_seq(event.subject.geo_iso@),
        ) {
            RuleResultView {
                hit: true,
                decision: self.action,
                evidence: Some(
                    EvidenceView {
                        rule_id: self.id@,
                        key: "geo_iso"@,
                        value: event.subject.geo_iso@,
                        limit: None,
                    },
                ),
            }
        } else {
            allow_view()
        }
    }

    /// Create a new jurisdiction rule; country codes are normalized to
    /// uppercase.
    pub fn new(id: String, action: Decision, blocked_countries: Vec<String>) -> (r:
        JurisdictionRule)
        ensures
            r.id@ == id@,
            r.action == action,
            r.spec_blocked() == blocked_countries@.map_values(
                |c: String| text::upper_seq(c@),
            ).to_set(),
    {
        let mut blocked: Vec<String> = Vec::new();
        let mut i: usize = 0;
        while i < blocked_countries.len()
            invariant
                i <= blocked_countries@.len(),
                blocked@.len() == i,
                forall|j: int|
                    0 <= j < i ==> (#[trigger] blocked@[j])@ == text::upper_seq(
                        blocked_countries@[j]@,
                    ),
            decreases blocked_countries@.len() - i,
        {
            blocked.push(text::ascii_upper(blocked_countries[i].as_str()));
            i = i + 1;
        }
        proof {
            assert(blocked@.map_values(|c: String| c@) =~= blocked_countries@.map_values(
                |c: String| text::upper_seq(c@),
            ));
        }
        JurisdictionRule { id, action, blocked }
    }

    /// Check if a country code is blocked (case-insensitively).
    pub fn is_blocked(&self, country_code: &str) -> (r: bool)
        ensures
            r == self.spec_blocked().contains(text::upper_seq(country_code@)),
    {
        let upper = text::ascii_upper(country_code);
        let mut k: usize = 0;
        while k < self.blocked.len()
            invariant
                k <= self.blocked@.len(),
                upper@ == text::upper_seq(country_code@),
                forall|j: int| 0 <= j < k ==> (#[trigger] self.blocked@[j])@ != upper@,
            decreases self.blocked@.len() - k,
        {
            if text::str_eq(self.blocked[k].as_str(), upper.as_str()) {
                proof {
                    assert(self.blocked@.map_values(|c: String| c@)[k as int] == upper@);
                    lemma_map_to_set_contains(self.blocked@, k as int);
                }
                return true;
            }
            k = k + 1;
        }
        proof {
            lemma_map_to_set_absent(self.blocked@, upper@);
        }
        false
    }

    /// The rule identifier.
    pub fn id(&self) -> (r: &str)
        ensures
            r@ == self.id@,
    {
        self.id.as_str()
    }

    /// Evaluate the rule against the subject's country.
    pub fn evaluate(&self, event: &TxEvent) -> (r: RuleResult)
        ensures
            r@ == self.spec_eval(*event),
            r.wf(),
    {
        let country = event.subject.geo_iso.as_str();
        if country.unicode_len() == 0 {
            return RuleResult::allow();
        }
        if self.is_blocked(country) {
            return RuleResult::trigger(
                self.action,
                Evidence::new(self.id.as_str(), "geo_iso", country),
            );
        }
        RuleResult::allow()
    }
}

/// KYC tier transaction cap rule: enforces per-transaction USD limits
/// based on the user's verification level. A tier with no configured cap,
/// or a zero/negative cap, imposes no limit; at-cap transactions pass.
#[derive(Debug)]
pub struct KycCapRule {
    /// Unique rule identifier
    pub id: String,
    /// Action when the rule triggers
    pub action: Decision,
    /// Per-tier caps in USD
    pub caps: KycCaps,
}

impl KycCapRule {
    /// What evaluation returns: a hit with value and limit evidence iff
    /// the tier has a positive cap and the value strictly exceeds it.
    pub open spec fn spec_eval(self, event: TxEvent) -> RuleResultView {
        match self.caps.spec_cap(event.subject.kyc_tier) {
            Some(cap) => if cap@ > 0 && event.usd_value@ > cap@ {
                RuleResultView {
                    hit: true,
                    decision: self.action,
                    evidence: Some(
                        EvidenceView {
                            rule_id: self.id@,
                            key: "usd_value"@,
                            value: usd_chars(event.usd_value@),
                            limit: Some(usd_chars(cap@)),
                        },
                    ),
                }
            } else {
                allow_view()
            },
            None => allow_view(),
        }
    }

    /// Create a new KYC cap rule with tier limits.
    pub fn new(id: String, action: Decision, caps: KycCaps) -> (r: KycCapRule)
        ensures
            r.id@ == id@,
            r.action == action,
            r.caps == caps,
    {
        KycCapRule { id, action, caps }
    }

    /// The rule identifier.
    pub fn id(&self) -> (r: &str)
        ensures
            r@ == self.id@,
    {
        self.id.as_str()
    }

    /// Evaluate the rule against the event's USD value.
    pub fn evaluate(&self, event: &TxEvent) -> (r: RuleResult)
        ensures
            r@ == self.spec_eval(*event),
            r.wf(),
    {
        let cap = match self.caps.cap(event.subject.kyc_tier) {
            Some(c) => c,
            None => {
                return RuleResult::allow();
            },
        };
        if !cap.is_positive() {
            return RuleResult::allow();
        }
        if event.usd_value.gt(&cap) {
            let value = event.usd_value.to_string();
            let limit = cap.to_string();
            return RuleResult::trigger(
                self.action,
                Evidence::with_limit(
                    self.id.as_str(),
                    "usd_value",
                    value.as_str(),
                    limit.as_str(),
                ),
            );
        }
        RuleResult::allow()
    }
}

/// The closed set of inline rule kinds.
#[derive(Debug)]
pub enum InlineRule {
    Ofac(OfacRule),
    Jurisdiction(JurisdictionRule),
    KycCap(KycCapRule),
}

impl InlineRule {
    /// What evaluating this rule returns.
    pub open spec fn spec_eval(self, event: TxEvent) -> RuleResultView {
        match self {
            InlineRule::Ofac(r) => r.spec_eval(event),
            InlineRule::Jurisdiction(r) => r.spec_eval(event),
            InlineRule::KycCap(r) => r.spec_eval(event),
        }
    }

    /// The rule identifier.
    pub open spec fn spec_id(self) -> Seq<char> {
        match self {
            InlineRule::Ofac(r) => r.spec_id(),
            InlineRule::Jurisdiction(r) => r.id@,
            InlineRule::KycCap(r) => r.id@,
        }
    }

    /// The rule identifier.
    pub fn id(&self) -> (r: &str)
        ensures
            r@ == self.spec_id(),
    {
        match self {
            InlineRule::Ofac(r) => r.id(),
            InlineRule::Jurisdiction(r) => r.id(),
            InlineRule::KycCap(r) => r.id(),
        }
    }

    /// Evaluate the rule against a transaction. Inline rules are pure and
    /// stateless: the result is a function of the rule and the event.
    pub fn evaluate(&self, event: &TxEvent) -> (r: RuleResult)
        ensures
            r@ == self.spec_eval(*event),
            r.wf(),
    {
        match self {
            InlineRule::Ofac(rule) => rule.evaluate(event),
            InlineRule::Jurisdiction(rule) => rule.evaluate(event),
            InlineRule::KycCap(rule) => rule.evaluate(event),
        }
    }
}

} // verus!
