//! Subject identity: the user/account a transaction is evaluated for,
//! with its addresses, country and KYC tier. Addresses are normalized to
//! lowercase on construction; country codes to uppercase.

use vstd::prelude::*;
use crate::text;

verus! {

use vstd::string::StringExecFns;

/// Unique user identifier.
#[derive(Debug, Clone, PartialEq, Eq, Hash)]
pub struct UserId(pub String);

impl View for UserId {
    type V = Seq<char>;

    open spec fn view(&self) -> Seq<char> {
        self.0@
    }
}

impl UserId {
    pub fn new(id: &str) -> (r: UserId)
        ensures
            r@ == id@,
    {
        UserId(String::from_str(id))
    }

    pub fn as_str(&self) -> (r: &str)
        ensures
            r@ == self@,
    {
        self.0.as_str()
    }
}

/// Unique account identifier.
#[derive(Debug, Clone, PartialEq, Eq, Hash)]
pub struct AccountId(pub String);

impl View for AccountId {
    type V = Seq<char>;

    open spec fn view(&self) -> Seq<char> {
        self.0@
    }
}

impl AccountId {
    pub fn new(id: &str) -> (r: AccountId)
        ensures
            r@ == id@,
    {
        AccountId(String::from_str(id))
    }
}

/// Blockchain address, held in its normalized (lowercase) form.
#[derive(Debug, PartialEq, Eq, Hash)]
pub struct Address(String);

impl Clone for Address {
    /// Cloning preserves the address text.
    fn clone(&self) -> (r: Self)
        ensures
            r@ == self@,
    {
        proof {
            use_type_invariant(self);
        }
        Address(self.0.clone())
    }
}

impl View for Address {
    type V = Seq<char>;

    closed spec fn view(&self) -> Seq<char> {
        self.0@
    }
}

impl Address {
    /// An address is always held in normalized form: lowercasing it again
    /// changes nothing.
    #[verifier::type_invariant]
    pub open spec fn inv(self) -> bool {
        self@ == text::lower_seq(self@)
    }

    /// Create a new address, normalizing to lowercase.
    pub fn new(addr: &str) -> (r: Address)
        ensures
            r@ == text::lower_seq(addr@),
    {
        proof {
            text::lemma_case_idempotent(addr@);
        }
        Address(text::ascii_lower(addr))
    }

    pub fn as_str(&self) -> (r: &str)
        ensures
            r@ == self@,
    {
        self.0.as_str()
    }

    /// Get the normalized (lowercase) form for comparison.
    pub fn normalized(&self) -> (r: &str)
        ensures
            r@ == self@,
    {
        self.0.as_str()
    }
}

/// ISO 3166-1 alpha-2 country code, held uppercase.
#[derive(Debug, Clone, PartialEq, Eq, Hash)]
pub struct CountryCode(String);

impl View for CountryCode {
    type V = Seq<char>;

    closed spec fn view(&self) -> Seq<char> {
        self.0@
    }
}

impl CountryCode {
    /// Create a new country code, normalizing to uppercase.
    pub fn new(code: &str) -> (r: CountryCode)
        ensures
            r@ == text::upper_seq(code@),
    {
        CountryCode(text::ascii_upper(code))
    }

    pub fn as_str(&self) -> (r: &str)
        ensures
            r@ == self@,
    {
        self.0.as_str()
    }
}

/// KYC verification tier.
#[derive(Debug, Clone, Copy, PartialEq, Eq, Hash, Structural)]
pub enum KycTier {
    /// Unverified or minimal verification
    L0,
    /// Basic verification (ID check)
    L1,
    /// Full verification (ID + address + source of funds)
    L2,
}

impl KycTier {
    /// The canonical tier name.
    pub open spec fn spec_name(self) -> Seq<char> {
        match self {
            KycTier::L0 => "L0"@,
            KycTier::L1 => "L1"@,
            KycTier::L2 => "L2"@,
        }
    }

    /// The tier whose name matches the given uppercased characters.
    pub open spec fn spec_of_name(s: Seq<char>) -> Option<KycTier> {
        if s == "L0"@ {
            Some(KycTier::L0)
        } else if s == "L1"@ {
            Some(KycTier::L1)
        } else if s == "L2"@ {
            Some(KycTier::L2)
        } else {
            None
        }
    }

    /// Parse a tier name, case-insensitively.
    pub fn from_str(s: &str) -> (r: Option<KycTier>)
        ensures
            r == KycTier::spec_of_name(text::upper_seq(s@)),
    {
        let upper = text::ascii_upper(s);
        if text::str_eq(upper.as_str(), "L0") {
            Some(KycTier::L0)
        } else if text::str_eq(upper.as_str(), "L1") {
            Some(KycTier::L1)
        } else if text::str_eq(upper.as_str(), "L2") {
            Some(KycTier::L2)
        } else {
            None
        }
    }

    pub fn as_str(&self) -> (r: &'static str)
        ensures
            r@ == self.spec_name(),
    {
        match self {
            KycTier::L0 => "L0",
            KycTier::L1 => "L1",
            KycTier::L2 => "L2",
        }
    }
}

impl Default for KycTier {
    /// The default tier is the unverified one.
    fn default() -> (r: Self)
        ensures
            r == KycTier::L0,
    {
        KycTier::L0
    }
}

/// Subject of a transaction: the user/account being evaluated.
#[derive(Debug, Clone)]
pub struct Subject {
    /// Unique user identifier
    pub user_id: UserId,
    /// Account identifier within the user
    pub account_id: AccountId,
    /// Blockchain addresses associated with this subject
    pub addresses: Vec<Address>,
    /// Geographic location (ISO country code)
    pub geo_iso: CountryCode,
    /// KYC verification level
    pub kyc_tier: KycTier,
}

impl Subject {
    /// The subject's address character sequences, in order.
    pub open spec fn spec_addresses(self) -> Seq<Seq<char>> {
        self.addresses@.map_values(|a: Address| a@)
    }

    /// Check whether any of the subject's addresses equals the given
    /// (already normalized) address text.
    pub fn has_address(&self, target: &str) -> (r: bool)
        ensures
            r == self.spec_addresses().contains(target@),
    {
        let mut i: usize = 0;
        while i < self.addresses.len()
            invariant
                i <= self.addresses@.len(),
                forall|j: int| 0 <= j < i ==> self.spec_addresses()[j] != target@,
            decreases self.addresses@.len() - i,
        {
            if text::str_eq(self.addresses[i].as_str(), target) {
                proof {
                    assert(self.spec_addresses()[i as int] == target@);
                }
                return true;
            }
            i = i + 1;
        }
        proof {
            assert(forall|j: int|
                0 <= j < self.spec_addresses().len() ==> self.spec_addresses()[j] != target@);
        }
        false
    }
}

} // verus!
