//! Exact fixed-point USD amounts. All USD arithmetic and comparison in the
//! engine is exact on this type: an amount is an integer count of cents,
//! so a transaction at exactly a cap never compares greater than the cap.
//!
//! The canonical text rendering matches the usual decimal form: whole
//! amounts render without a fraction ("1000"), fractional amounts with
//! exactly two digits ("5000.50").

use vstd::prelude::*;
use crate::text;
use crate::text::{dec_digits, digit_char, digits_val, is_digit_char};

verus! {

/// Largest magnitude an amount may hold, in cents. Chosen so that a full
/// rolling window of per-transaction-sized entries sums without overflow.
pub const USD_ABS_MAX_CENTS: i64 = 2_000_000_000_000_000_000;

/// Largest magnitude a single transaction amount may hold, in cents.
/// `MAX_TX_ENTRIES` entries of this size sum to at most
/// 10^18 <= `USD_ABS_MAX_CENTS`.
pub const TX_ABS_MAX_CENTS: i64 = 100_000_000_000_000;

/// An exact USD amount: an integer count of cents.
#[derive(Debug, Clone, Copy, PartialEq, Eq, Structural, Hash)]
pub struct Usd {
    cents: i64,
}

impl View for Usd {
    type V = int;

    closed spec fn view(&self) -> int {
        self.cents as int
    }
}

impl Usd {
    /// Every amount the engine handles is bounded in magnitude.
    #[verifier::type_invariant]
    pub open spec fn inv(self) -> bool {
        -USD_ABS_MAX_CENTS <= self@ <= USD_ABS_MAX_CENTS
    }

    /// An amount small enough to be a single transaction's value.
    pub open spec fn tx_sized(self) -> bool {
        -TX_ABS_MAX_CENTS <= self@ <= TX_ABS_MAX_CENTS
    }

    /// The zero amount.
    pub fn zero() -> (r: Usd)
        ensures
            r@ == 0,
    {
        Usd { cents: 0 }
    }

    /// Build an amount from a cent count.
    pub fn from_cents(cents: i64) -> (r: Usd)
        requires
            -USD_ABS_MAX_CENTS <= cents <= USD_ABS_MAX_CENTS,
        ensures
            r@ == cents,
    {
        Usd { cents }
    }

    /// Build an amount from a cent count, rejecting out-of-range values.
    pub fn checked_from_cents(cents: i64) -> (r: Option<Usd>)
        ensures
            r matches Some(u) ==> u@ == cents,
            r is Some <==> -USD_ABS_MAX_CENTS <= cents <= USD_ABS_MAX_CENTS,
    {
        if -USD_ABS_MAX_CENTS <= cents && cents <= USD_ABS_MAX_CENTS {
            Some(Usd { cents })
        } else {
            None
        }
    }

    /// Build an amount from a whole-dollar count.
    pub fn from_dollars(dollars: i64) -> (r: Usd)
        requires
            -USD_ABS_MAX_CENTS / 100 <= dollars <= USD_ABS_MAX_CENTS / 100,
        ensures
            r@ == dollars * 100,
    {
        Usd { cents: dollars * 100 }
    }

    /// The amount as a cent count.
    pub fn cents(&self) -> (r: i64)
        ensures
            r == self@,
    {
        proof {
            use_type_invariant(self);
        }
        self.cents
    }

    /// Exact sum, or `None` when the sum leaves the representable range.
    pub fn add(self, other: Usd) -> (r: Option<Usd>)
        ensures
            r matches Some(u) ==> u@ == self@ + other@,
            r is Some <==> -USD_ABS_MAX_CENTS <= self@ + other@ <= USD_ABS_MAX_CENTS,
    {
        proof {
            use_type_invariant(self);
            use_type_invariant(other);
        }
        let s: i64 = self.cents + other.cents;
        Usd::checked_from_cents(s)
    }

    /// Exact strict comparison: `self` is greater than `other`.
    pub fn gt(&self, other: &Usd) -> (r: bool)
        ensures
            r == (self@ > other@),
    {
        proof {
            use_type_invariant(self);
            use_type_invariant(other);
        }
        self.cents > other.cents
    }

    /// Exact strict comparison: `self` is less than `other`.
    pub fn lt(&self, other: &Usd) -> (r: bool)
        ensures
            r == (self@ < other@),
    {
        proof {
            use_type_invariant(self);
            use_type_invariant(other);
        }
        self.cents < other.cents
    }

    /// Whether the amount is small enough to be one transaction's value.
    pub fn is_tx_sized(&self) -> (r: bool)
        ensures
            r == self.tx_sized(),
    {
        proof {
            use_type_invariant(self);
        }
        -TX_ABS_MAX_CENTS <= self.cents && self.cents <= TX_ABS_MAX_CENTS
    }

    /// The amount is strictly positive.
    pub fn is_positive(&self) -> (r: bool)
        ensures
            r == (self@ > 0),
    {
        proof {
            use_type_invariant(self);
        }
        self.cents > 0
    }

    /// Render the amount in its canonical decimal form.
    pub fn to_string(&self) -> (s: String)
        ensures
            s@ == usd_chars(self@),
    {
        let v = self.to_chars();
        text::chars_to_string(&v)
    }

    /// Render the amount in its canonical decimal form, as characters.
    pub fn to_chars(&self) -> (v: Vec<char>)
        ensures
            v@ == usd_chars(self@),
    {
        proof {
            use_type_invariant(self);
        }
        let mut out: Vec<char> = Vec::new();
        let a: u64 = if self.cents < 0 {
            out.push('-');
            (-self.cents) as u64
        } else {
            self.cents as u64
        };
        let dollars: u64 = a / 100;
        let rem: u64 = a % 100;
        let mut ds = text::u64_to_chars(dollars);
        out.append(&mut ds);
        if rem != 0 {
            proof {
                vstd::arithmetic::div_mod::lemma_mod_mod(a as int, 10, 10);
                assert(rem % 10 == a as int % 10);
            }
            out.push('.');
            out.push(text::digit_to_char(rem / 10));
            out.push(text::digit_to_char(rem % 10));
        }
        proof {
            if self.cents < 0 {
                assert(out@ =~= seq!['-'] + usd_chars_abs(a as nat));
            } else {
                assert(out@ =~= usd_chars_abs(a as nat));
            }
        }
        out
    }
}

/// The canonical decimal rendering of a cent count.
pub open spec fn usd_chars(c: int) -> Seq<char> {
    if c < 0 {
        seq!['-'] + usd_chars_abs((-c) as nat)
    } else {
        usd_chars_abs(c as nat)
    }
}

/// The canonical decimal rendering of a non-negative cent count: the whole
/// dollars, then ".dd" only when the cent remainder is non-zero.
pub open spec fn usd_chars_abs(a: nat) -> Seq<char> {
    if a % 100 == 0 {
        dec_digits(a / 100)
    } else {
        dec_digits(a / 100) + seq!['.', digit_char((a % 100) / 10), digit_char(a % 10)]
    }
}

} // verus!
