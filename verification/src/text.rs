//! Character-level text utilities shared by the engine: ASCII case
//! normalization, decimal digit formatting and parsing, and substring
//! search. All operations are specified over `Seq<char>` views.

use vstd::prelude::*;

verus! {

use vstd::string::StrSliceExecFns;
use vstd::string::StringExecFns;

/// Uppercase an ASCII letter; leave every other character unchanged.
pub open spec fn to_upper_char(c: char) -> char {
    if 'a' <= c && c <= 'z' {
        ((c as u8) - 32) as char
    } else {
        c
    }
}

/// Lowercase an ASCII letter; leave every other character unchanged.
pub open spec fn to_lower_char(c: char) -> char {
    if 'A' <= c && c <= 'Z' {
        ((c as u8) + 32) as char
    } else {
        c
    }
}

pub open spec fn upper_seq(s: Seq<char>) -> Seq<char> {
    s.map_values(|c: char| to_upper_char(c))
}

pub open spec fn lower_seq(s: Seq<char>) -> Seq<char> {
    s.map_values(|c: char| to_lower_char(c))
}

/// ASCII case mapping is idempotent: lowering an already-lowered sequence
/// changes nothing, and likewise for uppering.
pub proof fn lemma_case_idempotent(s: Seq<char>)
    ensures
        lower_seq(lower_seq(s)) == lower_seq(s),
        upper_seq(upper_seq(s)) == upper_seq(s),
{
    assert(lower_seq(lower_seq(s)) =~= lower_seq(s));
    assert(upper_seq(upper_seq(s)) =~= upper_seq(s));
}

/// Collect the characters of a string slice into a vector.
pub fn str_chars(s: &str) -> (v: Vec<char>)
    ensures
        v@ == s@,
{
    let n: usize = s.unicode_len();
    let mut v: Vec<char> = Vec::new();
    let mut i: usize = 0;
    while i < n
        invariant
            i <= n,
            n == s@.len(),
            v@ == s@.subrange(0, i as int),
        decreases n - i,
    {
        v.push(s.get_char(i));
        i = i + 1;
        proof {
            assert(v@ =~= s@.subrange(0, i as int));
        }
    }
    proof {
        assert(v@ =~= s@);
    }
    v
}

/// Relies on `String::from_iter` (via `Iterator::collect`): the collected
/// string holds exactly the given characters, in order.
#[verifier::external_body]
pub fn chars_to_string(v: &Vec<char>) -> (s: String)
    ensures
        s@ == v@,
{
    v.iter().collect()
}

/// ASCII-uppercase every character of a string.
pub fn ascii_upper(s: &str) -> (r: String)
    ensures
        r@ == upper_seq(s@),
{
    let chars = str_chars(s);
    let mut out: Vec<char> = Vec::new();
    let mut i: usize = 0;
    while i < chars.len()
        invariant
            i <= chars@.len(),
            chars@ == s@,
            out@ == upper_seq(s@).subrange(0, i as int),
        decreases chars@.len() - i,
    {
        let c = chars[i];
        if 'a' <= c && c <= 'z' {
            out.push(((c as u8) - 32) as char);
        } else {
            out.push(c);
        }
        i = i + 1;
        proof {
            assert(out@ =~= upper_seq(s@).subrange(0, i as int));
        }
    }
    proof {
        assert(out@ =~= upper_seq(s@));
    }
    chars_to_string(&out)
}

/// ASCII-lowercase every character of a string.
pub fn ascii_lower(s: &str) -> (r: String)
    ensures
        r@ == lower_seq(s@),
{
    let chars = str_chars(s);
    let mut out: Vec<char> = Vec::new();
    let mut i: usize = 0;
    while i < chars.len()
        invariant
            i <= chars@.len(),
            chars@ == s@,
            out@ == lower_seq(s@).subrange(0, i as int),
        decreases chars@.len() - i,
    {
        let c = chars[i];
        if 'A' <= c && c <= 'Z' {
            out.push(((c as u8) + 32) as char);
        } else {
            out.push(c);
        }
        i = i + 1;
        proof {
            assert(out@ =~= lower_seq(s@).subrange(0, i as int));
        }
    }
    proof {
        assert(out@ =~= lower_seq(s@));
    }
    chars_to_string(&out)
}

/// Compare two string slices by their character sequences.
pub fn str_eq(a: &str, b: &str) -> (r: bool)
    ensures
        r == (a@ == b@),
{
    let sa = String::from_str(a);
    let sb = String::from_str(b);
    sa == sb
}

/// The character for a single decimal digit.
pub open spec fn digit_char(d: nat) -> char {
    if d == 0 {
        '0'
    } else if d == 1 {
        '1'
    } else if d == 2 {
        '2'
    } else if d == 3 {
        '3'
    } else if d == 4 {
        '4'
    } else if d == 5 {
        '5'
    } else if d == 6 {
        '6'
    } else if d == 7 {
        '7'
    } else if d == 8 {
        '8'
    } else {
        '9'
    }
}

/// The canonical decimal rendering of a natural number: no sign, no
/// leading zeroes (except for zero itself).
pub open spec fn dec_digits(n: nat) -> Seq<char>
    decreases n,
{
    if n < 10 {
        seq![digit_char(n)]
    } else {
        dec_digits(n / 10).push(digit_char(n % 10))
    }
}

/// Render a `u64` in decimal.
pub fn u64_to_chars(n: u64) -> (v: Vec<char>)
    ensures
        v@ == dec_digits(n as nat),
{
    if n == 0 {
        let mut v: Vec<char> = Vec::new();
        v.push('0');
        proof {
            assert(v@ =~= dec_digits(0));
        }
        return v;
    }
    let mut rev: Vec<char> = Vec::new();
    let mut m: u64 = n;
    proof {
        assert(Seq::<char>::empty().reverse() =~= Seq::<char>::empty());
        assert(dec_digits(n as nat) + Seq::<char>::empty() =~= dec_digits(n as nat));
    }
    while m > 0
        invariant
            m > 0 ==> dec_digits(n as nat) == dec_digits(m as nat) + rev@.reverse(),
            m == 0 ==> dec_digits(n as nat) == rev@.reverse(),
        decreases m,
    {
        let d: u64 = m % 10;
        let c = digit_to_char(d);
        proof {
            assert(rev@.push(c).reverse() =~= seq![c] + rev@.reverse());
            if m >= 10 {
                assert(dec_digits(m as nat) == dec_digits((m / 10) as nat).push(c));
                assert(dec_digits((m / 10) as nat).push(c) + rev@.reverse() =~= dec_digits(
                    (m / 10) as nat,
                ) + (seq![c] + rev@.reverse()));
            } else {
                assert(dec_digits(m as nat) =~= seq![c]);
                assert(seq![c] + rev@.reverse() =~= rev@.push(c).reverse());
            }
        }
        rev.push(c);
        m = m / 10;
    }
    let mut v: Vec<char> = Vec::new();
    let mut i: usize = rev.len();
    proof {
        assert(rev@.subrange(i as int, rev@.len() as int).reverse() =~= Seq::<char>::empty());
    }
    while i > 0
        invariant
            i <= rev@.len(),
            v@ == rev@.subrange(i as int, rev@.len() as int).reverse(),
        decreases i,
    {
        i = i - 1;
        v.push(rev[i]);
        proof {
            assert(v@ =~= rev@.subrange(i as int, rev@.len() as int).reverse());
        }
    }
    proof {
        assert(rev@.subrange(0, rev@.len() as int) =~= rev@);
    }
    v
}

/// Render a single decimal digit.
pub fn digit_to_char(d: u64) -> (c: char)
    requires
        d < 10,
    ensures
        c == digit_char(d as nat),
{
    if d == 0 {
        '0'
    } else if d == 1 {
        '1'
    } else if d == 2 {
        '2'
    } else if d == 3 {
        '3'
    } else if d == 4 {
        '4'
    } else if d == 5 {
        '5'
    } else if d == 6 {
        '6'
    } else if d == 7 {
        '7'
    } else if d == 8 {
        '8'
    } else {
        '9'
    }
}

/// Render a `u64` in decimal as a `String`.
pub fn u64_to_string(n: u64) -> (s: String)
    ensures
        s@ == dec_digits(n as nat),
{
    let v = u64_to_chars(n);
    chars_to_string(&v)
}

pub open spec fn is_digit_char(c: char) -> bool {
    '0' <= c && c <= '9'
}

pub open spec fn digit_val(c: char) -> nat {
    (c as nat - '0' as nat) as nat
}

/// The numeric value of a digit string, most significant digit first.
pub open spec fn digits_val(s: Seq<char>) -> nat
    decreases s.len(),
{
    if s.len() == 0 {
        0
    } else {
        digits_val(s.drop_last()) * 10 + digit_val(s.last())
    }
}

/// A canonical decimal rendering: all digits, non-empty, and no leading
/// zero unless the value is exactly zero.
pub open spec fn is_canonical_digits(s: Seq<char>) -> bool {
    &&& s.len() > 0
    &&& forall|i: int| 0 <= i < s.len() ==> is_digit_char(#[trigger] s[i])
    &&& (s.len() > 1 ==> s[0] != '0')
}

pub proof fn lemma_digit_char_val(d: nat)
    requires
        d < 10,
    ensures
        is_digit_char(digit_char(d)),
        digit_val(digit_char(d)) == d,
{
}

/// `dec_digits` renders exactly the canonical digit strings, and
/// `digits_val` reads the value back.
pub proof fn lemma_dec_digits_val(n: nat)
    ensures
        is_canonical_digits(dec_digits(n)),
        digits_val(dec_digits(n)) == n,
        dec_digits(n).len() >= 1,
    decreases n,
{
    if n < 10 {
        lemma_digit_char_val(n);
        assert(dec_digits(n) =~= seq![digit_char(n)]);
        assert(dec_digits(n).drop_last() =~= Seq::<char>::empty());
        assert(dec_digits(n).last() == digit_char(n));
        assert(digits_val(dec_digits(n)) == digits_val(Seq::<char>::empty()) * 10 + digit_val(
            digit_char(n),
        ));
        assert(digits_val(dec_digits(n)) == n);
    } else {
        lemma_dec_digits_val(n / 10);
        lemma_digit_char_val(n % 10);
        let s = dec_digits(n);
        let p = dec_digits(n / 10);
        assert(s == p.push(digit_char(n % 10)));
        assert(s.drop_last() =~= p);
        assert(s.last() == digit_char(n % 10));
        assert(digits_val(s) == digits_val(p) * 10 + (n % 10));
        assert(digits_val(p) == n / 10);
        vstd::arithmetic::div_mod::lemma_fundamental_div_mod(n as int, 10);
        assert(digits_val(s) == n);
        assert(s[0] == p[0]);
        if p.len() == 1 {
            assert(p.drop_last().len() == 0);
            assert(digits_val(p) == digits_val(p.drop_last()) * 10 + digit_val(p.last()));
            assert(digits_val(p) == digit_val(p[0]));
            assert(n / 10 >= 1);
            assert(p[0] != '0');
        }
        assert(forall|i: int|
            0 <= i < s.len() ==> is_digit_char(#[trigger] s[i]) == if i < p.len() {
                is_digit_char(p[i])
            } else {
                is_digit_char(digit_char(n % 10))
            });
    }
}

/// Two canonical digit strings with the same value are the same string.
pub proof fn lemma_canonical_digits_unique(a: Seq<char>, b: Seq<char>)
    requires
        is_canonical_digits(a),
        is_canonical_digits(b),
        digits_val(a) == digits_val(b),
    ensures
        a == b,
    decreases a.len() + b.len(),
{
    lemma_digits_val_bound(a);
    lemma_digits_val_bound(b);
    if a.len() == 1 && b.len() == 1 {
        assert(digits_val(a) == digit_val(a[0]));
        assert(digits_val(b) == digit_val(b[0]));
        assert(a[0] == b[0]) by {
            lemma_digit_val_injective(a[0], b[0]);
        }
        assert(a =~= b);
    } else if a.len() > 1 && b.len() > 1 {
        let pa = a.drop_last();
        let pb = b.drop_last();
        assert(digits_val(a) == digits_val(pa) * 10 + digit_val(a.last()));
        assert(digits_val(b) == digits_val(pb) * 10 + digit_val(b.last()));
        assert(digit_val(a.last()) < 10);
        assert(digit_val(b.last()) < 10);
        assert(digits_val(pa) == digits_val(pb) && digit_val(a.last()) == digit_val(b.last()))
            by (nonlinear_arith)
            requires
                digits_val(pa) * 10 + digit_val(a.last()) == digits_val(pb) * 10 + digit_val(
                    b.last(),
                ),
                digit_val(a.last()) < 10,
                digit_val(b.last()) < 10,
        ;
        assert(is_canonical_digits(pa));
        assert(is_canonical_digits(pb));
        lemma_canonical_digits_unique(pa, pb);
        lemma_digit_val_injective(a.last(), b.last());
        assert(a =~= pa.push(a.last()));
        assert(b =~= pb.push(b.last()));
    } else {
        // One string has a single digit, the other has at least two; their
        // values then differ, contradicting the hypothesis.
        if a.len() == 1 {
            assert(digits_val(a) < 10);
            lemma_long_digits_val_large(b);
            assert(false);
        } else {
            assert(digits_val(b) < 10);
            lemma_long_digits_val_large(a);
            assert(false);
        }
    }
}

proof fn lemma_digit_val_injective(a: char, b: char)
    requires
        is_digit_char(a),
        is_digit_char(b),
        digit_val(a) == digit_val(b),
    ensures
        a == b,
{
}

proof fn lemma_digits_val_bound(s: Seq<char>)
    requires
        forall|i: int| 0 <= i < s.len() ==> is_digit_char(#[trigger] s[i]),
        s.len() >= 1,
    ensures
        digit_val(s.last()) < 10,
        digits_val(s) >= digits_val(s.drop_last()),
{
    assert(digits_val(s) == digits_val(s.drop_last()) * 10 + digit_val(s.last()));
    assert(digits_val(s.drop_last()) * 10 >= digits_val(s.drop_last())) by (nonlinear_arith);
}

/// A canonical digit string of length at least two denotes a value of at
/// least ten.
proof fn lemma_long_digits_val_large(s: Seq<char>)
    requires
        is_canonical_digits(s),
        s.len() >= 2,
    ensures
        digits_val(s) >= 10,
    decreases s.len(),
{
    let p = s.drop_last();
    assert(is_canonical_digits(p));
    if p.len() >= 2 {
        lemma_long_digits_val_large(p);
        assert(digits_val(s) == digits_val(p) * 10 + digit_val(s.last()));
        assert(digits_val(p) * 10 >= 10) by (nonlinear_arith)
            requires
                digits_val(p) >= 1,
        ;
    } else {
        assert(p.len() == 1);
        assert(p[0] != '0');
        assert(digit_val(p[0]) >= 1);
        assert(digits_val(p) == digits_val(p.drop_last()) * 10 + digit_val(p.last()));
        assert(p.drop_last().len() == 0);
        assert(digits_val(p) == digit_val(p[0]));
        assert(digits_val(s) == digits_val(p) * 10 + digit_val(s.last()));
        assert(digits_val(p) * 10 >= 10) by (nonlinear_arith)
            requires
                digits_val(p) >= 1,
        ;
    }
}

/// The value of a digit-string prefix never exceeds the whole string's
/// value.
pub proof fn lemma_digits_val_prefix_le(s: Seq<char>, i: int)
    requires
        forall|j: int| 0 <= j < s.len() ==> is_digit_char(#[trigger] s[j]),
        0 <= i <= s.len(),
    ensures
        digits_val(s.subrange(0, i)) <= digits_val(s),
    decreases s.len() - i,
{
    if i == s.len() {
        assert(s.subrange(0, i) =~= s);
    } else {
        lemma_digits_val_prefix_le(s, i + 1);
        let p = s.subrange(0, i);
        let q = s.subrange(0, i + 1);
        assert(q.drop_last() =~= p);
        assert(digits_val(q) == digits_val(p) * 10 + digit_val(q.last()));
        assert(digits_val(p) * 10 >= digits_val(p)) by (nonlinear_arith);
    }
}

/// Parse a canonical decimal digit string into a `u64`. Succeeds exactly
/// on the canonical rendering of a value that fits.
pub fn parse_u64_chars(s: &Vec<char>) -> (r: Option<u64>)
    ensures
        r matches Some(n) ==> s@ == dec_digits(n as nat),
        r is None ==> forall|n: u64| s@ != dec_digits(n as nat),
{
    if s.len() == 0 {
        proof {
            assert forall|n: u64| s@ != dec_digits(n as nat) by {
                lemma_dec_digits_val(n as nat);
            }
        }
        return None;
    }
    if s.len() > 1 && s[0] == '0' {
        proof {
            assert forall|n: u64| s@ != dec_digits(n as nat) by {
                lemma_dec_digits_val(n as nat);
            }
        }
        return None;
    }
    let mut val: u64 = 0;
    let mut i: usize = 0;
    while i < s.len()
        invariant
            i <= s@.len(),
            s@.len() > 0,
            s@.len() > 1 ==> s@[0] != '0',
            forall|j: int| 0 <= j < i ==> is_digit_char(#[trigger] s@[j]),
            val == digits_val(s@.subrange(0, i as int)),
        decreases s@.len() - i,
    {
        let c = s[i];
        if c < '0' || c > '9' {
            proof {
                assert forall|n: u64| s@ != dec_digits(n as nat) by {
                    lemma_dec_digits_val(n as nat);
                }
            }
            return None;
        }
        let d: u64 = (c as u8 - 48) as u64;
        proof {
            assert(d == digit_val(c));
            assert(s@.subrange(0, (i + 1) as int).drop_last() =~= s@.subrange(0, i as int));
            assert(s@.subrange(0, (i + 1) as int).last() == s@[i as int]);
            assert(digits_val(s@.subrange(0, (i + 1) as int)) == val * 10 + d);
        }
        if val > (u64::MAX - d) / 10 {
            proof {
                vstd::arithmetic::div_mod::lemma_fundamental_div_mod(
                    (u64::MAX - d) as int,
                    10,
                );
                assert(val * 10 + d > u64::MAX) by (nonlinear_arith)
                    requires
                        val > (u64::MAX - d) / 10,
                        (u64::MAX - d) as int == ((u64::MAX - d) / 10) * 10 + (u64::MAX - d) % 10,
                        (u64::MAX - d) % 10 < 10,
                        d <= 9,
                ;
                assert forall|n: u64| s@ != dec_digits(n as nat) by {
                    lemma_dec_digits_val(n as nat);
                    if s@ == dec_digits(n as nat) {
                        lemma_digits_val_prefix_le(s@, i + 1);
                        assert(digits_val(s@) == n as nat);
                        assert(val * 10 + d <= n as nat);
                        assert(false);
                    }
                }
            }
            return None;
        }
        proof {
            vstd::arithmetic::div_mod::lemma_fundamental_div_mod((u64::MAX - d) as int, 10);
            assert(val * 10 + d <= u64::MAX) by (nonlinear_arith)
                requires
                    val <= (u64::MAX - d) / 10,
                    (u64::MAX - d) as int == ((u64::MAX - d) / 10) * 10 + (u64::MAX - d) % 10,
                    (u64::MAX - d) % 10 >= 0,
                    d <= 9,
            ;
        }
        val = val * 10 + d;
        i = i + 1;
    }
    proof {
        assert(s@.subrange(0, s@.len() as int) =~= s@);
        assert(is_canonical_digits(s@));
        lemma_dec_digits_val(val as nat);
        lemma_canonical_digits_unique(s@, dec_digits(val as nat));
    }
    Some(val)
}

/// Whether `needle` occurs as a contiguous run inside `hay`.
pub open spec fn spec_contains_seq(hay: Seq<char>, needle: Seq<char>) -> bool {
    exists|i: int|
        0 <= i && i + needle.len() <= hay.len() && #[trigger] hay.subrange(i, i + needle.len())
            == needle
}

/// Whether the needle matches at one position.
fn match_at(hay: &Vec<char>, needle: &Vec<char>, i: usize) -> (r: bool)
    requires
        i + needle@.len() <= hay@.len(),
    ensures
        r == (hay@.subrange(i as int, i as int + needle@.len() as int) == needle@),
{
    let hay_len: usize = hay.len();
    let mut j: usize = 0;
    while j < needle.len()
        invariant
            j <= needle@.len(),
            i + needle@.len() <= hay@.len(),
            hay_len == hay@.len(),
            forall|k: int| 0 <= k < j ==> hay@[i + k] == needle@[k],
        decreases needle@.len() - j,
    {
        if hay[i + j] != needle[j] {
            proof {
                if hay@.subrange(i as int, i as int + needle@.len() as int) == needle@ {
                    assert(hay@.subrange(i as int, i as int + needle@.len() as int)[j as int]
                        == hay@[i + j]);
                }
            }
            return false;
        }
        j = j + 1;
    }
    proof {
        assert(hay@.subrange(i as int, i as int + needle@.len() as int) =~= needle@);
    }
    true
}

/// Substring search over character vectors.
pub fn chars_contains(hay: &Vec<char>, needle: &Vec<char>) -> (r: bool)
    ensures
        r == spec_contains_seq(hay@, needle@),
{
    let nh: usize = hay.len();
    let nn: usize = needle.len();
    if nn > nh {
        proof {
            assert(!spec_contains_seq(hay@, needle@));
        }
        return false;
    }
    if nn == 0 {
        proof {
            assert(hay@.subrange(0, 0 + needle@.len() as int) =~= needle@);
        }
        return true;
    }
    let mut i: usize = 0;
    while i <= nh - nn
        invariant
            1 <= nn <= nh,
            nh == hay@.len(),
            nn == needle@.len(),
            i <= nh - nn + 1,
            forall|k: int|
                0 <= k < i ==> #[trigger] hay@.subrange(k, k + needle@.len()) != needle@,
        decreases nh - nn - i + 1,
    {
        if match_at(hay, needle, i) {
            return true;
        }
        i = i + 1;
    }
    proof {
        assert forall|k: int| 0 <= k && k + needle@.len() <= hay@.len() implies #[trigger] hay@.subrange(
            k,
            k + needle@.len(),
        ) != needle@ by {
            assert(k < nh - nn + 1);
        }
    }
    false
}

/// The canonical decimal rendering of a signed value: a minus sign for
/// negatives, then the canonical digits of the magnitude.
pub open spec fn i64_digits(v: int) -> Seq<char> {
    if v < 0 {
        seq!['-'] + dec_digits((-v) as nat)
    } else {
        dec_digits(v as nat)
    }
}

/// Render an `i64` in decimal.
pub fn i64_to_chars(n: i64) -> (v: Vec<char>)
    requires
        n != i64::MIN,
    ensures
        v@ == i64_digits(n as int),
{
    if n < 0 {
        let mut out: Vec<char> = Vec::new();
        out.push('-');
        let mut digits = u64_to_chars((-n) as u64);
        out.append(&mut digits);
        proof {
            assert(out@ =~= seq!['-'] + dec_digits((-n) as nat));
        }
        out
    } else {
        u64_to_chars(n as u64)
    }
}

/// Parse a canonical signed decimal string into an `i64`. Succeeds exactly
/// on the canonical rendering of a representable value other than the very
/// smallest one.
pub fn parse_i64_chars(s: &Vec<char>) -> (r: Option<i64>)
    ensures
        r matches Some(n) ==> s@ == i64_digits(n as int) && n != i64::MIN,
        r is None ==> forall|n: i64| n != i64::MIN ==> s@ != i64_digits(n as int),
{
    if s.len() > 0 && s[0] == '-' {
        let mut rest: Vec<char> = Vec::new();
        let mut i: usize = 1;
        while i < s.len()
            invariant
                1 <= i <= s@.len(),
                rest@ == s@.subrange(1, i as int),
            decreases s@.len() - i,
        {
            rest.push(s[i]);
            i = i + 1;
            proof {
                assert(rest@ =~= s@.subrange(1, i as int));
            }
        }
        proof {
            assert(rest@ =~= s@.subrange(1, s@.len() as int));
        }
        let parsed = crate::text::parse_u64_chars(&rest);
        match parsed {
            Some(val) => {
                if val == 0 || val > i64::MAX as u64 {
                    proof {
                        assert forall|n: i64| n != i64::MIN implies s@ != i64_digits(n as int) by {
                            lemma_dec_digits_val((-(n as int)) as nat);
                            lemma_dec_digits_val(n as nat);
                            if s@ == i64_digits(n as int) {
                                if n < 0 {
                                    assert(s@.subrange(1, s@.len() as int) =~= dec_digits(
                                        (-(n as int)) as nat,
                                    ));
                                    lemma_dec_digits_val(val as nat);
                                    assert(dec_digits((-(n as int)) as nat) == dec_digits(
                                        val as nat,
                                    ));
                                    assert(digits_val(dec_digits((-(n as int)) as nat)) == digits_val(
                                        dec_digits(val as nat),
                                    ));
                                    assert(-(n as int) == val as int);
                                    assert(false);
                                } else {
                                    assert(s@[0] == '-');
                                    assert(is_digit_char(dec_digits(n as nat)[0]));
                                    assert(false);
                                }
                            }
                        }
                    }
                    None
                } else {
                    let n: i64 = -(val as i64);
                    proof {
                        assert(s@ =~= seq!['-'] + rest@);
                    }
                    Some(n)
                }
            },
            None => {
                proof {
                    assert forall|n: i64| n != i64::MIN implies s@ != i64_digits(n as int) by {
                        if s@ == i64_digits(n as int) {
                            if n < 0 {
                                assert(s@.subrange(1, s@.len() as int) =~= dec_digits(
                                    (-(n as int)) as nat,
                                ));
                                assert(-(n as int) <= u64::MAX);
                                assert(rest@ == dec_digits(((-(n as int)) as u64) as nat));
                                assert(false);
                            } else {
                                lemma_dec_digits_val(n as nat);
                                assert(s@[0] == '-');
                                assert(is_digit_char(dec_digits(n as nat)[0]));
                                assert(false);
                            }
                        }
                    }
                }
                None
            },
        }
    } else {
        let parsed = crate::text::parse_u64_chars(s);
        match parsed {
            Some(val) => {
                if val > i64::MAX as u64 {
                    proof {
                        assert forall|n: i64| n != i64::MIN implies s@ != i64_digits(n as int) by {
                            if s@ == i64_digits(n as int) {
                                if n < 0 {
                                    lemma_dec_digits_val((-(n as int)) as nat);
                                    assert(s@[0] == '-');
                                    assert(false);
                                } else {
                                    lemma_dec_digits_val(val as nat);
                                    lemma_dec_digits_val(n as nat);
                                    assert(dec_digits(n as nat) == dec_digits(val as nat));
                                    assert(digits_val(dec_digits(n as nat)) == digits_val(
                                        dec_digits(val as nat),
                                    ));
                                    assert(n as int == val as int);
                                    assert(false);
                                }
                            }
                        }
                    }
                    None
                } else {
                    Some(val as i64)
                }
            },
            None => {
                proof {
                    assert forall|n: i64| n != i64::MIN implies s@ != i64_digits(n as int) by {
                        if s@ == i64_digits(n as int) {
                            if n < 0 {
                                lemma_dec_digits_val((-(n as int)) as nat);
                                assert(s@[0] == '-');
                                assert(s@.len() == 0 || s@[0] != '-');
                                assert(false);
                            } else {
                                assert(s@ == dec_digits((n as u64) as nat));
                                assert(false);
                            }
                        }
                    }
                }
                None
            },
        }
    }
}

/// Split a character sequence into lines at `\n`: the sequence of lines,
/// with the still-open last line at the end. The empty text has a single
/// empty open line.
pub open spec fn spec_split_lines(s: Seq<char>) -> Seq<Seq<char>>
    decreases s.len(),
{
    if s.len() == 0 {
        seq![Seq::empty()]
    } else {
        let rest = spec_split_lines(s.drop_last());
        if s.last() == '\n' {
            rest.push(Seq::empty())
        } else {
            rest.update(rest.len() - 1, rest.last().push(s.last()))
        }
    }
}

/// `spec_split_lines` always yields at least one line.
pub proof fn lemma_split_lines_nonempty(s: Seq<char>)
    ensures
        spec_split_lines(s).len() >= 1,
    decreases s.len(),
{
    if s.len() > 0 {
        lemma_split_lines_nonempty(s.drop_last());
    }
}

/// The lines of a text, with a trailing empty line dropped.
pub open spec fn spec_lines(s: Seq<char>) -> Seq<Seq<char>> {
    let p = spec_split_lines(s);
    if p.len() > 0 && p.last().len() == 0 {
        p.drop_last()
    } else {
        p
    }
}


/// Split file contents into lines at `\n`, dropping a trailing empty
/// line.
pub fn split_lines(content: &Vec<char>) -> (r: Vec<Vec<char>>)
    ensures
        r@.map_values(|v: Vec<char>| v@) == spec_lines(content@),
{
    let mut out: Vec<Vec<char>> = Vec::new();
    let mut cur: Vec<char> = Vec::new();
    let mut i: usize = 0;
    proof {
        assert(content@.subrange(0, 0).len() == 0);
        assert(spec_split_lines(content@.subrange(0, 0)) =~= seq![Seq::<char>::empty()]);
        assert(out@.map_values(|v: Vec<char>| v@).push(cur@) =~= seq![Seq::<char>::empty()]);
    }
    while i < content.len()
        invariant
            i <= content@.len(),
            spec_split_lines(content@.subrange(0, i as int)) == out@.map_values(
                |v: Vec<char>| v@,
            ).push(cur@),
        decreases content@.len() - i,
    {
        proof {
            assert(content@.subrange(0, (i + 1) as int).drop_last() =~= content@.subrange(
                0,
                i as int,
            ));
            assert(content@.subrange(0, (i + 1) as int).last() == content@[i as int]);
        }
        let c = content[i];
        if c == '\n' {
            out.push(cur);
            cur = Vec::new();
            proof {
                assert(out@.map_values(|v: Vec<char>| v@).push(cur@) =~= spec_split_lines(
                    content@.subrange(0, (i + 1) as int),
                ));
            }
        } else {
            let ghost prev = out@.map_values(|v: Vec<char>| v@).push(cur@);
            cur.push(c);
            proof {
                let parts = spec_split_lines(content@.subrange(0, (i + 1) as int));
                assert(parts == prev.update(prev.len() - 1, prev.last().push(c)));
                assert(out@.map_values(|v: Vec<char>| v@).push(cur@) =~= parts);
            }
        }
        i = i + 1;
    }
    proof {
        assert(content@.subrange(0, content@.len() as int) =~= content@);
    }
    let ghost parts = spec_split_lines(content@);
    if cur.len() > 0 {
        out.push(cur);
        proof {
            assert(out@.map_values(|v: Vec<char>| v@) =~= parts);
            assert(parts.last().len() > 0);
        }
    } else {
        proof {
            assert(parts.last().len() == 0);
            assert(out@.map_values(|v: Vec<char>| v@) =~= parts.drop_last());
        }
    }
    out
}


} // verus!
