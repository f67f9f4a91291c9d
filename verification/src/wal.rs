//! The write-ahead log: append-only, line-delimited, checksummed records.
//! Each record is one line, `<json>\t<crc32 lowercase 8-hex>`, where the
//! checksum covers the JSON text. The codec is exact: decoding accepts
//! precisely the canonical encodings, so a written stream reads back as
//! the identical entry sequence. File I/O lives at the service edge; the
//! writer fills a text buffer and the reader consumes file contents.

use vstd::prelude::*;
use crate::text;
use crate::text::{dec_digits, i64_digits, is_digit_char};
use crate::usd::{Usd, USD_ABS_MAX_CENTS};

verus! {

use vstd::string::StringExecFns;

/// The CRC-32 (IEEE) of the UTF-8 encoding of a character sequence.
pub uninterp spec fn crc32_of(s: Seq<char>) -> u32;

/// Relies on `crc32fast::hash`: the IEEE CRC-32 of the given bytes, a
/// function of its input alone.
#[verifier::external_body]
fn crc32_str(s: &str) -> (r: u32)
    ensures
        r == crc32_of(s@),
{
    crc32fast::hash(s.as_bytes())
}

/// A single entry in the write-ahead log.
#[derive(Debug)]
pub enum WalEntry {
    /// A transaction was processed for a user
    Transaction { user_id: String, timestamp_ms: i64, usd_value: Usd },
    /// A checkpoint/snapshot was taken
    Checkpoint { snapshot_id: String },
}

/// The ghost shape of a `WalEntry`.
pub ghost enum WalEntryView {
    Transaction { user_id: Seq<char>, timestamp_ms: int, usd_cents: int },
    Checkpoint { snapshot_id: Seq<char> },
}

impl View for WalEntry {
    type V = WalEntryView;

    open spec fn view(&self) -> WalEntryView {
        match self {
            WalEntry::Transaction { user_id, timestamp_ms, usd_value } => WalEntryView::Transaction {
                user_id: user_id@,
                timestamp_ms: *timestamp_ms as int,
                usd_cents: usd_value@,
            },
            WalEntry::Checkpoint { snapshot_id } => WalEntryView::Checkpoint {
                snapshot_id: snapshot_id@,
            },
        }
    }
}

/// An entry the codec can frame: its numbers are representable in the
/// canonical signed-decimal form.
pub open spec fn entry_wf(e: WalEntryView) -> bool {
    match e {
        WalEntryView::Transaction { user_id, timestamp_ms, usd_cents } => {
            &&& i64::MIN < timestamp_ms <= i64::MAX
            &&& -USD_ABS_MAX_CENTS <= usd_cents <= USD_ABS_MAX_CENTS
        },
        WalEntryView::Checkpoint { snapshot_id } => true,
    }
}

impl Clone for WalEntry {
    /// Cloning preserves the entry.
    fn clone(&self) -> (r: Self)
        ensures
            r@ == self@,
    {
        match self {
            WalEntry::Transaction { user_id, timestamp_ms, usd_value } => WalEntry::Transaction {
                user_id: user_id.clone(),
                timestamp_ms: *timestamp_ms,
                usd_value: *usd_value,
            },
            WalEntry::Checkpoint { snapshot_id } => WalEntry::Checkpoint {
                snapshot_id: snapshot_id.clone(),
            },
        }
    }
}

impl WalEntry {
    /// Create a transaction entry.
    pub fn transaction(user_id: String, timestamp_ms: i64, usd_value: Usd) -> (r: WalEntry)
        requires
            timestamp_ms != i64::MIN,
        ensures
            r@ == (WalEntryView::Transaction {
                user_id: user_id@,
                timestamp_ms: timestamp_ms as int,
                usd_cents: usd_value@,
            }),
            entry_wf(r@),
    {
        proof {
            use_type_invariant(&usd_value);
        }
        WalEntry::Transaction { user_id, timestamp_ms, usd_value }
    }

    /// Create a checkpoint entry.
    pub fn checkpoint(snapshot_id: String) -> (r: WalEntry)
        ensures
            r@ == (WalEntryView::Checkpoint { snapshot_id: snapshot_id@ }),
            entry_wf(r@),
    {
        WalEntry::Checkpoint { snapshot_id }
    }
}

/// How one character is written inside a quoted JSON string: quotes and
/// backslashes get a backslash prefix; a newline becomes `\n` so that a
/// record always occupies one line.
pub open spec fn escaped_char(c: char) -> Seq<char> {
    if c == '"' || c == '\\' {
        seq!['\\', c]
    } else if c == '\n' {
        seq!['\\', 'n']
    } else {
        seq![c]
    }
}

/// The escaped form of a whole string.
pub open spec fn escape_seq(s: Seq<char>) -> Seq<char>
    decreases s.len(),
{
    if s.len() == 0 {
        Seq::empty()
    } else {
        escaped_char(s[0]) + escape_seq(s.skip(1))
    }
}

/// Escaping distributes over concatenation.
pub proof fn lemma_escape_concat(a: Seq<char>, b: Seq<char>)
    ensures
        escape_seq(a + b) == escape_seq(a) + escape_seq(b),
    decreases a.len(),
{
    if a.len() == 0 {
        assert(a + b =~= b);
        assert(escape_seq(a) + escape_seq(b) =~= escape_seq(b));
    } else {
        assert((a + b).skip(1) =~= a.skip(1) + b);
        lemma_escape_concat(a.skip(1), b);
        assert(escape_seq(a + b) =~= escape_seq(a) + escape_seq(b));
    }
}

/// Escaping one more character appends its escaped form.
pub proof fn lemma_escape_snoc(s: Seq<char>, c: char)
    ensures
        escape_seq(s.push(c)) == escape_seq(s) + escaped_char(c),
{
    assert(s.push(c) =~= s + seq![c]);
    lemma_escape_concat(s, seq![c]);
    assert(seq![c].skip(1) =~= Seq::<char>::empty());
    assert(seq![c][0] == c);
    assert(escape_seq(seq![c]) == escaped_char(c) + escape_seq(seq![c].skip(1)));
    assert(escaped_char(c) + Seq::<char>::empty() =~= escaped_char(c));
}

/// The escaped form never contains a raw newline.
pub proof fn lemma_escape_no_newline(s: Seq<char>)
    ensures
        forall|i: int| 0 <= i < escape_seq(s).len() ==> escape_seq(s)[i] != '\n',
    decreases s.len(),
{
    if s.len() > 0 {
        lemma_escape_no_newline(s.skip(1));
        assert forall|i: int| 0 <= i < escape_seq(s).len() implies escape_seq(s)[i] != '\n' by {
            let h = escaped_char(s[0]);
            if i < h.len() {
                assert(escape_seq(s)[i] == h[i]);
            } else {
                assert(escape_seq(s)[i] == escape_seq(s.skip(1))[i - h.len()]);
            }
        }
    }
}

/// Escape a string for embedding in a quoted field.
fn escape_chars(s: &Vec<char>) -> (r: Vec<char>)
    ensures
        r@ == escape_seq(s@),
{
    let mut out: Vec<char> = Vec::new();
    let mut i: usize = 0;
    proof {
        assert(s@.subrange(0, 0) =~= Seq::<char>::empty());
    }
    while i < s.len()
        invariant
            i <= s@.len(),
            out@ == escape_seq(s@.subrange(0, i as int)),
        decreases s@.len() - i,
    {
        proof {
            assert(s@.subrange(0, (i + 1) as int) =~= s@.subrange(0, i as int).push(
                s@[i as int],
            ));
            lemma_escape_snoc(s@.subrange(0, i as int), s@[i as int]);
        }
        let c = s[i];
        if c == '"' || c == '\\' {
            out.push('\\');
            out.push(c);
        } else if c == '\n' {
            out.push('\\');
            out.push('n');
        } else {
            out.push(c);
        }
        i = i + 1;
        proof {
            assert(out@ =~= escape_seq(s@.subrange(0, i as int)));
        }
    }
    proof {
        assert(s@.subrange(0, s@.len() as int) =~= s@);
    }
    out
}

/// The lowercase hex character of one nibble.
pub open spec fn hex_digit(d: u32) -> char {
    if d == 0 {
        '0'
    } else if d == 1 {
        '1'
    } else if d == 2 {
        '2'
    } else if d == 3 {
        '3'
    } else if d == 4 {
        '4'
    } else if d == 5 {
        '5'
    } else if d == 6 {
        '6'
    } else if d == 7 {
        '7'
    } else if d == 8 {
        '8'
    } else if d == 9 {
        '9'
    } else if d == 10 {
        'a'
    } else if d == 11 {
        'b'
    } else if d == 12 {
        'c'
    } else if d == 13 {
        'd'
    } else if d == 14 {
        'e'
    } else {
        'f'
    }
}

/// The 8-character lowercase hex rendering of a 32-bit value.
pub open spec fn hex8(v: u32) -> Seq<char> {
    seq![
        hex_digit((v >> 28) & 0xf),
        hex_digit((v >> 24) & 0xf),
        hex_digit((v >> 20) & 0xf),
        hex_digit((v >> 16) & 0xf),
        hex_digit((v >> 12) & 0xf),
        hex_digit((v >> 8) & 0xf),
        hex_digit((v >> 4) & 0xf),
        hex_digit(v & 0xf),
    ]
}

/// Render one nibble.
fn hex_digit_char(d: u32) -> (c: char)
    requires
        d < 16,
    ensures
        c == hex_digit(d),
{
    if d == 0 {
        '0'
    } else if d == 1 {
        '1'
    } else if d == 2 {
        '2'
    } else if d == 3 {
        '3'
    } else if d == 4 {
        '4'
    } else if d == 5 {
        '5'
    } else if d == 6 {
        '6'
    } else if d == 7 {
        '7'
    } else if d == 8 {
        '8'
    } else if d == 9 {
        '9'
    } else if d == 10 {
        'a'
    } else if d == 11 {
        'b'
    } else if d == 12 {
        'c'
    } else if d == 13 {
        'd'
    } else if d == 14 {
        'e'
    } else {
        'f'
    }
}

/// Render a 32-bit value as 8 lowercase hex characters.
fn to_hex8(v: u32) -> (r: Vec<char>)
    ensures
        r@ == hex8(v),
{
    let mut out: Vec<char> = Vec::new();
    proof {
        assert((v >> 28) & 0xf < 16 && (v >> 24) & 0xf < 16 && (v >> 20) & 0xf < 16 && (v >> 16)
            & 0xf < 16 && (v >> 12) & 0xf < 16 && (v >> 8) & 0xf < 16 && (v >> 4) & 0xf < 16 && v
            & 0xf < 16) by (bit_vector);
    }
    out.push(hex_digit_char((v >> 28) & 0xf));
    out.push(hex_digit_char((v >> 24) & 0xf));
    out.push(hex_digit_char((v >> 20) & 0xf));
    out.push(hex_digit_char((v >> 16) & 0xf));
    out.push(hex_digit_char((v >> 12) & 0xf));
    out.push(hex_digit_char((v >> 8) & 0xf));
    out.push(hex_digit_char((v >> 4) & 0xf));
    out.push(hex_digit_char(v & 0xf));
    proof {
        assert(out@ =~= hex8(v));
    }
    out
}

/// The numeric value of one lowercase hex character, if it is one.
pub open spec fn hex_val(c: char) -> Option<u32> {
    if '0' <= c && c <= '9' {
        Some((c as u32 - '0' as u32) as u32)
    } else if 'a' <= c && c <= 'f' {
        Some((c as u32 - 'a' as u32 + 10) as u32)
    } else {
        None
    }
}

/// One nibble back from its hex character.
fn hex_char_val(c: char) -> (r: Option<u32>)
    ensures
        r == hex_val(c),
        r matches Some(d) ==> d < 16 && hex_digit(d) == c,
{
    if '0' <= c && c <= '9' {
        Some(c as u32 - 48)
    } else if 'a' <= c && c <= 'f' {
        Some(c as u32 - 97 + 10)
    } else {
        None
    }
}

/// Parse exactly 8 lowercase hex characters into a 32-bit value.
fn parse_hex8(s: &Vec<char>, pos: usize) -> (r: Option<u32>)
    requires
        pos + 8 <= s@.len(),
    ensures
        r matches Some(v) ==> s@.subrange(pos as int, pos + 8) == hex8(v),
        forall|v: u32| s@.subrange(pos as int, pos + 8) == hex8(v) ==> r == Some(v),
{
    let n: usize = s.len();
    let d0 = hex_char_val(s[pos]);
    let d1 = hex_char_val(s[pos + 1]);
    let d2 = hex_char_val(s[pos + 2]);
    let d3 = hex_char_val(s[pos + 3]);
    let d4 = hex_char_val(s[pos + 4]);
    let d5 = hex_char_val(s[pos + 5]);
    let d6 = hex_char_val(s[pos + 6]);
    let d7 = hex_char_val(s[pos + 7]);
    match (d0, d1, d2, d3, d4, d5, d6, d7) {
        (
            Some(n0),
            Some(n1),
            Some(n2),
            Some(n3),
            Some(n4),
            Some(n5),
            Some(n6),
            Some(n7),
        ) => {
            let v: u32 = (n0 << 28) | (n1 << 24) | (n2 << 20) | (n3 << 16) | (n4 << 12) | (n5
                << 8) | (n6 << 4) | n7;
            proof {
                assert((v >> 28) & 0xf == n0 && (v >> 24) & 0xf == n1 && (v >> 20) & 0xf == n2 && (
                v >> 16) & 0xf == n3 && (v >> 12) & 0xf == n4 && (v >> 8) & 0xf == n5 && (v >> 4)
                    & 0xf == n6 && v & 0xf == n7) by (bit_vector)
                    requires
                        n0 < 16 && n1 < 16 && n2 < 16 && n3 < 16 && n4 < 16 && n5 < 16 && n6 < 16
                            && n7 < 16,
                        v == (n0 << 28) | (n1 << 24) | (n2 << 20) | (n3 << 16) | (n4 << 12) | (n5
                            << 8) | (n6 << 4) | n7,
                ;
                assert(s@.subrange(pos as int, pos + 8) =~= hex8(v));
                assert forall|w: u32| s@.subrange(pos as int, pos + 8) == hex8(w) implies w == v by {
                    assert(hex8(w)[0] == hex_digit((w >> 28) & 0xf));
                    assert((w >> 28) & 0xf < 16 && (w >> 24) & 0xf < 16 && (w >> 20) & 0xf < 16 && (
                    w >> 16) & 0xf < 16 && (w >> 12) & 0xf < 16 && (w >> 8) & 0xf < 16 && (w >> 4)
                        & 0xf < 16 && w & 0xf < 16) by (bit_vector);
                    lemma_hex_digit_injective((w >> 28) & 0xf, n0);
                    lemma_hex_digit_injective((w >> 24) & 0xf, n1);
                    lemma_hex_digit_injective((w >> 20) & 0xf, n2);
                    lemma_hex_digit_injective((w >> 16) & 0xf, n3);
                    lemma_hex_digit_injective((w >> 12) & 0xf, n4);
                    lemma_hex_digit_injective((w >> 8) & 0xf, n5);
                    lemma_hex_digit_injective((w >> 4) & 0xf, n6);
                    lemma_hex_digit_injective(w & 0xf, n7);
                    assert(w == v) by (bit_vector)
                        requires
                            (w >> 28) & 0xf == (v >> 28) & 0xf,
                            (w >> 24) & 0xf == (v >> 24) & 0xf,
                            (w >> 20) & 0xf == (v >> 20) & 0xf,
                            (w >> 16) & 0xf == (v >> 16) & 0xf,
                            (w >> 12) & 0xf == (v >> 12) & 0xf,
                            (w >> 8) & 0xf == (v >> 8) & 0xf,
                            (w >> 4) & 0xf == (v >> 4) & 0xf,
                            w & 0xf == v & 0xf,
                    ;
                }
            }
            Some(v)
        },
        _ => {
            proof {
                assert forall|w: u32| s@.subrange(pos as int, pos + 8) != hex8(w) by {
                    assert((w >> 28) & 0xf < 16 && (w >> 24) & 0xf < 16 && (w >> 20) & 0xf < 16 && (
                    w >> 16) & 0xf < 16 && (w >> 12) & 0xf < 16 && (w >> 8) & 0xf < 16 && (w >> 4)
                        & 0xf < 16 && w & 0xf < 16) by (bit_vector);
                    if s@.subrange(pos as int, pos + 8) == hex8(w) {
                        lemma_hex_digit_has_val((w >> 28) & 0xf);
                        lemma_hex_digit_has_val((w >> 24) & 0xf);
                        lemma_hex_digit_has_val((w >> 20) & 0xf);
                        lemma_hex_digit_has_val((w >> 16) & 0xf);
                        lemma_hex_digit_has_val((w >> 12) & 0xf);
                        lemma_hex_digit_has_val((w >> 8) & 0xf);
                        lemma_hex_digit_has_val((w >> 4) & 0xf);
                        lemma_hex_digit_has_val(w & 0xf);
                        assert(false);
                    }
                }
            }
            None
        },
    }
}

/// Distinct nibbles render as distinct characters.
proof fn lemma_hex_digit_injective(a: u32, b: u32)
    requires
        a < 16,
        b < 16,
        hex_digit(a) == hex_digit(b),
    ensures
        a == b,
{
}

/// A nibble's character always parses back to it.
proof fn lemma_hex_digit_has_val(d: u32)
    requires
        d < 16,
    ensures
        hex_val(hex_digit(d)) == Some(d),
{
}


/// The text at `pos` is the escaped form of `t` followed by a closing
/// quote.
pub open spec fn field_at(s: Seq<char>, pos: int, t: Seq<char>) -> bool {
    &&& pos + escape_seq(t).len() + 1 <= s.len()
    &&& s.subrange(pos, pos + escape_seq(t).len()) == escape_seq(t)
    &&& s[pos + escape_seq(t).len()] == '"'
}

/// Parse a quoted field's body from `pos` up to and including the
/// closing quote, undoing the escaping. Exact: it accepts precisely the
/// escaped forms, and recovers the escaped string uniquely.
fn parse_string_field(s: &Vec<char>, pos: usize) -> (r: Option<(Vec<char>, usize)>)
    requires
        pos <= s@.len(),
    ensures
        r matches Some((out, p2)) ==> {
            &&& pos + escape_seq(out@).len() < p2 <= s@.len()
            &&& p2 == pos + escape_seq(out@).len() + 1
            &&& s@.subrange(pos as int, p2 - 1) == escape_seq(out@)
            &&& s@[p2 - 1] == '"'
        },
        forall|t: Seq<char>|
            field_at(s@, pos as int, t) ==> (r matches Some((out, p2)) && out@ == t && p2 == pos
                + escape_seq(t).len() + 1),
{
    let n: usize = s.len();
    let mut out: Vec<char> = Vec::new();
    let mut p: usize = pos;
    proof {
        assert(s@.subrange(pos as int, pos as int) =~= Seq::<char>::empty());
    }
    loop
        invariant
            pos <= p <= n,
            n == s@.len(),
            s@.subrange(pos as int, p as int) == escape_seq(out@),
            p == pos + escape_seq(out@).len(),
            forall|t: Seq<char>|
                field_at(s@, pos as int, t) ==> (out@.len() <= t.len() && out@ == t.subrange(
                    0,
                    out@.len() as int,
                )),
        decreases n - p,
    {
        if p >= n {
            proof {
                assert forall|t: Seq<char>| !field_at(s@, pos as int, t) by {
                    if field_at(s@, pos as int, t) {
                        let k = out@.len() as int;
                        if k < t.len() {
                            lemma_split_escape(t, k);
                            assert(escape_seq(t).len() >= escape_seq(t.subrange(0, k)).len()
                                + 1);
                            assert(pos + escape_seq(t).len() + 1 <= n);
                            assert(false);
                        } else {
                            assert(t.subrange(0, t.len() as int) =~= t);
                            assert(out@ == t);
                            assert(pos + escape_seq(t).len() < n);
                            assert(false);
                        }
                    }
                }
            }
            return None;
        }
        let c = s[p];
        if c == '"' {
            proof {
                assert forall|t: Seq<char>| field_at(s@, pos as int, t) implies (out@ == t && p
                    + 1 == pos + escape_seq(t).len() + 1) by {
                    let k = out@.len() as int;
                    if k < t.len() {
                        lemma_split_escape(t, k);
                        let blk = escaped_char(t[k]);
                        assert(s@[p as int] == escape_seq(t)[p - pos]);
                        assert(escape_seq(t)[p - pos] == blk[0]);
                        assert(blk[0] != '"');
                        assert(false);
                    } else {
                        assert(t.subrange(0, t.len() as int) =~= t);
                        assert(out@ == t);
                    }
                }
            }
            return Some((out, p + 1));
        }
        if c == '\\' {
            if p + 1 >= n {
                proof {
                    assert forall|t: Seq<char>| !field_at(s@, pos as int, t) by {
                        if field_at(s@, pos as int, t) {
                            let k = out@.len() as int;
                            if k == t.len() {
                                assert(t.subrange(0, t.len() as int) =~= t);
                                assert(out@ == t);
                                assert(s@[p as int] == '"');
                                assert(false);
                            } else {
                                lemma_split_escape(t, k);
                                let blk = escaped_char(t[k]);
                                assert(s@[p as int] == blk[0]);
                                assert(blk.len() == 2);
                                assert(pos + escape_seq(t).len() + 1 <= n);
                                assert(escape_seq(t).len() >= escape_seq(t.subrange(0, k)).len()
                                    + 2);
                                assert(false);
                            }
                        }
                    }
                }
                return None;
            }
            let c2 = s[p + 1];
            let decoded: char = if c2 == '"' {
                '"'
            } else if c2 == '\\' {
                '\\'
            } else if c2 == 'n' {
                '\\'
            } else {
                proof {
                    assert forall|t: Seq<char>| !field_at(s@, pos as int, t) by {
                        if field_at(s@, pos as int, t) {
                            let k = out@.len() as int;
                            if k == t.len() {
                                assert(t.subrange(0, t.len() as int) =~= t);
                                assert(out@ == t);
                                assert(s@[p as int] == '"');
                                assert(false);
                            } else {
                                lemma_split_escape(t, k);
                                let blk = escaped_char(t[k]);
                                assert(s@[p as int] == blk[0]);
                                assert(blk.len() == 2);
                                assert(s@[p + 1] == blk[1]);
                                assert(false);
                            }
                        }
                    }
                }
                return None;
            };
            let pushed: char = if c2 == 'n' {
                '\n'
            } else {
                decoded
            };
            proof {
                lemma_escape_snoc(out@, pushed);
                assert(s@.subrange(pos as int, p + 2) =~= escape_seq(out@) + escaped_char(
                    pushed,
                ));
                assert forall|t: Seq<char>| field_at(s@, pos as int, t) implies (out@.push(
                    pushed,
                ).len() <= t.len() && out@.push(pushed) == t.subrange(
                    0,
                    out@.push(pushed).len() as int,
                )) by {
                    let k = out@.len() as int;
                    if k == t.len() {
                        assert(t.subrange(0, t.len() as int) =~= t);
                        assert(out@ == t);
                        assert(s@[p as int] == '"');
                        assert(false);
                    } else {
                        lemma_split_escape(t, k);
                        let blk = escaped_char(t[k]);
                        assert(s@[p as int] == blk[0]);
                        assert(blk.len() == 2);
                        assert(s@[p + 1] == blk[1]);
                        assert(t[k] == pushed);
                        assert(out@.push(pushed) =~= t.subrange(0, k + 1));
                    }
                }
            }
            out.push(pushed);
            p = p + 2;
        } else {
            if c == '\n' {
                proof {
                    assert forall|t: Seq<char>| !field_at(s@, pos as int, t) by {
                        if field_at(s@, pos as int, t) {
                            let k = out@.len() as int;
                            if k == t.len() {
                                assert(t.subrange(0, t.len() as int) =~= t);
                                assert(out@ == t);
                                assert(s@[p as int] == '"');
                                assert(false);
                            } else {
                                lemma_split_escape(t, k);
                                let blk = escaped_char(t[k]);
                                assert(s@[p as int] == blk[0]);
                                assert(false);
                            }
                        }
                    }
                }
                return None;
            }
            proof {
                lemma_escape_snoc(out@, c);
                assert(escaped_char(c) =~= seq![c]);
                assert(s@.subrange(pos as int, p + 1) =~= escape_seq(out@) + seq![c]);
                assert forall|t: Seq<char>| field_at(s@, pos as int, t) implies (out@.push(
                    c,
                ).len() <= t.len() && out@.push(c) == t.subrange(0, out@.push(c).len() as int))
                    by {
                    let k = out@.len() as int;
                    if k == t.len() {
                        assert(t.subrange(0, t.len() as int) =~= t);
                        assert(out@ == t);
                        assert(s@[p as int] == '"');
                        assert(false);
                    } else {
                        lemma_split_escape(t, k);
                        let blk = escaped_char(t[k]);
                        assert(s@[p as int] == blk[0]);
                        if blk.len() == 2 {
                            assert(blk[0] == '\\');
                            assert(false);
                        }
                        assert(t[k] == c);
                        assert(out@.push(c) =~= t.subrange(0, k + 1));
                    }
                }
            }
            out.push(c);
            p = p + 1;
        }
    }
}

/// Splitting an escaped string at a character boundary.
proof fn lemma_split_escape(t: Seq<char>, k: int)
    requires
        0 <= k < t.len(),
    ensures
        escape_seq(t) == escape_seq(t.subrange(0, k)) + escaped_char(t[k]) + escape_seq(
            t.subrange(k + 1, t.len() as int),
        ),
        escape_seq(t).len() >= escape_seq(t.subrange(0, k)).len() + escaped_char(t[k]).len(),
        forall|i: int|
            0 <= i < escaped_char(t[k]).len() ==> escape_seq(t)[escape_seq(
                t.subrange(0, k),
            ).len() + i] == escaped_char(t[k])[i],
{
    assert(t =~= t.subrange(0, k) + (seq![t[k]] + t.subrange(k + 1, t.len() as int)));
    lemma_escape_concat(t.subrange(0, k), seq![t[k]] + t.subrange(k + 1, t.len() as int));
    lemma_escape_concat(seq![t[k]], t.subrange(k + 1, t.len() as int));
    assert(seq![t[k]].skip(1) =~= Seq::<char>::empty());
    assert(seq![t[k]][0] == t[k]);
    assert(escape_seq(seq![t[k]]) == escaped_char(t[k]) + escape_seq(seq![t[k]].skip(1)));
    assert(escape_seq(seq![t[k]]) =~= escaped_char(t[k]));
    assert(escape_seq(t) =~= escape_seq(t.subrange(0, k)) + escaped_char(t[k]) + escape_seq(
        t.subrange(k + 1, t.len() as int),
    ));
}


/// The canonical JSON text of an entry.
pub open spec fn spec_entry_json(e: WalEntryView) -> Seq<char> {
    match e {
        WalEntryView::Transaction { user_id, timestamp_ms, usd_cents } => {
            "{\"type\":\"tx\",\"user_id\":\""@ + escape_seq(user_id)
                + "\",\"timestamp_ms\":"@ + i64_digits(timestamp_ms) + ",\"usd_cents\":"@
                + i64_digits(usd_cents) + "}"@
        },
        WalEntryView::Checkpoint { snapshot_id } => {
            "{\"type\":\"checkpoint\",\"snapshot_id\":\""@ + escape_seq(snapshot_id) + "\"}"@
        },
    }
}

/// One on-disk record, without its line terminator: the JSON text, a
/// tab, and the lowercase hex CRC-32 of the JSON text.
pub open spec fn spec_record_body(e: WalEntryView) -> Seq<char> {
    spec_entry_json(e) + seq!['\t'] + hex8(crc32_of(spec_entry_json(e)))
}

/// One full on-disk record line.
pub open spec fn spec_record_line(e: WalEntryView) -> Seq<char> {
    spec_record_body(e) + seq!['\n']
}

/// The whole file a sequence of entries writes.
pub open spec fn spec_records_text(entries: Seq<WalEntryView>) -> Seq<char>
    decreases entries.len(),
{
    if entries.len() == 0 {
        Seq::empty()
    } else {
        spec_records_text(entries.drop_last()) + spec_record_line(entries.last())
    }
}

/// Copy a subrange of a character vector.
fn subvec(s: &Vec<char>, a: usize, b: usize) -> (r: Vec<char>)
    requires
        a <= b <= s@.len(),
    ensures
        r@ == s@.subrange(a as int, b as int),
{
    let mut out: Vec<char> = Vec::new();
    let mut k: usize = a;
    while k < b
        invariant
            a <= k <= b <= s@.len(),
            out@ == s@.subrange(a as int, k as int),
        decreases b - k,
    {
        out.push(s[k]);
        k = k + 1;
        proof {
            assert(out@ =~= s@.subrange(a as int, k as int));
        }
    }
    proof {
        assert(out@ =~= s@.subrange(a as int, b as int));
    }
    out
}

/// Whether the text at `pos` starts with the given literal.
fn starts_with_lit(s: &Vec<char>, pos: usize, lit: &str) -> (r: bool)
    requires
        pos <= s@.len(),
    ensures
        r == (pos + lit@.len() <= s@.len() && s@.subrange(pos as int, pos + lit@.len()) == lit@),
{
    let lv = text::str_chars(lit);
    let n: usize = s.len();
    if lv.len() > n - pos {
        return false;
    }
    let mut k: usize = 0;
    while k < lv.len()
        invariant
            k <= lv@.len(),
            lv@ == lit@,
            pos + lv@.len() <= n,
            n == s@.len(),
            forall|j: int| 0 <= j < k ==> s@[pos + j] == lv@[j],
        decreases lv@.len() - k,
    {
        if s[pos + k] != lv[k] {
            proof {
                if s@.subrange(pos as int, pos + lit@.len()) == lit@ {
                    assert(s@.subrange(pos as int, pos + lit@.len())[k as int] == lit@[k as int]);
                }
            }
            return false;
        }
        k = k + 1;
    }
    proof {
        assert(s@.subrange(pos as int, pos + lit@.len()) =~= lit@);
    }
    true
}

/// Find the first occurrence of `stop` at or after `pos`.
fn scan_until(s: &Vec<char>, pos: usize, stop: char) -> (r: Option<usize>)
    requires
        pos <= s@.len(),
    ensures
        r matches Some(q) ==> pos <= q < s@.len() && s@[q as int] == stop && forall|k: int|
            pos <= k < q ==> s@[k] != stop,
        r is None ==> forall|k: int| pos <= k < s@.len() ==> s@[k] != stop,
{
    let n: usize = s.len();
    let mut q: usize = pos;
    while q < n
        invariant
            pos <= q <= n,
            n == s@.len(),
            forall|k: int| pos <= k < q ==> s@[k] != stop,
        decreases n - q,
    {
        if s[q] == stop {
            return Some(q);
        }
        q = q + 1;
    }
    None
}

/// Every character of a signed decimal rendering is a digit or a minus
/// sign; in particular it is none of the JSON delimiters.
pub proof fn lemma_i64_digits_chars(v: int)
    ensures
        forall|i: int|
            0 <= i < i64_digits(v).len() ==> (is_digit_char(#[trigger] i64_digits(v)[i])
                || i64_digits(v)[i] == '-'),
        i64_digits(v).len() >= 1,
{
    if v < 0 {
        text::lemma_dec_digits_val((-v) as nat);
        assert forall|i: int|
            0 <= i < i64_digits(v).len() implies (is_digit_char(#[trigger] i64_digits(v)[i])
            || i64_digits(v)[i] == '-') by {
            if i > 0 {
                assert(i64_digits(v)[i] == dec_digits((-v) as nat)[i - 1]);
            }
        }
    } else {
        text::lemma_dec_digits_val(v as nat);
    }
}

/// Canonical signed decimals denote distinct values.
pub proof fn lemma_i64_digits_injective(a: int, b: int)
    requires
        i64_digits(a) == i64_digits(b),
    ensures
        a == b,
{
    text::lemma_dec_digits_val((-a) as nat);
    text::lemma_dec_digits_val((-b) as nat);
    text::lemma_dec_digits_val(a as nat);
    text::lemma_dec_digits_val(b as nat);
    if a < 0 && b < 0 {
        assert(i64_digits(a).skip(1) =~= dec_digits((-a) as nat));
        assert(i64_digits(b).skip(1) =~= dec_digits((-b) as nat));
        assert(dec_digits((-a) as nat) == dec_digits((-b) as nat));
        assert(text::digits_val(dec_digits((-a) as nat)) == text::digits_val(
            dec_digits((-b) as nat),
        ));
    } else if a >= 0 && b >= 0 {
        assert(text::digits_val(dec_digits(a as nat)) == text::digits_val(
            dec_digits(b as nat),
        ));
    } else if a < 0 {
        assert(i64_digits(a)[0] == '-');
        assert(is_digit_char(dec_digits(b as nat)[0]));
        assert(false);
    } else {
        assert(i64_digits(b)[0] == '-');
        assert(is_digit_char(dec_digits(a as nat)[0]));
        assert(false);
    }
}



/// All positional facts of a transaction encoding, in one place.
proof fn lemma_tx_regions(s: Seq<char>, ev: WalEntryView)
    requires
        ev is Transaction,
        s == spec_entry_json(ev),
    ensures
        ({
            let uid = ev->Transaction_user_id;
            let ts = ev->Transaction_timestamp_ms;
            let c = ev->Transaction_usd_cents;
            let el = escape_seq(uid).len() as int;
            let dl = i64_digits(ts).len() as int;
            let dl2 = i64_digits(c).len() as int;
            let p2 = 25 + el;
            let p3 = p2 + 16;
            let q = p3 + dl;
            let p4 = q + 13;
            &&& s.len() == p4 + dl2 + 1
            &&& s.subrange(0, 24) == "{\"type\":\"tx\",\"user_id\":\""@
            &&& field_at(s, 24, uid)
            &&& s.subrange(p2, p3) == ",\"timestamp_ms\":"@
            &&& s.subrange(p3, q) == i64_digits(ts)
            &&& s[q] == ','
            &&& (forall|k: int| p3 <= k < q ==> s[k] != ',')
            &&& s.subrange(q, p4) == ",\"usd_cents\":"@
            &&& s.subrange(p4, p4 + dl2) == i64_digits(c)
            &&& s[p4 + dl2] == '}'
            &&& (forall|k: int| p4 <= k < p4 + dl2 ==> s[k] != '}')
        }),
{
    reveal_strlit("{\"type\":\"tx\",\"user_id\":\"");
    reveal_strlit("\",\"timestamp_ms\":");
    reveal_strlit(",\"timestamp_ms\":");
    reveal_strlit(",\"usd_cents\":");
    reveal_strlit("}");
    let uid = ev->Transaction_user_id;
    let ts = ev->Transaction_timestamp_ms;
    let c = ev->Transaction_usd_cents;
    let el = escape_seq(uid).len() as int;
    let dl = i64_digits(ts).len() as int;
    let dl2 = i64_digits(c).len() as int;
    let p2 = 25 + el;
    let p3 = p2 + 16;
    let q = p3 + dl;
    let p4 = q + 13;
    lemma_i64_digits_chars(ts);
    lemma_i64_digits_chars(c);
    assert("{\"type\":\"tx\",\"user_id\":\""@.len() == 24);
    assert("\",\"timestamp_ms\":"@.len() == 17);
    assert(",\"usd_cents\":"@.len() == 13);
    assert("}"@.len() == 1);
    assert(s =~= "{\"type\":\"tx\",\"user_id\":\""@ + escape_seq(uid)
        + "\",\"timestamp_ms\":"@ + i64_digits(ts) + ",\"usd_cents\":"@ + i64_digits(c)
        + "}"@);
    assert(s.len() == p4 + dl2 + 1);
    assert(s.subrange(0, 24) =~= "{\"type\":\"tx\",\"user_id\":\""@);
    assert(s.subrange(24, 24 + el) =~= escape_seq(uid));
    assert("\",\"timestamp_ms\":"@[0] == '"');
    assert(s[24 + el] == '"');
    assert(s.subrange(p2, p3) =~= ",\"timestamp_ms\":"@);
    assert(s.subrange(p3, q) =~= i64_digits(ts));
    assert(",\"usd_cents\":"@[0] == ',');
    assert(s.subrange(q, p4) =~= ",\"usd_cents\":"@);
    assert(s[q] == ',');
    assert(s.subrange(p4, p4 + dl2) =~= i64_digits(c));
    assert(s[p4 + dl2] == '}');
    assert forall|k: int| p3 <= k < q implies s[k] != ',' by {
        assert(s[k] == i64_digits(ts)[k - p3]);
    }
    assert forall|k: int| p4 <= k < p4 + dl2 implies s[k] != '}' by {
        assert(s[k] == i64_digits(c)[k - p4]);
    }
}

/// All positional facts of a checkpoint encoding.
proof fn lemma_cp_regions(s: Seq<char>, ev: WalEntryView)
    requires
        ev is Checkpoint,
        s == spec_entry_json(ev),
    ensures
        ({
            let sid = ev->Checkpoint_snapshot_id;
            let el = escape_seq(sid).len() as int;
            &&& s.len() == 36 + el + 2
            &&& s.subrange(0, 36) == "{\"type\":\"checkpoint\",\"snapshot_id\":\""@
            &&& field_at(s, 36, sid)
            &&& s[s.len() - 1] == '}'
        }),
{
    reveal_strlit("{\"type\":\"checkpoint\",\"snapshot_id\":\"");
    reveal_strlit("\"}");
    let sid = ev->Checkpoint_snapshot_id;
    let el = escape_seq(sid).len() as int;
    assert("{\"type\":\"checkpoint\",\"snapshot_id\":\""@.len() == 36);
    assert("\"}"@.len() == 2);
    assert(s =~= "{\"type\":\"checkpoint\",\"snapshot_id\":\""@ + escape_seq(sid) + "\"}"@);
    assert(s.subrange(0, 36) =~= "{\"type\":\"checkpoint\",\"snapshot_id\":\""@);
    assert(s.subrange(36, 36 + el) =~= escape_seq(sid));
    assert("\"}"@[0] == '"');
    assert("\"}"@[1] == '}');
    assert(s[36 + el] == '"');
    assert(s[s.len() - 1] == '}');
}

/// Encode an entry as its canonical JSON text.
pub fn encode_entry_json(e: &WalEntry) -> (r: String)
    requires
        entry_wf(e@),
    ensures
        r@ == spec_entry_json(e@),
{
    match e {
        WalEntry::Transaction { user_id, timestamp_ms, usd_value } => {
            let mut out = String::from_str("{\"type\":\"tx\",\"user_id\":\"");
            let uid_chars = text::str_chars(user_id.as_str());
            let esc = escape_chars(&uid_chars);
            let esc_s = text::chars_to_string(&esc);
            out.append(esc_s.as_str());
            out.append("\",\"timestamp_ms\":");
            let ts_chars = text::i64_to_chars(*timestamp_ms);
            let ts_s = text::chars_to_string(&ts_chars);
            out.append(ts_s.as_str());
            out.append(",\"usd_cents\":");
            let cents: i64 = usd_value.cents();
            let c_chars = text::i64_to_chars(cents);
            let c_s = text::chars_to_string(&c_chars);
            out.append(c_s.as_str());
            out.append("}");
            proof {
                assert(out@ =~= spec_entry_json(e@));
            }
            out
        },
        WalEntry::Checkpoint { snapshot_id } => {
            let mut out = String::from_str("{\"type\":\"checkpoint\",\"snapshot_id\":\"");
            let sid_chars = text::str_chars(snapshot_id.as_str());
            let esc = escape_chars(&sid_chars);
            let esc_s = text::chars_to_string(&esc);
            out.append(esc_s.as_str());
            out.append("\"}");
            proof {
                assert(out@ =~= spec_entry_json(e@));
            }
            out
        },
    }
}


/// Decode an entry from its JSON text. Exact: accepts precisely the
/// canonical encodings of well-formed entries.
#[verifier::rlimit(100)]
pub fn parse_entry_json(s: &Vec<char>) -> (r: Option<WalEntry>)
    ensures
        r matches Some(e) ==> s@ == spec_entry_json(e@) && entry_wf(e@),
        forall|ev: WalEntryView|
            entry_wf(ev) && s@ == spec_entry_json(ev) ==> (r matches Some(e) && e@ == ev),
{
    let n: usize = s.len();
    proof {
        reveal_strlit("{\"type\":\"tx\",\"user_id\":\"");
        reveal_strlit("{\"type\":\"checkpoint\",\"snapshot_id\":\"");
        reveal_strlit(",\"timestamp_ms\":");
        reveal_strlit(",\"usd_cents\":");
        assert forall|ev: WalEntryView| s@ == spec_entry_json(ev) implies spec_regions(s@, ev)
            by {
            if ev is Transaction {
                lemma_tx_regions(s@, ev);
            } else {
                lemma_cp_regions(s@, ev);
            }
        }
    }
    if starts_with_lit(s, 0, "{\"type\":\"tx\",\"user_id\":\"") {
        proof {
            assert("{\"type\":\"tx\",\"user_id\":\""@.len() == 24);
            assert forall|ev: WalEntryView| s@ == spec_entry_json(ev) implies ev is Transaction
                by {
                if ev is Checkpoint {
                    assert(s@.subrange(0, 24)[9] == "{\"type\":\"tx\",\"user_id\":\""@[9]);
                    assert(s@.subrange(0, 36)[9]
                        == "{\"type\":\"checkpoint\",\"snapshot_id\":\""@[9]);
                    assert(false);
                }
            }
        }
        let field = parse_string_field(s, 24);
        let (uid_chars, p2) = match field {
            Some(x) => x,
            None => {
                return None;
            },
        };
        if !starts_with_lit(s, p2, ",\"timestamp_ms\":") {
            proof {
                assert forall|ev: WalEntryView| s@ != spec_entry_json(ev) by {
                    if s@ == spec_entry_json(ev) {
                        assert(uid_chars@ == ev->Transaction_user_id);
                    }
                }
            }
            return None;
        }
        let p3: usize = p2 + 16;
        proof {
            assert(",\"timestamp_ms\":"@.len() == 16);
        }
        let q = match scan_until(s, p3, ',') {
            Some(q) => q,
            None => {
                proof {
                    assert forall|ev: WalEntryView| s@ != spec_entry_json(ev) by {
                        if s@ == spec_entry_json(ev) {
                            assert(uid_chars@ == ev->Transaction_user_id);
                            assert(s@[p3 + i64_digits(ev->Transaction_timestamp_ms).len()]
                                == ',');
                        }
                    }
                }
                return None;
            },
        };
        proof {
            assert forall|ev: WalEntryView| s@ == spec_entry_json(ev) implies q == p3
                + i64_digits(ev->Transaction_timestamp_ms).len() by {
                let dl = i64_digits(ev->Transaction_timestamp_ms).len();
                assert(uid_chars@ == ev->Transaction_user_id);
                if q < p3 + dl {
                    assert(s@[q as int] != ',');
                    assert(false);
                }
                if q > p3 + dl {
                    assert(s@[p3 + dl as int] == ',');
                    assert(false);
                }
            }
        }
        let ts_region = subvec(s, p3, q);
        let ts_val = match text::parse_i64_chars(&ts_region) {
            Some(v) => v,
            None => {
                proof {
                    assert forall|ev: WalEntryView|
                        !(entry_wf(ev) && s@ == spec_entry_json(ev)) by {
                        if entry_wf(ev) && s@ == spec_entry_json(ev) {
                            assert(field_at(s@, 24, ev->Transaction_user_id));
                            assert(uid_chars@ == ev->Transaction_user_id);
                            assert(ts_region@ =~= i64_digits(ev->Transaction_timestamp_ms));
                            let ni: i64 = ev->Transaction_timestamp_ms as i64;
                            assert(ts_region@ != i64_digits(ni as int));
                            assert(false);
                        }
                    }
                }
                return None;
            },
        };
        if !starts_with_lit(s, q, ",\"usd_cents\":") {
            proof {
                assert forall|ev: WalEntryView| s@ != spec_entry_json(ev) by {
                    if s@ == spec_entry_json(ev) {
                        let p4w = 25 + escape_seq(ev->Transaction_user_id).len() as int + 16
                            + i64_digits(ev->Transaction_timestamp_ms).len() as int;
                        assert(s@.subrange(p4w, p4w + 13) == ",\"usd_cents\":"@);
                    }
                }
            }
            return None;
        }
        let p4: usize = q + 13;
        proof {
            assert(",\"usd_cents\":"@.len() == 13);
        }
        let q2 = match scan_until(s, p4, '}') {
            Some(q2) => q2,
            None => {
                proof {
                    assert forall|ev: WalEntryView| s@ != spec_entry_json(ev) by {
                        if s@ == spec_entry_json(ev) {
                            assert(s@[p4 + i64_digits(ev->Transaction_usd_cents).len()]
                                == '}');
                        }
                    }
                }
                return None;
            },
        };
        proof {
            assert forall|ev: WalEntryView| s@ == spec_entry_json(ev) implies q2 == p4
                + i64_digits(ev->Transaction_usd_cents).len() by {
                let dl2 = i64_digits(ev->Transaction_usd_cents).len();
                if q2 < p4 + dl2 {
                    assert(s@[q2 as int] != '}');
                    assert(false);
                }
                if q2 > p4 + dl2 {
                    assert(s@[p4 + dl2 as int] == '}');
                    assert(false);
                }
            }
        }
        if n - q2 != 1 {
            proof {
                assert forall|ev: WalEntryView| s@ != spec_entry_json(ev) by {}
            }
            return None;
        }
        let c_region = subvec(s, p4, q2);
        let cents = match text::parse_i64_chars(&c_region) {
            Some(v) => v,
            None => {
                proof {
                    assert forall|ev: WalEntryView|
                        !(entry_wf(ev) && s@ == spec_entry_json(ev)) by {
                        if entry_wf(ev) && s@ == spec_entry_json(ev) {
                            assert(field_at(s@, 24, ev->Transaction_user_id));
                            assert(uid_chars@ == ev->Transaction_user_id);
                            assert(c_region@ =~= i64_digits(ev->Transaction_usd_cents));
                            let ni: i64 = ev->Transaction_usd_cents as i64;
                            assert(c_region@ != i64_digits(ni as int));
                            assert(false);
                        }
                    }
                }
                return None;
            },
        };
        let usd_value = match Usd::checked_from_cents(cents) {
            Some(u) => u,
            None => {
                proof {
                    assert forall|ev: WalEntryView|
                        !(entry_wf(ev) && s@ == spec_entry_json(ev)) by {
                        if entry_wf(ev) && s@ == spec_entry_json(ev) {
                            assert(c_region@ =~= i64_digits(ev->Transaction_usd_cents));
                            lemma_i64_digits_injective(
                                cents as int,
                                ev->Transaction_usd_cents,
                            );
                        }
                    }
                }
                return None;
            },
        };
        let user_id = text::chars_to_string(&uid_chars);
        let e = WalEntry::Transaction { user_id, timestamp_ms: ts_val, usd_value };
        proof {
            assert(s@.subrange(0, 24) =~= "{\"type\":\"tx\",\"user_id\":\""@);
            assert(s@.subrange(24, p2 - 1) == escape_seq(uid_chars@));
            assert(s@[p2 - 1] == '"');
            assert(s@.subrange(p2 as int, p3 as int) == ",\"timestamp_ms\":"@);
            assert(ts_region@ == s@.subrange(p3 as int, q as int));
            assert(s@.subrange(q as int, p4 as int) == ",\"usd_cents\":"@);
            assert(c_region@ == s@.subrange(p4 as int, q2 as int));
            assert(s@[q2 as int] == '}');
            reveal_strlit("\",\"timestamp_ms\":");
            reveal_strlit("}");
            assert("\",\"timestamp_ms\":"@ =~= seq!['"'] + ",\"timestamp_ms\":"@);
            assert(s@ =~= spec_entry_json(e@));
            assert forall|ev: WalEntryView|
                entry_wf(ev) && s@ == spec_entry_json(ev) implies e@ == ev by {
                assert(uid_chars@ == ev->Transaction_user_id);
                assert(ts_region@ =~= i64_digits(ev->Transaction_timestamp_ms));
                lemma_i64_digits_injective(ts_val as int, ev->Transaction_timestamp_ms);
                assert(c_region@ =~= i64_digits(ev->Transaction_usd_cents));
                lemma_i64_digits_injective(cents as int, ev->Transaction_usd_cents);
            }
        }
        Some(e)
    } else if starts_with_lit(s, 0, "{\"type\":\"checkpoint\",\"snapshot_id\":\"") {
        proof {
            assert("{\"type\":\"checkpoint\",\"snapshot_id\":\""@.len() == 36);
            assert forall|ev: WalEntryView| s@ == spec_entry_json(ev) implies ev is Checkpoint
                by {
                if ev is Transaction {
                    assert(s@.subrange(0, 24)[9] == "{\"type\":\"tx\",\"user_id\":\""@[9]);
                    assert(s@.subrange(0, 36)[9]
                        == "{\"type\":\"checkpoint\",\"snapshot_id\":\""@[9]);
                    assert(false);
                }
            }
        }
        let field = parse_string_field(s, 36);
        let (sid_chars, p2) = match field {
            Some(x) => x,
            None => {
                return None;
            },
        };
        if n - p2 == 1 {
            let last = s[p2];
            if last == '}' {
                let snapshot_id = text::chars_to_string(&sid_chars);
                let e = WalEntry::Checkpoint { snapshot_id };
                proof {
                    assert(s@.subrange(0, 36)
                        =~= "{\"type\":\"checkpoint\",\"snapshot_id\":\""@);
                    assert(s@.subrange(36, p2 - 1) == escape_seq(sid_chars@));
                    assert(s@[p2 - 1] == '"');
                    reveal_strlit("\"}");
                    assert("\"}"@ =~= seq!['"'] + seq!['}']);
                    assert(s@ =~= spec_entry_json(e@));
                    assert forall|ev: WalEntryView|
                        entry_wf(ev) && s@ == spec_entry_json(ev) implies e@ == ev by {
                        assert(sid_chars@ == ev->Checkpoint_snapshot_id);
                    }
                }
                return Some(e);
            }
        }
        proof {
            assert forall|ev: WalEntryView| s@ != spec_entry_json(ev) by {
                if s@ == spec_entry_json(ev) {
                    assert(sid_chars@ == ev->Checkpoint_snapshot_id);
                    assert(s@.len() == 36 + escape_seq(ev->Checkpoint_snapshot_id).len() + 2);
                    assert(s@[s@.len() - 1] == '}');
                }
            }
        }
        None
    } else {
        proof {
            assert forall|ev: WalEntryView| s@ != spec_entry_json(ev) by {
                if s@ == spec_entry_json(ev) {
                    if ev is Transaction {
                        assert(s@.subrange(0, 24) == "{\"type\":\"tx\",\"user_id\":\""@);
                    } else {
                        assert(s@.subrange(0, 36)
                            == "{\"type\":\"checkpoint\",\"snapshot_id\":\""@);
                    }
                }
            }
        }
        None
    }
}

/// The positional layout of an encoding, whichever kind it is.
pub open spec fn spec_regions(s: Seq<char>, ev: WalEntryView) -> bool {
    match ev {
        WalEntryView::Transaction { user_id, timestamp_ms, usd_cents } => {
            let el = escape_seq(user_id).len() as int;
            let dl = i64_digits(timestamp_ms).len() as int;
            let dl2 = i64_digits(usd_cents).len() as int;
            let p2 = 25 + el;
            let p3 = p2 + 16;
            let q = p3 + dl;
            let p4 = q + 13;
            &&& s.len() == p4 + dl2 + 1
            &&& field_at(s, 24, user_id)
            &&& s.subrange(0, 24) == "{\"type\":\"tx\",\"user_id\":\""@
            &&& s.subrange(p2, p3) == ",\"timestamp_ms\":"@
            &&& s.subrange(p3, q) == i64_digits(timestamp_ms)
            &&& s[q] == ','
            &&& (forall|k: int| p3 <= k < q ==> s[k] != ',')
            &&& s.subrange(q, p4) == ",\"usd_cents\":"@
            &&& s.subrange(p4, p4 + dl2) == i64_digits(usd_cents)
            &&& s[p4 + dl2] == '}'
            &&& (forall|k: int| p4 <= k < p4 + dl2 ==> s[k] != '}')
        },
        WalEntryView::Checkpoint { snapshot_id } => {
            let el = escape_seq(snapshot_id).len() as int;
            &&& s.len() == 36 + el + 2
            &&& field_at(s, 36, snapshot_id)
            &&& s.subrange(0, 36) == "{\"type\":\"checkpoint\",\"snapshot_id\":\""@
            &&& s[s.len() - 1] == '}'
        },
    }
}


/// Facts about a record body's layout: the tab sits before the final
/// 8-character checksum, and nothing in the body is a newline.
proof fn lemma_record_body_layout(e: WalEntryView)
    ensures
        ({
            let body = spec_record_body(e);
            let jl = spec_entry_json(e).len() as int;
            &&& body.len() == jl + 9
            &&& body.subrange(0, jl) == spec_entry_json(e)
            &&& body[jl] == '\t'
            &&& body.subrange(jl + 1, jl + 9) == hex8(crc32_of(spec_entry_json(e)))
        }),
{
    let body = spec_record_body(e);
    let jl = spec_entry_json(e).len() as int;
    assert(body.subrange(0, jl) =~= spec_entry_json(e));
    assert(body.subrange(jl + 1, jl + 9) =~= hex8(crc32_of(spec_entry_json(e))));
}

/// Parse one record body: split at the tab before the trailing checksum,
/// verify the checksum, and decode the JSON. Exact on canonical records.
pub fn parse_record_body(line: &Vec<char>) -> (r: Option<WalEntry>)
    ensures
        r matches Some(e) ==> line@ == spec_record_body(e@) && entry_wf(e@),
        forall|ev: WalEntryView|
            entry_wf(ev) && line@ == spec_record_body(ev) ==> (r matches Some(e) && e@ == ev),
{
    let n: usize = line.len();
    proof {
        assert forall|ev: WalEntryView|
            entry_wf(ev) && line@ == spec_record_body(ev) implies line@.len() >= 9 by {
            lemma_record_body_layout(ev);
        }
    }
    if n < 9 {
        return None;
    }
    let jl: usize = n - 9;
    let tab = line[jl];
    if tab != '\t' {
        proof {
            assert forall|ev: WalEntryView|
                !(entry_wf(ev) && line@ == spec_record_body(ev)) by {
                if entry_wf(ev) && line@ == spec_record_body(ev) {
                    lemma_record_body_layout(ev);
                }
            }
        }
        return None;
    }
    let crc_parsed = parse_hex8(line, jl + 1);
    let crc_val = match crc_parsed {
        Some(v) => v,
        None => {
            proof {
                assert forall|ev: WalEntryView|
                    !(entry_wf(ev) && line@ == spec_record_body(ev)) by {
                    if entry_wf(ev) && line@ == spec_record_body(ev) {
                        lemma_record_body_layout(ev);
                        assert(line@.subrange(jl + 1, jl + 9) == hex8(
                            crc32_of(spec_entry_json(ev)),
                        ));
                    }
                }
            }
            return None;
        },
    };
    let json_region = subvec(line, 0, jl);
    let json_string = text::chars_to_string(&json_region);
    let actual_crc = crc32_str(json_string.as_str());
    if actual_crc != crc_val {
        proof {
            assert forall|ev: WalEntryView|
                !(entry_wf(ev) && line@ == spec_record_body(ev)) by {
                if entry_wf(ev) && line@ == spec_record_body(ev) {
                    lemma_record_body_layout(ev);
                    assert(json_region@ =~= spec_entry_json(ev));
                    assert(line@.subrange(jl + 1, jl + 9) == hex8(
                        crc32_of(spec_entry_json(ev)),
                    ));
                }
            }
        }
        return None;
    }
    let parsed = parse_entry_json(&json_region);
    match parsed {
        Some(e) => {
            proof {
                assert(line@ =~= spec_record_body(e@));
                assert forall|ev: WalEntryView|
                    entry_wf(ev) && line@ == spec_record_body(ev) implies e@ == ev by {
                    lemma_record_body_layout(ev);
                    assert(json_region@ =~= spec_entry_json(ev));
                }
            }
            Some(e)
        },
        None => {
            proof {
                assert forall|ev: WalEntryView|
                    !(entry_wf(ev) && line@ == spec_record_body(ev)) by {
                    if entry_wf(ev) && line@ == spec_record_body(ev) {
                        lemma_record_body_layout(ev);
                        assert(json_region@ =~= spec_entry_json(ev));
                    }
                }
            }
            None
        },
    }
}

/// Writer for appending entries to the WAL. The writer fills a text
/// buffer; the service edge drains it to the file and syncs.
#[derive(Debug)]
pub struct WalWriter {
    buf: String,
    entries_written: u64,
}

impl WalWriter {
    /// The buffered, not yet drained text.
    pub closed spec fn spec_buf(self) -> Seq<char> {
        self.buf@
    }

    /// How many entries have been appended.
    pub closed spec fn spec_written(self) -> u64 {
        self.entries_written
    }

    /// A writer with an empty buffer.
    pub fn new() -> (r: WalWriter)
        ensures
            r.spec_buf() == Seq::<char>::empty(),
            r.spec_written() == 0,
    {
        WalWriter { buf: String::new(), entries_written: 0 }
    }

    /// Append one record line to the buffer.
    pub fn append(&mut self, entry: &WalEntry)
        requires
            entry_wf(entry@),
        ensures
            final(self).spec_buf() == old(self).spec_buf() + spec_record_line(entry@),
            final(self).spec_written() == crate::metrics::bump(old(self).spec_written()),
    {
        let json = encode_entry_json(entry);
        let crc = crc32_str(json.as_str());
        let hex = to_hex8(crc);
        let hex_s = text::chars_to_string(&hex);
        self.buf.append(json.as_str());
        self.buf.append("\t");
        self.buf.append(hex_s.as_str());
        self.buf.append("\n");
        self.entries_written = if self.entries_written == u64::MAX {
            self.entries_written
        } else {
            self.entries_written + 1
        };
        proof {
            reveal_strlit("\t");
            reveal_strlit("\n");
            assert("\t"@ =~= seq!['\t']);
            assert("\n"@ =~= seq!['\n']);
            assert(self.buf@ =~= old(self).spec_buf() + spec_record_line(entry@));
        }
    }

    /// Take the buffered text, leaving the buffer empty. The caller
    /// writes it to the file and syncs.
    pub fn take_buffer(&mut self) -> (r: String)
        ensures
            r@ == old(self).spec_buf(),
            final(self).spec_buf() == Seq::<char>::empty(),
            final(self).spec_written() == old(self).spec_written(),
    {
        let mut out = String::new();
        core::mem::swap(&mut out, &mut self.buf);
        out
    }

    /// Get the number of entries written.
    pub fn entries_written(&self) -> (r: u64)
        ensures
            r == self.spec_written(),
    {
        self.entries_written
    }
}

/// A record body never contains a raw newline, so records join into a
/// line-per-record file.
proof fn lemma_record_body_no_newline(e: WalEntryView)
    ensures
        forall|i: int| 0 <= i < spec_record_body(e).len() ==> spec_record_body(e)[i] != '\n',
{
    lemma_record_body_layout(e);
    let body = spec_record_body(e);
    let json = spec_entry_json(e);
    let jl = json.len() as int;
    assert forall|i: int| 0 <= i < body.len() implies body[i] != '\n' by {
        if i < jl {
            assert(body[i] == json[i]);
            lemma_json_no_newline(e);
        } else if i == jl {
        } else {
            assert(body[i] == hex8(crc32_of(json))[i - jl - 1]);
            let v = crc32_of(json);
            assert((v >> 28) & 0xf < 16 && (v >> 24) & 0xf < 16 && (v >> 20) & 0xf < 16 && (v
                >> 16) & 0xf < 16 && (v >> 12) & 0xf < 16 && (v >> 8) & 0xf < 16 && (v >> 4)
                & 0xf < 16 && v & 0xf < 16) by (bit_vector);
        }
    }
}

/// The JSON text of an entry never contains a raw newline.
proof fn lemma_json_no_newline(e: WalEntryView)
    ensures
        forall|i: int| 0 <= i < spec_entry_json(e).len() ==> spec_entry_json(e)[i] != '\n',
{
    reveal_strlit("{\"type\":\"tx\",\"user_id\":\"");
    reveal_strlit("{\"type\":\"checkpoint\",\"snapshot_id\":\"");
    reveal_strlit("\",\"timestamp_ms\":");
    reveal_strlit(",\"usd_cents\":");
    reveal_strlit("}");
    reveal_strlit("\"}");
    match e {
        WalEntryView::Transaction { user_id, timestamp_ms, usd_cents } => {
            lemma_escape_no_newline(user_id);
            lemma_i64_digits_chars(timestamp_ms);
            lemma_i64_digits_chars(usd_cents);
            lemma_tx_regions(spec_entry_json(e), e);
            let s = spec_entry_json(e);
            let el = escape_seq(user_id).len() as int;
            let dl = i64_digits(timestamp_ms).len() as int;
            let dl2 = i64_digits(usd_cents).len() as int;
            assert forall|i: int| 0 <= i < s.len() implies s[i] != '\n' by {
                if i < 24 {
                    assert(s[i] == s.subrange(0, 24)[i]);
                } else if i < 24 + el {
                    assert(s[i] == s.subrange(24, 24 + el)[i - 24]);
                    assert(s.subrange(24, 24 + el) == escape_seq(user_id));
                } else if i == 24 + el {
                    assert(s[i] == '"');
                } else if i < 41 + el {
                    assert(s[i] == s.subrange(25 + el, 41 + el)[i - 25 - el]);
                    assert(s.subrange(25 + el, 41 + el) == ",\"timestamp_ms\":"@);
                } else if i < 41 + el + dl {
                    assert(s[i] == s.subrange(41 + el, 41 + el + dl)[i - 41 - el]);
                    assert(s.subrange(41 + el, 41 + el + dl) == i64_digits(timestamp_ms));
                } else if i < 54 + el + dl {
                    assert(s[i] == s.subrange(41 + el + dl, 54 + el + dl)[i - 41 - el - dl]);
                    assert(s.subrange(41 + el + dl, 54 + el + dl) == ",\"usd_cents\":"@);
                } else if i < 54 + el + dl + dl2 {
                    assert(s[i] == s.subrange(54 + el + dl, 54 + el + dl + dl2)[i - 54 - el
                        - dl]);
                    assert(s.subrange(54 + el + dl, 54 + el + dl + dl2) == i64_digits(
                        usd_cents,
                    ));
                } else {
                    assert(s[i] == '}');
                }
            }
        },
        WalEntryView::Checkpoint { snapshot_id } => {
            lemma_escape_no_newline(snapshot_id);
            lemma_cp_regions(spec_entry_json(e), e);
            let s = spec_entry_json(e);
            let el = escape_seq(snapshot_id).len() as int;
            assert forall|i: int| 0 <= i < s.len() implies s[i] != '\n' by {
                if i < 36 {
                    assert(s[i] == s.subrange(0, 36)[i]);
                } else if i < 36 + el {
                    assert(s[i] == s.subrange(36, 36 + el)[i - 36]);
                    assert(s.subrange(36, 36 + el) == escape_seq(snapshot_id));
                } else if i == 36 + el {
                    assert(s[i] == '"');
                } else {
                    assert(s[i] == '}');
                }
            }
        },
    }
}

/// Every entry is well-formed.
pub open spec fn entries_wf(entries: Seq<WalEntryView>) -> bool {
    forall|i: int| 0 <= i < entries.len() ==> entry_wf(#[trigger] entries[i])
}

/// The lines of a written file are exactly the record bodies of the
/// written entries, in order.
pub proof fn lemma_records_text_lines(entries: Seq<WalEntryView>)
    ensures
        text::spec_lines(spec_records_text(entries)) == entries.map_values(
            |e: WalEntryView| spec_record_body(e),
        ),
        spec_records_text(entries).len() == 0 || spec_records_text(entries).last() == '\n',
    decreases entries.len(),
{
    if entries.len() == 0 {
        assert(spec_records_text(entries) =~= Seq::<char>::empty());
        assert(text::spec_split_lines(Seq::<char>::empty()) == seq![Seq::<char>::empty()]);
        assert(text::spec_lines(Seq::<char>::empty()) =~= Seq::<Seq<char>>::empty());
        assert(entries.map_values(|e: WalEntryView| spec_record_body(e)) =~= Seq::<
            Seq<char>,
        >::empty());
    } else {
        lemma_records_text_lines(entries.drop_last());
        let pre = spec_records_text(entries.drop_last());
        let e = entries.last();
        let body = spec_record_body(e);
        lemma_record_body_no_newline(e);
        assert(spec_records_text(entries) == pre + spec_record_line(e));
        assert(spec_record_line(e) =~= body + seq!['\n']);
        lemma_split_append_line(pre, body);
        assert(spec_records_text(entries).last() == '\n') by {
            assert((pre + (body + seq!['\n'])).last() == '\n');
            assert(spec_records_text(entries) =~= pre + (body + seq!['\n']));
        }
        assert(entries.map_values(|x: WalEntryView| spec_record_body(x))
            =~= entries.drop_last().map_values(|x: WalEntryView| spec_record_body(x)).push(
            body,
        ));
    }
}

/// Appending one newline-free line plus its terminator to a
/// newline-terminated (or empty) text appends exactly one line.
proof fn lemma_split_append_line(pre: Seq<char>, body: Seq<char>)
    requires
        forall|i: int| 0 <= i < body.len() ==> body[i] != '\n',
        pre.len() == 0 || pre.last() == '\n',
    ensures
        text::spec_lines(pre + (body + seq!['\n'])) == text::spec_lines(pre).push(body),
{
    text::lemma_split_lines_nonempty(pre);
    lemma_split_no_newline_suffix(pre, body);
    let base = text::spec_split_lines(pre);
    assert(base.last().len() == 0);
    let whole = pre + (body + seq!['\n']);
    assert(whole =~= (pre + body) + seq!['\n']);
    assert(whole.drop_last() =~= pre + body);
    assert(whole.last() == '\n');
    let p = text::spec_split_lines(pre + body);
    assert(text::spec_split_lines(whole) == p.push(Seq::empty()));
    assert(base.last() + body =~= body);
    assert(p == base.update(base.len() - 1, body));
    assert(text::spec_split_lines(whole).last().len() == 0);
    assert(text::spec_lines(whole) == text::spec_split_lines(whole).drop_last());
    assert(text::spec_split_lines(whole).drop_last() =~= p);
    assert(text::spec_lines(pre) == base.drop_last());
    assert(p =~= base.drop_last().push(body));
}

/// Appending newline-free text extends the last open line.
proof fn lemma_split_no_newline_suffix(pre: Seq<char>, body: Seq<char>)
    requires
        forall|i: int| 0 <= i < body.len() ==> body[i] != '\n',
    ensures
        text::spec_split_lines(pre + body) == text::spec_split_lines(pre).update(
            text::spec_split_lines(pre).len() - 1,
            text::spec_split_lines(pre).last() + body,
        ),
    decreases body.len(),
{
    text::lemma_split_lines_nonempty(pre);
    let base = text::spec_split_lines(pre);
    if body.len() == 0 {
        assert(pre + body =~= pre);
        assert(base.last() + body =~= base.last());
        assert(base.update(base.len() - 1, base.last()) =~= base);
    } else {
        lemma_split_no_newline_suffix(pre, body.drop_last());
        let pb = pre + body;
        assert(pb.drop_last() =~= pre + body.drop_last());
        assert(pb.last() == body.last());
        assert(body.last() != '\n');
        let mid = text::spec_split_lines(pre + body.drop_last());
        assert(mid == base.update(base.len() - 1, base.last() + body.drop_last()));
        assert(mid.len() == base.len());
        assert(text::spec_split_lines(pb) == mid.update(mid.len() - 1, mid.last().push(
            body.last(),
        )));
        assert(mid.last() == base.last() + body.drop_last());
        assert(mid.last().push(body.last()) =~= base.last() + body);
        assert(mid.update(mid.len() - 1, mid.last().push(body.last())) =~= base.update(
            base.len() - 1,
            base.last() + body,
        ));
    }
}



/// A line that is the canonical record of some well-formed entry.
pub open spec fn line_valid(line: Seq<char>) -> bool {
    exists|ev: WalEntryView| entry_wf(ev) && line == #[trigger] spec_record_body(ev)
}

/// The entry a valid line denotes. Well defined because record bodies
/// are injective (`lemma_record_body_injective`).
pub open spec fn line_entry_of(line: Seq<char>) -> WalEntryView {
    choose|ev: WalEntryView| entry_wf(ev) && line == #[trigger] spec_record_body(ev)
}

/// The entries a line list denotes: each valid line's entry, in order.
pub open spec fn spec_read_lines(lines: Seq<Seq<char>>) -> Seq<WalEntryView>
    decreases lines.len(),
{
    if lines.len() == 0 {
        Seq::empty()
    } else {
        let rest = spec_read_lines(lines.drop_last());
        if line_valid(lines.last()) {
            rest.push(line_entry_of(lines.last()))
        } else {
            rest
        }
    }
}

/// How many lines of a list are errors: not valid and not blank.
pub open spec fn spec_read_errors(lines: Seq<Seq<char>>) -> int
    decreases lines.len(),
{
    if lines.len() == 0 {
        0
    } else {
        spec_read_errors(lines.drop_last()) + if !line_valid(lines.last()) && !is_blank_line(
            lines.last(),
        ) {
            1int
        } else {
            0int
        }
    }
}

/// The error count is never negative.
pub proof fn lemma_read_errors_nonneg(lines: Seq<Seq<char>>)
    ensures
        spec_read_errors(lines) >= 0,
    decreases lines.len(),
{
    if lines.len() > 0 {
        lemma_read_errors_nonneg(lines.drop_last());
    }
}

/// A counter after a number of saturating increments.
pub open spec fn sat_add(c: u64, n: int) -> u64 {
    if c + n <= u64::MAX {
        (c + n) as u64
    } else {
        u64::MAX
    }
}

/// One more saturating increment extends a saturating sum.
pub proof fn lemma_sat_add_step(c: u64, n: int)
    requires
        n >= 0,
    ensures
        crate::metrics::bump(sat_add(c, n)) == sat_add(c, n + 1),
{
}

/// A valid line is never blank: every record starts with a brace.
pub proof fn lemma_valid_not_blank(line: Seq<char>)
    requires
        line_valid(line),
    ensures
        !is_blank_line(line),
{
    let ev = choose|ev: WalEntryView| entry_wf(ev) && line == #[trigger] spec_record_body(ev);
    lemma_record_body_layout(ev);
    if ev is Transaction {
        lemma_tx_regions(spec_entry_json(ev), ev);
        reveal_strlit("{\"type\":\"tx\",\"user_id\":\"");
    } else {
        lemma_cp_regions(spec_entry_json(ev), ev);
        reveal_strlit("{\"type\":\"checkpoint\",\"snapshot_id\":\"");
    }
    assert(line[0] == spec_entry_json(ev)[0]);
    assert(line[0] == '{');
}

/// Escaped strings followed by a closing quote decompose uniquely: the
/// quote cannot occur unescaped inside the escaped image, and escape
/// blocks are a prefix code.
proof fn lemma_escape_stream_unique(a: Seq<char>, b: Seq<char>, ra: Seq<char>, rb: Seq<char>)
    requires
        escape_seq(a) + seq!['"'] + ra == escape_seq(b) + seq!['"'] + rb,
    ensures
        a == b,
        ra == rb,
    decreases a.len(),
{
    let sa = escape_seq(a) + seq!['"'] + ra;
    let sb = escape_seq(b) + seq!['"'] + rb;
    if a.len() == 0 && b.len() == 0 {
        assert(escape_seq(a) =~= Seq::<char>::empty());
        assert(escape_seq(b) =~= Seq::<char>::empty());
        assert(sa.skip(1) =~= ra);
        assert(sb.skip(1) =~= rb);
    } else if a.len() == 0 {
        assert(escape_seq(a) =~= Seq::<char>::empty());
        assert(sa[0] == '"');
        let hb = escaped_char(b[0]);
        assert(escape_seq(b) == hb + escape_seq(b.skip(1)));
        assert(sb[0] == hb[0]);
        assert(hb[0] != '"');
        assert(false);
    } else if b.len() == 0 {
        assert(escape_seq(b) =~= Seq::<char>::empty());
        assert(sb[0] == '"');
        let ha = escaped_char(a[0]);
        assert(escape_seq(a) == ha + escape_seq(a.skip(1)));
        assert(sa[0] == ha[0]);
        assert(ha[0] != '"');
        assert(false);
    } else {
        let ha = escaped_char(a[0]);
        let hb = escaped_char(b[0]);
        assert(escape_seq(a) == ha + escape_seq(a.skip(1)));
        assert(escape_seq(b) == hb + escape_seq(b.skip(1)));
        assert(sa[0] == ha[0]);
        assert(sb[0] == hb[0]);
        if ha.len() == 1 && hb.len() == 1 {
            assert(a[0] == b[0]);
            assert(sa.skip(1) =~= escape_seq(a.skip(1)) + seq!['"'] + ra);
            assert(sb.skip(1) =~= escape_seq(b.skip(1)) + seq!['"'] + rb);
            lemma_escape_stream_unique(a.skip(1), b.skip(1), ra, rb);
            assert(a =~= seq![a[0]] + a.skip(1));
            assert(b =~= seq![b[0]] + b.skip(1));
        } else if ha.len() == 2 && hb.len() == 2 {
            assert(sa[1] == ha[1]);
            assert(sb[1] == hb[1]);
            assert(ha[1] == hb[1]);
            // the second block character determines the source character
            assert(a[0] == b[0]);
            assert(sa.skip(2) =~= escape_seq(a.skip(1)) + seq!['"'] + ra);
            assert(sb.skip(2) =~= escape_seq(b.skip(1)) + seq!['"'] + rb);
            lemma_escape_stream_unique(a.skip(1), b.skip(1), ra, rb);
            assert(a =~= seq![a[0]] + a.skip(1));
            assert(b =~= seq![b[0]] + b.skip(1));
        } else if ha.len() == 2 {
            assert(ha[0] == '\\');
            assert(hb[0] == b[0] && b[0] != '\\');
            assert(false);
        } else {
            assert(hb[0] == '\\');
            assert(ha[0] == a[0] && a[0] != '\\');
            assert(false);
        }
    }
}

/// A signed decimal followed by a fixed separator decomposes uniquely.
proof fn lemma_digits_then_sep_unique(x: int, y: int, sep: char, rx: Seq<char>, ry: Seq<char>)
    requires
        i64_digits(x) + seq![sep] + rx == i64_digits(y) + seq![sep] + ry,
        sep != '-',
        !is_digit_char(sep),
    ensures
        x == y,
        rx == ry,
{
    lemma_i64_digits_chars(x);
    lemma_i64_digits_chars(y);
    let s = i64_digits(x) + seq![sep] + rx;
    let t = i64_digits(y) + seq![sep] + ry;
    assert(s == t);
    let dx = i64_digits(x).len() as int;
    let dy = i64_digits(y).len() as int;
    assert(s[dx] == sep);
    assert(t[dy] == sep);
    if dx < dy {
        assert(t[dx] == i64_digits(y)[dx]);
        assert(false);
    }
    if dy < dx {
        assert(s[dy] == i64_digits(x)[dy]);
        assert(false);
    }
    assert(dx == dy);
    assert forall|i: int| 0 <= i < dx implies i64_digits(x)[i] == i64_digits(y)[i] by {
        assert(i64_digits(x)[i] == s[i]);
        assert(i64_digits(y)[i] == t[i]);
    }
    assert(i64_digits(x) =~= i64_digits(y));
    lemma_i64_digits_injective(x, y);
    assert(s.skip(dx + 1) =~= rx);
    assert(t.skip(dy + 1) =~= ry);
}

/// The numeric tail of a transaction encoding determines both numbers.
proof fn lemma_tx_tail_unique(ta: int, ca: int, tb: int, cb: int)
    requires
        "\",\"timestamp_ms\":"@.skip(1) + i64_digits(ta) + ",\"usd_cents\":"@ + i64_digits(ca)
            + "}"@ == "\",\"timestamp_ms\":"@.skip(1) + i64_digits(tb) + ",\"usd_cents\":"@
            + i64_digits(cb) + "}"@,
    ensures
        ta == tb,
        ca == cb,
{
    reveal_strlit("\",\"timestamp_ms\":");
    reveal_strlit(",\"usd_cents\":");
    reveal_strlit("}");
    let lit = "\",\"timestamp_ms\":"@.skip(1);
    let resta = lit + i64_digits(ta) + ",\"usd_cents\":"@ + i64_digits(ca) + "}"@;
    let restb = lit + i64_digits(tb) + ",\"usd_cents\":"@ + i64_digits(cb) + "}"@;
    let xa = i64_digits(ta) + seq![','] + (",\"usd_cents\":"@.skip(1) + i64_digits(ca) + "}"@);
    let xb = i64_digits(tb) + seq![','] + (",\"usd_cents\":"@.skip(1) + i64_digits(cb) + "}"@);
    assert(resta.skip(lit.len() as int) =~= xa) by {
        assert(",\"usd_cents\":"@ =~= seq![','] + ",\"usd_cents\":"@.skip(1));
    }
    assert(restb.skip(lit.len() as int) =~= xb) by {
        assert(",\"usd_cents\":"@ =~= seq![','] + ",\"usd_cents\":"@.skip(1));
    }
    assert(xa == xb);
    lemma_digits_then_sep_unique(
        ta,
        tb,
        ',',
        ",\"usd_cents\":"@.skip(1) + i64_digits(ca) + "}"@,
        ",\"usd_cents\":"@.skip(1) + i64_digits(cb) + "}"@,
    );
    let lit2 = ",\"usd_cents\":"@.skip(1);
    let ya = i64_digits(ca) + seq!['}'] + Seq::<char>::empty();
    let yb = i64_digits(cb) + seq!['}'] + Seq::<char>::empty();
    let tail_a = lit2 + i64_digits(ca) + "}"@;
    let tail_b = lit2 + i64_digits(cb) + "}"@;
    assert(tail_a == tail_b);
    assert(tail_a.skip(lit2.len() as int) =~= ya) by {
        assert("}"@ =~= seq!['}']);
    }
    assert(tail_b.skip(lit2.len() as int) =~= yb) by {
        assert("}"@ =~= seq!['}']);
    }
    lemma_digits_then_sep_unique(ca, cb, '}', Seq::<char>::empty(), Seq::<char>::empty());
}

/// Two transaction entries with the same JSON text are the same.
#[verifier::rlimit(100)]
#[verifier::spinoff_prover]
proof fn lemma_tx_json_injective(a: WalEntryView, b: WalEntryView)
    requires
        a is Transaction,
        b is Transaction,
        entry_wf(a),
        entry_wf(b),
        spec_entry_json(a) == spec_entry_json(b),
    ensures
        a == b,
{
    reveal_strlit("{\"type\":\"tx\",\"user_id\":\"");
    reveal_strlit("\",\"timestamp_ms\":");
    reveal_strlit(",\"usd_cents\":");
    reveal_strlit("}");
    let s = spec_entry_json(a);
    lemma_tx_regions(s, a);
    lemma_tx_regions(s, b);
    let ua = a->Transaction_user_id;
    let ub = b->Transaction_user_id;
    let resta = "\",\"timestamp_ms\":"@.skip(1) + i64_digits(a->Transaction_timestamp_ms)
        + ",\"usd_cents\":"@ + i64_digits(a->Transaction_usd_cents) + "}"@;
    let restb = "\",\"timestamp_ms\":"@.skip(1) + i64_digits(b->Transaction_timestamp_ms)
        + ",\"usd_cents\":"@ + i64_digits(b->Transaction_usd_cents) + "}"@;
    assert(s.skip(24) =~= escape_seq(ua) + seq!['"'] + resta) by {
        assert(s =~= "{\"type\":\"tx\",\"user_id\":\""@ + escape_seq(ua)
            + "\",\"timestamp_ms\":"@ + i64_digits(a->Transaction_timestamp_ms)
            + ",\"usd_cents\":"@ + i64_digits(a->Transaction_usd_cents) + "}"@);
        assert("\",\"timestamp_ms\":"@ =~= seq!['"'] + "\",\"timestamp_ms\":"@.skip(1));
    }
    assert(s.skip(24) =~= escape_seq(ub) + seq!['"'] + restb) by {
        assert(s =~= "{\"type\":\"tx\",\"user_id\":\""@ + escape_seq(ub)
            + "\",\"timestamp_ms\":"@ + i64_digits(b->Transaction_timestamp_ms)
            + ",\"usd_cents\":"@ + i64_digits(b->Transaction_usd_cents) + "}"@);
        assert("\",\"timestamp_ms\":"@ =~= seq!['"'] + "\",\"timestamp_ms\":"@.skip(1));
    }
    lemma_escape_stream_unique(ua, ub, resta, restb);
    lemma_tx_tail_unique(
        a->Transaction_timestamp_ms,
        a->Transaction_usd_cents,
        b->Transaction_timestamp_ms,
        b->Transaction_usd_cents,
    );
}

/// Two checkpoint entries with the same JSON text are the same.
proof fn lemma_cp_json_injective(a: WalEntryView, b: WalEntryView)
    requires
        a is Checkpoint,
        b is Checkpoint,
        spec_entry_json(a) == spec_entry_json(b),
    ensures
        a == b,
{
    reveal_strlit("{\"type\":\"checkpoint\",\"snapshot_id\":\"");
    reveal_strlit("\"}");
    let s = spec_entry_json(a);
    lemma_cp_regions(s, a);
    lemma_cp_regions(s, b);
    let ia = a->Checkpoint_snapshot_id;
    let ib = b->Checkpoint_snapshot_id;
    assert(s.skip(36) =~= escape_seq(ia) + seq!['"'] + seq!['}']) by {
        assert(s =~= "{\"type\":\"checkpoint\",\"snapshot_id\":\""@ + escape_seq(ia) + "\"}"@);
        assert("\"}"@ =~= seq!['"'] + seq!['}']);
    }
    assert(s.skip(36) =~= escape_seq(ib) + seq!['"'] + seq!['}']) by {
        assert(s =~= "{\"type\":\"checkpoint\",\"snapshot_id\":\""@ + escape_seq(ib) + "\"}"@);
        assert("\"}"@ =~= seq!['"'] + seq!['}']);
    }
    lemma_escape_stream_unique(ia, ib, seq!['}'], seq!['}']);
}

/// Well-formed entries with the same JSON text are the same entry.
proof fn lemma_entry_json_injective(a: WalEntryView, b: WalEntryView)
    requires
        entry_wf(a),
        entry_wf(b),
        spec_entry_json(a) == spec_entry_json(b),
    ensures
        a == b,
{
    reveal_strlit("{\"type\":\"tx\",\"user_id\":\"");
    reveal_strlit("{\"type\":\"checkpoint\",\"snapshot_id\":\"");
    let s = spec_entry_json(a);
    if a is Transaction && b is Checkpoint {
        lemma_tx_regions(s, a);
        lemma_cp_regions(s, b);
        assert(s.subrange(0, 24)[9] == "{\"type\":\"tx\",\"user_id\":\""@[9]);
        assert(s.subrange(0, 36)[9] == "{\"type\":\"checkpoint\",\"snapshot_id\":\""@[9]);
        assert(false);
    } else if a is Checkpoint && b is Transaction {
        lemma_tx_regions(s, b);
        lemma_cp_regions(s, a);
        assert(s.subrange(0, 24)[9] == "{\"type\":\"tx\",\"user_id\":\""@[9]);
        assert(s.subrange(0, 36)[9] == "{\"type\":\"checkpoint\",\"snapshot_id\":\""@[9]);
        assert(false);
    } else if a is Transaction {
        lemma_tx_json_injective(a, b);
    } else {
        lemma_cp_json_injective(a, b);
    }
}

/// Record bodies are injective over well-formed entries: a line is the
/// canonical record of at most one entry.
pub proof fn lemma_record_body_injective(a: WalEntryView, b: WalEntryView)
    requires
        entry_wf(a),
        entry_wf(b),
        spec_record_body(a) == spec_record_body(b),
    ensures
        a == b,
{
    lemma_record_body_layout(a);
    lemma_record_body_layout(b);
    let body = spec_record_body(a);
    let ja = spec_entry_json(a).len() as int;
    let jb = spec_entry_json(b).len() as int;
    assert(ja == body.len() - 9);
    assert(jb == body.len() - 9);
    assert(spec_entry_json(a) == body.subrange(0, ja));
    assert(spec_entry_json(b) == body.subrange(0, jb));
    lemma_entry_json_injective(a, b);
}

/// The entry a valid line denotes is pinned: if the line is the record of
/// a well-formed entry, that entry is what `line_entry_of` yields.
pub proof fn lemma_line_entry_pin(line: Seq<char>, e: WalEntryView)
    requires
        entry_wf(e),
        line == spec_record_body(e),
    ensures
        line_valid(line),
        line_entry_of(line) == e,
{
    assert(line_valid(line));
    let c = line_entry_of(line);
    assert(entry_wf(c) && line == spec_record_body(c));
    lemma_record_body_injective(c, e);
}

/// Each line of a written stream is valid and denotes exactly the entry
/// written there: with `WalReader::new`'s binding of the reader's lines
/// to the text, successive `next_entry` calls must yield the written
/// entries in order and then stop.
pub proof fn lemma_record_lines_pinned(entries: Seq<WalEntryView>)
    requires
        entries_wf(entries),
    ensures
        ({
            let lines = text::spec_lines(spec_records_text(entries));
            &&& lines.len() == entries.len()
            &&& forall|i: int|
                0 <= i < lines.len() ==> line_valid(#[trigger] lines[i]) && line_entry_of(
                    lines[i],
                ) == entries[i]
        }),
{
    lemma_records_text_lines(entries);
    let lines = text::spec_lines(spec_records_text(entries));
    assert forall|i: int|
        0 <= i < lines.len() implies line_valid(#[trigger] lines[i]) && line_entry_of(lines[i])
        == entries[i] by {
        assert(lines[i] == entries.map_values(|e: WalEntryView| spec_record_body(e))[i]);
        lemma_line_entry_pin(lines[i], entries[i]);
    }
}

/// Reading back a written stream yields the identical entry sequence
/// with no errors: the lines of the written text are exactly the record
/// bodies, each valid and pinned to its entry.
pub proof fn lemma_read_lines_round_trip(entries: Seq<WalEntryView>)
    requires
        entries_wf(entries),
    ensures
        spec_read_lines(text::spec_lines(spec_records_text(entries))) == entries,
        spec_read_errors(text::spec_lines(spec_records_text(entries))) == 0,
{
    lemma_records_text_lines(entries);
    let bodies = entries.map_values(|e: WalEntryView| spec_record_body(e));
    lemma_read_lines_of_bodies(entries);
}

/// Helper induction: record-body lines decode back to their entries.
proof fn lemma_read_lines_of_bodies(entries: Seq<WalEntryView>)
    requires
        entries_wf(entries),
    ensures
        spec_read_lines(entries.map_values(|e: WalEntryView| spec_record_body(e))) == entries,
        spec_read_errors(entries.map_values(|e: WalEntryView| spec_record_body(e))) == 0,
    decreases entries.len(),
{
    let bodies = entries.map_values(|e: WalEntryView| spec_record_body(e));
    if entries.len() == 0 {
        assert(bodies =~= Seq::<Seq<char>>::empty());
    } else {
        assert(entries_wf(entries.drop_last()));
        lemma_read_lines_of_bodies(entries.drop_last());
        assert(bodies.drop_last() =~= entries.drop_last().map_values(
            |e: WalEntryView| spec_record_body(e),
        ));
        assert(bodies.last() == spec_record_body(entries.last()));
        lemma_line_entry_pin(bodies.last(), entries.last());
        lemma_valid_not_blank(bodies.last());
        assert(spec_read_lines(bodies) =~= entries.drop_last().push(entries.last()));
        assert(entries.drop_last().push(entries.last()) =~= entries);
    }
}

/// A whitespace-only line, skipped silently by the reader.
pub open spec fn is_blank_line(line: Seq<char>) -> bool {
    forall|k: int| 0 <= k < line.len() ==> (line[k] == ' ' || line[k] == '\t' || line[k] == '\r')
}

/// Check whether a line is blank.
fn chars_blank(v: &Vec<char>) -> (r: bool)
    ensures
        r == is_blank_line(v@),
{
    let mut k: usize = 0;
    while k < v.len()
        invariant
            k <= v@.len(),
            forall|j: int| 0 <= j < k ==> (v@[j] == ' ' || v@[j] == '\t' || v@[j] == '\r'),
        decreases v@.len() - k,
    {
        let c = v[k];
        if !(c == ' ' || c == '\t' || c == '\r') {
            return false;
        }
        k = k + 1;
    }
    true
}

/// Read a whole WAL text: every line that is a canonical record yields
/// its entry, in order; blank lines are skipped silently; anything else
/// counts as an error and is skipped. In particular, reading back a
/// written stream yields exactly the written entries with no errors, and
/// corrupting one record loses only that record.
pub fn read_entries(content: &str) -> (r: (Vec<WalEntry>, u64))
    ensures
        r.0@.map_values(|e: WalEntry| e@) == spec_read_lines(text::spec_lines(content@)),
        r.1 == sat_add(0, spec_read_errors(text::spec_lines(content@))),
        forall|i: int| 0 <= i < r.0@.len() ==> entry_wf((#[trigger] r.0@[i])@),
        forall|entries: Seq<WalEntryView>|
            entries_wf(entries) && content@ == spec_records_text(entries) ==> (r.0@.map_values(
                |e: WalEntry| e@,
            ) == entries && r.1 == 0),
{
    let chars = text::str_chars(content);
    let lines = text::split_lines(&chars);
    let ghost lv = lines@.map_values(|v: Vec<char>| v@);
    let mut out: Vec<WalEntry> = Vec::new();
    let mut errors: u64 = 0;
    let mut i: usize = 0;
    proof {
        assert(lv.subrange(0, 0) =~= Seq::<Seq<char>>::empty());
        assert(out@.map_values(|e: WalEntry| e@) =~= spec_read_lines(lv.subrange(0, 0)));
    }
    while i < lines.len()
        invariant
            i <= lines@.len(),
            lv == lines@.map_values(|v: Vec<char>| v@),
            forall|j: int| 0 <= j < out@.len() ==> entry_wf((#[trigger] out@[j])@),
            out@.map_values(|e: WalEntry| e@) == spec_read_lines(lv.subrange(0, i as int)),
            errors == sat_add(0, spec_read_errors(lv.subrange(0, i as int))),
        decreases lines@.len() - i,
    {
        proof {
            assert(lv.subrange(0, (i + 1) as int).drop_last() =~= lv.subrange(0, i as int));
            assert(lv.subrange(0, (i + 1) as int).last() == lv[i as int]);
            lemma_read_errors_nonneg(lv.subrange(0, i as int));
        }
        let line: &Vec<char> = &lines[i];
        if chars_blank(line) {
            proof {
                if line_valid(lv[i as int]) {
                    lemma_valid_not_blank(lv[i as int]);
                }
                assert(out@.map_values(|e: WalEntry| e@) =~= spec_read_lines(
                    lv.subrange(0, (i + 1) as int),
                ));
            }
            i = i + 1;
            continue ;
        }
        let parsed = parse_record_body(line);
        match parsed {
            Some(e) => {
                proof {
                    lemma_line_entry_pin(lv[i as int], e@);
                }
                out.push(e);
                proof {
                    assert(out@.map_values(|x: WalEntry| x@) =~= spec_read_lines(
                        lv.subrange(0, (i + 1) as int),
                    ));
                }
            },
            None => {
                proof {
                    assert(!line_valid(lv[i as int])) by {
                        if line_valid(lv[i as int]) {
                            let ev = line_entry_of(lv[i as int]);
                            assert(entry_wf(ev) && lv[i as int] == spec_record_body(ev));
                            assert(false);
                        }
                    }
                    lemma_sat_add_step(0, spec_read_errors(lv.subrange(0, i as int)));
                }
                errors = if errors == u64::MAX {
                    errors
                } else {
                    errors + 1
                };
                proof {
                    assert(out@.map_values(|x: WalEntry| x@) =~= spec_read_lines(
                        lv.subrange(0, (i + 1) as int),
                    ));
                }
            },
        }
        i = i + 1;
    }
    proof {
        assert(lv.subrange(0, lv.len() as int) =~= lv);
        assert forall|entries: Seq<WalEntryView>|
            entries_wf(entries) && content@ == spec_records_text(entries) implies (out@.map_values(
            |e: WalEntry| e@,
        ) == entries && errors == 0) by {
            lemma_read_lines_round_trip(entries);
        }
    }
    (out, errors)
}

/// Streaming reader over WAL file contents: yields entries one at a
/// time, skipping blank lines and counting corrupt records.
#[derive(Debug)]
pub struct WalReader {
    lines: Vec<Vec<char>>,
    pos: usize,
    entries_read: u64,
    errors: u64,
}

impl WalReader {
    /// The position never runs past the line list.
    pub closed spec fn wf(self) -> bool {
        self.pos <= self.lines@.len()
    }

    /// The line the reader will look at next.
    pub closed spec fn spec_pos(self) -> int {
        self.pos as int
    }

    /// The lines of the underlying text.
    pub closed spec fn spec_line_count(self) -> int {
        self.lines@.len() as int
    }

    /// The lines, as character sequences.
    pub closed spec fn spec_lines_view(self) -> Seq<Seq<char>> {
        self.lines@.map_values(|v: Vec<char>| v@)
    }

    /// The line at an index.
    pub open spec fn spec_line(self, i: int) -> Seq<char> {
        self.spec_lines_view()[i]
    }

    /// How many entries were decoded so far.
    pub closed spec fn spec_entries_read(self) -> u64 {
        self.entries_read
    }

    /// How many corrupt records were skipped so far.
    pub closed spec fn spec_errors(self) -> u64 {
        self.errors
    }

    /// Open a reader over the WAL file contents: the reader's lines are
    /// exactly the lines of the given text.
    pub fn new(content: &str) -> (r: WalReader)
        ensures
            r.wf(),
            r.spec_lines_view() == text::spec_lines(content@),
            r.spec_line_count() == text::spec_lines(content@).len(),
            r.spec_pos() == 0,
            r.spec_entries_read() == 0,
            r.spec_errors() == 0,
    {
        let chars = text::str_chars(content);
        let lines = text::split_lines(&chars);
        WalReader { lines, pos: 0, entries_read: 0, errors: 0 }
    }

    /// Read the next entry: skip blank lines silently; count and skip any
    /// line that is not the canonical record of a well-formed entry; stop
    /// at end of input. Exact: every line passed over is no entry's
    /// record, the returned entry is pinned to its line, the error
    /// counter grows by exactly the number of non-blank skipped lines,
    /// and `None` comes only at end of input — so successive calls yield
    /// a written stream's entries in order, and a corrupted record is
    /// skipped with one error while the rest are still yielded.
    pub fn next_entry(&mut self) -> (r: Option<WalEntry>)
        requires
            old(self).wf(),
        ensures
            final(self).wf(),
            final(self).spec_lines_view() == old(self).spec_lines_view(),
            old(self).spec_pos() <= final(self).spec_pos() <= old(self).spec_line_count(),
            ({
                let lv = old(self).spec_lines_view();
                let p0 = old(self).spec_pos();
                let p1 = final(self).spec_pos();
                match r {
                    Some(e) => {
                        &&& entry_wf(e@)
                        &&& p0 < p1
                        &&& line_valid(lv[p1 - 1])
                        &&& lv[p1 - 1] == spec_record_body(e@)
                        &&& e@ == line_entry_of(lv[p1 - 1])
                        &&& (forall|i: int| p0 <= i < p1 - 1 ==> !line_valid(#[trigger] lv[i]))
                        &&& final(self).spec_entries_read() == crate::metrics::bump(
                            old(self).spec_entries_read(),
                        )
                        &&& final(self).spec_errors() == sat_add(
                            old(self).spec_errors(),
                            spec_read_errors(lv.subrange(p0, p1 - 1)),
                        )
                    },
                    None => {
                        &&& p1 == old(self).spec_line_count()
                        &&& (forall|i: int| p0 <= i < p1 ==> !line_valid(#[trigger] lv[i]))
                        &&& final(self).spec_entries_read() == old(self).spec_entries_read()
                        &&& final(self).spec_errors() == sat_add(
                            old(self).spec_errors(),
                            spec_read_errors(lv.subrange(p0, p1)),
                        )
                    },
                }
            }),
    {
        let ghost lv = old(self).spec_lines_view();
        let ghost p0 = old(self).spec_pos();
        proof {
            assert(lv.subrange(p0, p0) =~= Seq::<Seq<char>>::empty());
        }
        loop
            invariant
                old(self).spec_pos() <= self.pos <= self.lines@.len(),
                self.lines == old(self).lines,
                lv == old(self).spec_lines_view(),
                p0 == old(self).spec_pos(),
                lv == self.lines@.map_values(|v: Vec<char>| v@),
                self.entries_read == old(self).entries_read,
                self.errors == sat_add(
                    old(self).errors,
                    spec_read_errors(lv.subrange(p0, self.pos as int)),
                ),
                forall|i: int| p0 <= i < self.pos ==> !line_valid(#[trigger] lv[i]),
            decreases self.lines@.len() - self.pos,
        {
            if self.pos >= self.lines.len() {
                return None;
            }
            let idx = self.pos;
            proof {
                assert(lv.subrange(p0, idx + 1).drop_last() =~= lv.subrange(p0, idx as int));
                assert(lv.subrange(p0, idx + 1).last() == lv[idx as int]);
                lemma_read_errors_nonneg(lv.subrange(p0, idx as int));
            }
            let line: &Vec<char> = &self.lines[idx];
            if chars_blank(line) {
                proof {
                    if line_valid(lv[idx as int]) {
                        lemma_valid_not_blank(lv[idx as int]);
                    }
                }
                self.pos = idx + 1;
                continue ;
            }
            let parsed = parse_record_body(line);
            match parsed {
                Some(e) => {
                    self.pos = idx + 1;
                    self.entries_read = if self.entries_read == u64::MAX {
                        self.entries_read
                    } else {
                        self.entries_read + 1
                    };
                    proof {
                        lemma_line_entry_pin(lv[idx as int], e@);
                    }
                    return Some(e);
                },
                None => {
                    proof {
                        assert(!line_valid(lv[idx as int])) by {
                            if line_valid(lv[idx as int]) {
                                let ev = line_entry_of(lv[idx as int]);
                                assert(entry_wf(ev) && lv[idx as int] == spec_record_body(ev));
                                assert(false);
                            }
                        }
                        lemma_sat_add_step(
                            old(self).errors,
                            spec_read_errors(lv.subrange(p0, idx as int)),
                        );
                    }
                    self.pos = idx + 1;
                    self.errors = if self.errors == u64::MAX {
                        self.errors
                    } else {
                        self.errors + 1
                    };
                },
            }
        }
    }

    /// Get the number of entries read.
    pub fn entries_read(&self) -> (r: u64)
        ensures
            r == self.spec_entries_read(),
    {
        self.entries_read
    }

    /// Get the number of errors encountered.
    pub fn errors(&self) -> (r: u64)
        ensures
            r == self.spec_errors(),
    {
        self.errors
    }
}

} // verus!
