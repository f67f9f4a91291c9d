//! Per-user rolling-window state: a bounded deque of transaction entries
//! within the trailing 24-hour window, pruned lazily. Entries are appended
//! only at the tail; pruning removes a contiguous prefix only; the entry
//! count never exceeds `MAX_TX_ENTRIES`.

use vstd::prelude::*;
use std::collections::VecDeque;
use crate::usd::{Usd, TX_ABS_MAX_CENTS, USD_ABS_MAX_CENTS};

verus! {

/// Maximum number of transactions to store per user. This bounds memory
/// usage even for high-volume users; the cap is a circuit breaker, not a
/// correctness device.
pub const MAX_TX_ENTRIES: usize = 10000;

/// Duration of the rolling window, in milliseconds.
pub const WINDOW_MS: i64 = 86_400_000;

/// A single transaction entry in the user's rolling window.
#[derive(Debug, Clone, Copy, PartialEq, Eq, Structural)]
pub struct TxEntry {
    /// When the transaction occurred (epoch milliseconds)
    pub timestamp_ms: i64,
    /// USD value of the transaction
    pub usd_value: Usd,
}

/// An entry is counted by window queries when it is strictly newer than
/// the cutoff `now - 24h`.
pub open spec fn in_window(e: TxEntry, now: int) -> bool {
    e.timestamp_ms > now - WINDOW_MS
}

impl TxEntry {
    /// Create a new transaction entry.
    pub fn new(timestamp_ms: i64, usd_value: Usd) -> (r: TxEntry)
        ensures
            r.timestamp_ms == timestamp_ms,
            r.usd_value == usd_value,
    {
        TxEntry { timestamp_ms, usd_value }
    }

    /// Check if this entry has expired (strictly older than the window).
    pub fn is_expired(&self, now_ms: i64) -> (r: bool)
        ensures
            r == (now_ms - self.timestamp_ms > WINDOW_MS),
    {
        (now_ms as i128) - (self.timestamp_ms as i128) > WINDOW_MS as i128
    }
}

/// The sum, in cents, of the entries inside the window.
pub open spec fn rolling_sum(s: Seq<TxEntry>, now: int) -> int
    decreases s.len(),
{
    if s.len() == 0 {
        0
    } else {
        rolling_sum(s.drop_last(), now) + if in_window(s.last(), now) {
            s.last().usd_value@
        } else {
            0int
        }
    }
}

/// The number of entries inside the window whose value is strictly below
/// the threshold.
pub open spec fn small_count(s: Seq<TxEntry>, now: int, threshold: int) -> int
    decreases s.len(),
{
    if s.len() == 0 {
        0
    } else {
        small_count(s.drop_last(), now, threshold) + if in_window(s.last(), now) && s.last().usd_value@
            < threshold {
            1int
        } else {
            0int
        }
    }
}

/// Every entry's value is transaction-sized.
pub open spec fn entries_tx_sized(s: Seq<TxEntry>) -> bool {
    forall|i: int| 0 <= i < s.len() ==> (#[trigger] s[i]).usd_value.tx_sized()
}

/// What `add_tx` does to the entry sequence: append at the tail, dropping
/// the head first when the sequence is at capacity.
pub open spec fn add_tx_spec(s: Seq<TxEntry>, e: TxEntry) -> Seq<TxEntry> {
    if s.len() >= MAX_TX_ENTRIES {
        s.skip(1).push(e)
    } else {
        s.push(e)
    }
}

/// An entry is pruned when its timestamp falls on or before the cutoff.
pub open spec fn prunable(e: TxEntry, now: int) -> bool {
    e.timestamp_ms <= now - WINDOW_MS
}

/// What `prune_expired` does: remove the longest contiguous head prefix
/// of prunable entries.
pub open spec fn prune_spec(s: Seq<TxEntry>, now: int) -> Seq<TxEntry>
    decreases s.len(),
{
    if s.len() > 0 && prunable(s[0], now) {
        prune_spec(s.skip(1), now)
    } else {
        s
    }
}

/// Rolling window state for a single user.
#[derive(Debug)]
pub struct UserState {
    /// User identifier
    pub user_id: String,
    /// Transaction entries in insertion order (oldest first)
    entries: VecDeque<TxEntry>,
    /// Last time state was accessed (for idle actor eviction)
    pub last_access_ms: i64,
}

impl Clone for UserState {
    /// Cloning preserves the identifier, the entries and the access time.
    fn clone(&self) -> (r: Self)
        ensures
            r@ == self@,
            r.spec_user_id() == self.spec_user_id(),
            r.spec_last_access() == self.spec_last_access(),
    {
        let mut entries: VecDeque<TxEntry> = VecDeque::new();
        let mut i: usize = 0;
        let n: usize = self.entries.len();
        while i < n
            invariant
                i <= n,
                n == self@.len(),
                entries@ == self@.subrange(0, i as int),
            decreases n - i,
        {
            entries.push_back(self.entries[i]);
            i = i + 1;
            proof {
                assert(entries@ =~= self@.subrange(0, i as int));
            }
        }
        proof {
            assert(entries@ =~= self@);
        }
        UserState {
            user_id: self.user_id.clone(),
            entries,
            last_access_ms: self.last_access_ms,
        }
    }
}

impl View for UserState {
    type V = Seq<TxEntry>;

    closed spec fn view(&self) -> Seq<TxEntry> {
        self.entries@
    }
}

impl UserState {
    /// Well-formedness: the state never holds more than `MAX_TX_ENTRIES`
    /// entries, and every entry's value is transaction-sized. Constructors
    /// establish it and every method preserves it.
    pub open spec fn wf(self) -> bool {
        self@.len() <= MAX_TX_ENTRIES && entries_tx_sized(self@)
    }

    /// The owning user's identifier, as characters.
    pub closed spec fn spec_user_id(self) -> Seq<char> {
        self.user_id@
    }

    /// The last access time, in epoch milliseconds.
    pub closed spec fn spec_last_access(self) -> int {
        self.last_access_ms as int
    }

    /// The owning user's identifier.
    pub fn user_id(&self) -> (r: &str)
        ensures
            r@ == self.spec_user_id(),
    {
        self.user_id.as_str()
    }

    /// The last access time, in epoch milliseconds.
    pub fn last_access_ms(&self) -> (r: i64)
        ensures
            r == self.spec_last_access(),
    {
        self.last_access_ms
    }

    /// Create empty state for a user.
    pub fn new(user_id: String, now_ms: i64) -> (r: UserState)
        ensures
            r.wf(),
            r.spec_user_id() == user_id@,
            r@ == Seq::<TxEntry>::empty(),
            r.spec_last_access() == now_ms,
    {
        UserState { user_id, entries: VecDeque::new(), last_access_ms: now_ms }
    }

    /// Restore from entries (for recovery). If more entries are given than
    /// the cap allows, the oldest are dropped.
    pub fn from_entries(user_id: String, entries: Vec<TxEntry>, now_ms: i64) -> (r: UserState)
        requires
            entries_tx_sized(entries@),
        ensures
            r.wf(),
            r.spec_user_id() == user_id@,
            r@ == if entries@.len() <= MAX_TX_ENTRIES {
                entries@
            } else {
                entries@.skip(entries@.len() - MAX_TX_ENTRIES)
            },
            r.spec_last_access() == now_ms,
    {
        let total: usize = entries.len();
        let start: usize = if total > MAX_TX_ENTRIES {
            total - MAX_TX_ENTRIES
        } else {
            0
        };
        let mut dq: VecDeque<TxEntry> = VecDeque::new();
        let mut i: usize = start;
        while i < total
            invariant
                start <= i <= total,
                total == entries@.len(),
                dq@ == entries@.subrange(start as int, i as int),
                entries_tx_sized(entries@),
            decreases total - i,
        {
            dq.push_back(entries[i]);
            i = i + 1;
            proof {
                assert(dq@ =~= entries@.subrange(start as int, i as int));
            }
        }
        proof {
            if entries@.len() <= MAX_TX_ENTRIES {
                assert(entries@.subrange(0, entries@.len() as int) =~= entries@);
            } else {
                assert(entries@.subrange(start as int, total as int) =~= entries@.skip(
                    entries@.len() - MAX_TX_ENTRIES,
                ));
            }
            assert(entries_tx_sized(entries@.subrange(start as int, total as int)));
        }
        UserState { user_id, entries: dq, last_access_ms: now_ms }
    }

    /// Add a transaction at the tail, dropping the oldest entry first when
    /// at capacity, and touch the access time.
    pub fn add_tx(&mut self, entry: TxEntry, now_ms: i64)
        requires
            old(self).wf(),
            entry.usd_value.tx_sized(),
        ensures
            final(self).wf(),
            final(self)@ == add_tx_spec(old(self)@, entry),
            final(self).spec_user_id() == old(self).spec_user_id(),
            final(self).spec_last_access() == now_ms,
            final(self)@.len() <= MAX_TX_ENTRIES,
    {
        self.last_access_ms = now_ms;
        if self.entries.len() >= MAX_TX_ENTRIES {
            let _dropped = self.entries.pop_front();
        }
        self.entries.push_back(entry);
    }

    /// Remove the contiguous head prefix of expired entries. Stops at the
    /// first non-expired entry.
    pub fn prune_expired(&mut self, now_ms: i64)
        requires
            old(self).wf(),
        ensures
            final(self).wf(),
            final(self)@ == prune_spec(old(self)@, now_ms as int),
            final(self).spec_user_id() == old(self).spec_user_id(),
            final(self).spec_last_access() == old(self).spec_last_access(),
    {
        loop
            invariant
                prune_spec(old(self)@, now_ms as int) == prune_spec(self@, now_ms as int),
                self.spec_user_id() == old(self).spec_user_id(),
                self.spec_last_access() == old(self).spec_last_access(),
                self@.len() <= MAX_TX_ENTRIES,
                entries_tx_sized(self@),
            ensures
                prune_spec(old(self)@, now_ms as int) == self@,
                self.spec_user_id() == old(self).spec_user_id(),
                self.spec_last_access() == old(self).spec_last_access(),
            decreases self@.len(),
        {
            if self.entries.len() == 0 {
                break ;
            }
            let head: &TxEntry = &self.entries[0];
            let head_ts: i64 = head.timestamp_ms;
            if (now_ms as i128) - (head_ts as i128) >= WINDOW_MS as i128 {
                let _dropped = self.entries.pop_front();
            } else {
                break ;
            }
        }
    }

    /// The rolling 24-hour USD volume: the exact sum of the values of the
    /// entries strictly inside the window.
    pub fn rolling_usd_24h(&self, now_ms: i64) -> (r: Usd)
        requires
            self.wf(),
        ensures
            r@ == rolling_sum(self@, now_ms as int),
    {
        let mut acc: i64 = 0;
        let mut i: usize = 0;
        let n: usize = self.entries.len();
        proof {
            lemma_rolling_sum_bound(self@.subrange(0, 0), now_ms as int);
            assert(self@.subrange(0, 0) =~= Seq::<TxEntry>::empty());
        }
        while i < n
            invariant
                i <= n,
                n == self@.len(),
                self@.len() <= MAX_TX_ENTRIES,
                entries_tx_sized(self@),
                acc == rolling_sum(self@.subrange(0, i as int), now_ms as int),
                -(i as int) * TX_ABS_MAX_CENTS <= acc <= (i as int) * TX_ABS_MAX_CENTS,
            decreases n - i,
        {
            let e: &TxEntry = &self.entries[i];
            proof {
                assert(self@.subrange(0, (i + 1) as int).drop_last() =~= self@.subrange(
                    0,
                    i as int,
                ));
                assert(self@.subrange(0, (i + 1) as int).last() == self@[i as int]);
                assert(self@[i as int].usd_value.tx_sized());
            }
            if (e.timestamp_ms as i128) > (now_ms as i128) - (WINDOW_MS as i128) {
                let v: i64 = e.usd_value.cents();
                acc = acc + v;
            }
            i = i + 1;
        }
        proof {
            assert(self@.subrange(0, n as int) =~= self@);
            assert((n as int) * TX_ABS_MAX_CENTS <= MAX_TX_ENTRIES * TX_ABS_MAX_CENTS)
                by (nonlinear_arith)
                requires
                    n <= MAX_TX_ENTRIES,
            ;
        }
        Usd::from_cents(acc)
    }

    /// Count window entries whose value is strictly below the threshold.
    pub fn count_small_tx(&self, threshold: &Usd, now_ms: i64) -> (r: u64)
        requires
            self.wf(),
        ensures
            r == small_count(self@, now_ms as int, threshold@),
    {
        let mut acc: u64 = 0;
        let mut i: usize = 0;
        let n: usize = self.entries.len();
        proof {
            assert(self@.subrange(0, 0) =~= Seq::<TxEntry>::empty());
        }
        while i < n
            invariant
                i <= n,
                n == self@.len(),
                self@.len() <= MAX_TX_ENTRIES,
                acc == small_count(self@.subrange(0, i as int), now_ms as int, threshold@),
                acc <= i,
            decreases n - i,
        {
            let e: &TxEntry = &self.entries[i];
            proof {
                assert(self@.subrange(0, (i + 1) as int).drop_last() =~= self@.subrange(
                    0,
                    i as int,
                ));
                assert(self@.subrange(0, (i + 1) as int).last() == self@[i as int]);
            }
            if (e.timestamp_ms as i128) > (now_ms as i128) - (WINDOW_MS as i128)
                && e.usd_value.lt(threshold) {
                acc = acc + 1;
            }
            i = i + 1;
        }
        proof {
            assert(self@.subrange(0, n as int) =~= self@);
        }
        acc
    }

    /// Get the number of entries in state.
    pub fn entry_count(&self) -> (r: usize)
        ensures
            r == self@.len(),
    {
        self.entries.len()
    }

    /// Check if state is empty.
    pub fn is_empty(&self) -> (r: bool)
        ensures
            r == (self@.len() == 0),
    {
        self.entries.len() == 0
    }

    /// Get all entries (for serialization/snapshot).
    pub fn entries(&self) -> (r: &VecDeque<TxEntry>)
        ensures
            r@ == self@,
    {
        &self.entries
    }
}

/// The rolling sum over `n` transaction-sized entries is bounded by
/// `n * TX_ABS_MAX_CENTS` in magnitude.
pub proof fn lemma_rolling_sum_bound(s: Seq<TxEntry>, now: int)
    requires
        entries_tx_sized(s),
    ensures
        -(s.len() as int) * TX_ABS_MAX_CENTS <= rolling_sum(s, now) <= (s.len() as int)
            * TX_ABS_MAX_CENTS,
    decreases s.len(),
{
    if s.len() == 0 {
    } else {
        assert(entries_tx_sized(s.drop_last())) by {
            assert(forall|i: int|
                0 <= i < s.drop_last().len() ==> s.drop_last()[i] == s[i]);
        }
        lemma_rolling_sum_bound(s.drop_last(), now);
        assert(s.last() == s[s.len() - 1]);
        assert(s.last().usd_value.tx_sized());
    }
}

/// Pruning keeps the last entry whenever it is still unexpired.
pub proof fn lemma_prune_keeps_last(s: Seq<TxEntry>, now: int)
    requires
        s.len() > 0,
        !prunable(s.last(), now),
    ensures
        prune_spec(s, now).len() >= 1,
        prune_spec(s, now).last() == s.last(),
    decreases s.len(),
{
    if prunable(s[0], now) {
        assert(s.skip(1).len() == s.len() - 1);
        assert(s.skip(1).last() == s.last());
        lemma_prune_keeps_last(s.skip(1), now);
    }
}

/// Two requests serialized on one subject's actor leave both
/// transactions in the state, in their serialization order: the state
/// transitions here are exactly what two `UserActor::evaluate` calls
/// ensure, so after the first appends its entry at time `t1` and the
/// second prunes and appends at time `t2`, the state ends with the two
/// entries in order. Two hypotheses bound the claim: the first entry has
/// not expired from the window by `t2`, and the pruned window is below
/// the entry cap (at the cap the oldest entry is dropped instead).
pub proof fn lemma_serialized_appends(s: Seq<TxEntry>, e1: TxEntry, e2: TxEntry, t1: int, t2: int)
    requires
        !prunable(e1, t2),
        prune_spec(add_tx_spec(prune_spec(s, t1), e1), t2).len() < MAX_TX_ENTRIES,
    ensures
        ({
            let st1 = add_tx_spec(prune_spec(s, t1), e1);
            let st2 = add_tx_spec(prune_spec(st1, t2), e2);
            &&& st2.len() >= 2
            &&& st2[st2.len() - 1] == e2
            &&& st2[st2.len() - 2] == e1
        }),
{
    let st1 = add_tx_spec(prune_spec(s, t1), e1);
    assert(st1.last() == e1);
    lemma_prune_keeps_last(st1, t2);
    let p2 = prune_spec(st1, t2);
    assert(p2.last() == e1);
    let st2 = add_tx_spec(p2, e2);
    assert(st2 == p2.push(e2));
    assert(st2[st2.len() - 2] == p2[p2.len() - 1]);
}

/// A pruned sequence is a suffix of the original: pruning removes a
/// contiguous prefix only, and keeps every in-window entry.
pub proof fn lemma_prune_is_suffix(s: Seq<TxEntry>, now: int)
    ensures
        prune_spec(s, now) == s.skip(s.len() - prune_spec(s, now).len()),
        prune_spec(s, now).len() <= s.len(),
        forall|i: int|
            0 <= i < s.len() && in_window(#[trigger] s[i], now) ==> prune_spec(s, now).contains(
                s[i],
            ),
    decreases s.len(),
{
    if s.len() > 0 && prunable(s[0], now) {
        lemma_prune_is_suffix(s.skip(1), now);
        let p = prune_spec(s, now);
        assert(p == prune_spec(s.skip(1), now));
        assert(s.skip(1).skip(s.skip(1).len() - p.len()) =~= s.skip(s.len() - p.len()));
        assert forall|i: int| 0 <= i < s.len() && in_window(#[trigger] s[i], now) implies p.contains(
            s[i],
        ) by {
            if i == 0 {
                // the head is prunable, hence not in the window
                assert(!in_window(s[0], now));
            } else {
                assert(s.skip(1)[i - 1] == s[i]);
            }
        }
    } else {
        assert(prune_spec(s, now) == s);
        assert(s.skip(0) =~= s);
        assert forall|i: int|
            0 <= i < s.len() && in_window(#[trigger] s[i], now) implies prune_spec(
            s,
            now,
        ).contains(s[i]) by {
            assert(prune_spec(s, now)[i] == s[i]);
        }
    }
}

} // verus!
