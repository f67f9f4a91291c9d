//! Cold-start state reconstruction: seed states from the latest
//! snapshot, replay the write-ahead log past the snapshot's checkpoint,
//! prune what has expired, and populate the actor pool. The service edge
//! reads the files; the reconstruction itself is here.

use vstd::prelude::*;
use crate::pool::ActorPool;
use crate::snapshot::{snapshot_wf, Snapshot};
use crate::state::{add_tx_spec, prune_spec, TxEntry, UserState};
use crate::text;
use crate::usd::Usd;
use crate::wal::WalEntry;

verus! {

use vstd::string::StringExecFns;

/// Statistics from a recovery operation.
#[derive(Debug, Clone, Copy, PartialEq, Eq, Structural)]
pub struct RecoveryStats {
    /// Number of users recovered from the snapshot
    pub snapshot_users: usize,
    /// Number of transactions replayed from the WAL
    pub wal_transactions: usize,
    /// Number of errors encountered
    pub errors: usize,
    /// Total users after recovery
    pub total_users: usize,
}

/// Look a user's entries up in a state list, front first.
pub open spec fn states_get(states: Seq<UserState>, uid: Seq<char>) -> Option<Seq<TxEntry>>
    decreases states.len(),
{
    if states.len() == 0 {
        None
    } else if states[0].spec_user_id() == uid {
        Some(states[0]@)
    } else {
        states_get(states.skip(1), uid)
    }
}

proof fn lemma_states_get_none(states: Seq<UserState>, uid: Seq<char>)
    requires
        forall|j: int| 0 <= j < states.len() ==> (#[trigger] states[j]).spec_user_id() != uid,
    ensures
        states_get(states, uid) is None,
    decreases states.len(),
{
    if states.len() > 0 {
        assert(forall|j: int|
            0 <= j < states.skip(1).len() ==> states.skip(1)[j] == states[j + 1]);
        lemma_states_get_none(states.skip(1), uid);
    }
}

proof fn lemma_states_get_at(states: Seq<UserState>, uid: Seq<char>, i: int)
    requires
        0 <= i < states.len(),
        forall|j: int| 0 <= j < i ==> (#[trigger] states[j]).spec_user_id() != uid,
        states[i].spec_user_id() == uid,
    ensures
        states_get(states, uid) == Some(states[i]@),
    decreases i,
{
    if i > 0 {
        assert(forall|j: int|
            0 <= j < states.skip(1).len() ==> states.skip(1)[j] == states[j + 1]);
        lemma_states_get_at(states.skip(1), uid, i - 1);
    }
}

proof fn lemma_states_get_update(states: Seq<UserState>, i: int, st: UserState, uid: Seq<char>)
    requires
        0 <= i < states.len(),
        forall|j: int| 0 <= j < i ==> (#[trigger] states[j]).spec_user_id() != uid,
        states[i].spec_user_id() == uid,
        st.spec_user_id() == uid,
    ensures
        states_get(states.update(i, st), uid) == Some(st@),
        forall|u2: Seq<char>|
            u2 != uid ==> states_get(states.update(i, st), u2) == states_get(states, u2),
    decreases states.len(),
{
    if i == 0 {
        assert(states.update(0, st)[0] == st);
        assert(states.update(0, st).skip(1) =~= states.skip(1));
        assert forall|u2: Seq<char>| u2 != uid implies states_get(states.update(0int, st), u2)
            == states_get(states, u2) by {
            assert(states.update(0, st)[0] == st);
            assert(states.update(0, st).skip(1) =~= states.skip(1));
            assert(states_get(states.update(0int, st), u2) == states_get(states.skip(1), u2));
            assert(states_get(states, u2) == states_get(states.skip(1), u2));
        }
    } else {
        assert(states.update(i, st)[0] == states[0]);
        assert(states.update(i, st).skip(1) =~= states.skip(1).update(i - 1, st));
        assert(forall|j: int|
            0 <= j < states.skip(1).len() ==> states.skip(1)[j] == states[j + 1]);
        lemma_states_get_update(states.skip(1), i - 1, st, uid);
        assert forall|u2: Seq<char>| u2 != uid implies states_get(states.update(i, st), u2)
            == states_get(states, u2) by {
            assert(states.update(i, st)[0] == states[0]);
            if states[0].spec_user_id() == u2 {
                assert(states_get(states.update(i, st), u2) == Some(states[0]@));
                assert(states_get(states, u2) == Some(states[0]@));
            } else {
                assert(states_get(states.update(i, st), u2) == states_get(
                    states.skip(1).update(i - 1, st),
                    u2,
                ));
                assert(states_get(states, u2) == states_get(states.skip(1), u2));
            }
        }
    }
}

proof fn lemma_states_get_push(states: Seq<UserState>, st: UserState, uid: Seq<char>)
    ensures
        st.spec_user_id() == uid && states_get(states, uid) is None ==> states_get(
            states.push(st),
            uid,
        ) == Some(st@),
        st.spec_user_id() != uid ==> states_get(states.push(st), uid) == states_get(
            states,
            uid,
        ),
        states_get(states, uid) is Some ==> states_get(states.push(st), uid) == states_get(
            states,
            uid,
        ),
    decreases states.len(),
{
    if states.len() == 0 {
        assert(states.push(st)[0] == st);
        assert(states.push(st).skip(1) =~= Seq::<UserState>::empty());
        if st.spec_user_id() == uid {
            assert(states_get(states.push(st), uid) == Some(st@));
        } else {
            assert(states_get(states.push(st), uid) == states_get(
                states.push(st).skip(1),
                uid,
            ));
            assert(states_get(states.push(st), uid) is None);
        }
    } else {
        assert(states.push(st)[0] == states[0]);
        assert(states.push(st).skip(1) =~= states.skip(1).push(st));
        lemma_states_get_push(states.skip(1), st, uid);
        if states[0].spec_user_id() == uid {
            assert(states_get(states.push(st), uid) == Some(states[0]@));
            assert(states_get(states, uid) == Some(states[0]@));
        } else {
            assert(states_get(states.push(st), uid) == states_get(
                states.skip(1).push(st),
                uid,
            ));
            assert(states_get(states, uid) == states_get(states.skip(1), uid));
        }
    }
}

/// Where replay begins: with no checkpoint to find, at the start; with
/// one, just past its first occurrence, or past the end if it never
/// occurs (nothing is replayed).
pub open spec fn spec_cutoff(entries: Seq<WalEntry>, checkpoint: Option<Seq<char>>) -> int
    decreases entries.len(),
{
    match checkpoint {
        None => 0,
        Some(cp) => {
            if entries.len() == 0 {
                0
            } else if entries[0] is Checkpoint && entries[0]->Checkpoint_snapshot_id@ == cp {
                1
            } else {
                1 + spec_cutoff(entries.skip(1), checkpoint)
            }
        },
    }
}

/// What replaying a WAL suffix does to one user's entry history. A
/// transaction whose value is not transaction-sized is skipped.
pub open spec fn replay_uid(
    prior: Option<Seq<TxEntry>>,
    entries: Seq<WalEntry>,
    uid: Seq<char>,
) -> Option<Seq<TxEntry>>
    decreases entries.len(),
{
    if entries.len() == 0 {
        prior
    } else {
        let rest = replay_uid(prior, entries.drop_last(), uid);
        let e = entries.last();
        if e is Transaction && e->Transaction_user_id@ == uid
            && e->Transaction_usd_value.tx_sized() {
            let tx = TxEntry {
                timestamp_ms: e->Transaction_timestamp_ms,
                usd_value: e->Transaction_usd_value,
            };
            match rest {
                Some(s) => Some(add_tx_spec(s, tx)),
                None => Some(seq![tx]),
            }
        } else {
            rest
        }
    }
}

/// How many transactions a WAL suffix replays (the transaction-sized
/// ones).
pub open spec fn spec_replay_count(entries: Seq<WalEntry>) -> int
    decreases entries.len(),
{
    if entries.len() == 0 {
        0
    } else {
        spec_replay_count(entries.drop_last()) + if entries.last() is Transaction
            && entries.last()->Transaction_usd_value.tx_sized() {
            1int
        } else {
            0int
        }
    }
}

/// The checkpoint id a loader handed in, as characters.
pub open spec fn opt_id_view(o: Option<&String>) -> Option<Seq<char>> {
    match o {
        Some(s) => Some(s@),
        None => None,
    }
}

/// Find where replay begins for the given checkpoint.
fn wal_cutoff(entries: &Vec<WalEntry>, checkpoint: Option<&String>) -> (r: usize)
    ensures
        r == spec_cutoff(entries@, opt_id_view(checkpoint)),
        r <= entries@.len(),
{
    let cp = match checkpoint {
        Some(cp) => cp,
        None => {
            return 0;
        },
    };
    proof {
        assert(opt_id_view(checkpoint) == Some(cp@));
    }
    let mut i: usize = 0;
    proof {
        assert(entries@.skip(0) =~= entries@);
    }
    while i < entries.len()
        invariant
            i <= entries@.len(),
            opt_id_view(checkpoint) == Some(cp@),
            spec_cutoff(entries@, Some(cp@)) == i + spec_cutoff(entries@.skip(i as int), Some(
                cp@,
            )),
            forall|j: int|
                0 <= j < i ==> !((#[trigger] entries@[j]) is Checkpoint
                    && entries@[j]->Checkpoint_snapshot_id@ == cp@),
        decreases entries@.len() - i,
    {
        proof {
            assert(entries@.skip(i as int)[0] == entries@[i as int]);
            assert(entries@.skip(i as int).skip(1) =~= entries@.skip(i + 1));
        }
        let matched: bool = match &entries[i] {
            WalEntry::Checkpoint { snapshot_id } => text::str_eq(
                snapshot_id.as_str(),
                cp.as_str(),
            ),
            _ => false,
        };
        if matched {
            proof {
                assert(spec_cutoff(entries@.skip(i as int), Some(cp@)) == 1);
                assert(spec_cutoff(entries@, Some(cp@)) == i + 1);
            }
            return i + 1;
        }
        proof {
            assert(!(entries@[i as int] is Checkpoint && entries@[i as int]->Checkpoint_snapshot_id@
                == cp@));
            assert(spec_cutoff(entries@.skip(i as int), Some(cp@)) == 1 + spec_cutoff(
                entries@.skip(i + 1),
                Some(cp@),
            ));
        }
        i = i + 1;
    }
    proof {
        assert(entries@.skip(entries@.len() as int).len() == 0);
        assert(spec_cutoff(entries@.skip(entries@.len() as int), Some(cp@)) == 0);
        assert(spec_cutoff(entries@, Some(cp@)) == entries@.len());
    }
    entries.len()
}

/// Replay the WAL suffix beginning at `from` into the state list: each
/// transaction-sized transaction is appended to its user's history,
/// creating the user if needed. Returns how many were replayed.
fn replay_wal(
    states: &mut Vec<UserState>,
    entries: &Vec<WalEntry>,
    from: usize,
    now_ms: i64,
) -> (applied: usize)
    requires
        from <= entries@.len(),
        snapshot_wf(old(states)@),
    ensures
        snapshot_wf(final(states)@),
        forall|uid: Seq<char>|
            states_get(final(states)@, uid) == replay_uid(
                states_get(old(states)@, uid),
                entries@.skip(from as int),
                uid,
            ),
        spec_replay_count(entries@.skip(from as int)) <= usize::MAX ==> applied
            == spec_replay_count(entries@.skip(from as int)),
{
    let mut applied: usize = 0;
    let mut k: usize = from;
    proof {
        assert(entries@.skip(from as int).subrange(0, 0) =~= Seq::<WalEntry>::empty());
    }
    while k < entries.len()
        invariant
            from <= k <= entries@.len(),
            snapshot_wf(states@),
            forall|uid: Seq<char>|
                states_get(states@, uid) == replay_uid(
                    states_get(old(states)@, uid),
                    entries@.skip(from as int).subrange(0, k - from),
                    uid,
                ),
            spec_replay_count(entries@.skip(from as int).subrange(0, k - from)) <= usize::MAX
                ==> applied == spec_replay_count(
                entries@.skip(from as int).subrange(0, k - from),
            ),
            spec_replay_count(entries@.skip(from as int).subrange(0, k - from)) > usize::MAX
                ==> applied == usize::MAX,
        decreases entries@.len() - k,
    {
        let ghost sfx = entries@.skip(from as int);
        proof {
            assert(sfx.subrange(0, k - from + 1).drop_last() =~= sfx.subrange(0, k - from));
            assert(sfx.subrange(0, k - from + 1).last() == entries@[k as int]);
        }
        match &entries[k] {
            WalEntry::Transaction { user_id, timestamp_ms, usd_value } => {
                let uid_str = user_id;
                let ts: i64 = *timestamp_ms;
                let usd: Usd = *usd_value;
                if usd.is_tx_sized() {
                    let ghost uid = uid_str@;
                    let ghost tx_entry = TxEntry { timestamp_ms: ts, usd_value: usd };
                    let ghost pre_states = states@;
                    let mut j: usize = 0;
                    let n: usize = states.len();
                    let mut found: bool = false;
                    while j < n && !found
                        invariant
                            j <= n,
                            n == states@.len(),
                            states@ == pre_states,
                            uid == uid_str@,
                            found ==> j < n && states@[j as int].spec_user_id() == uid,
                            forall|m: int|
                                0 <= m < j ==> (#[trigger] states@[m]).spec_user_id() != uid,
                        decreases n - j, (if found { 0int } else { 1int }),
                    {
                        if text::str_eq(states[j].user_id(), uid_str.as_str()) {
                            found = true;
                        } else {
                            j = j + 1;
                        }
                    }
                    if found {
                        proof {
                            lemma_states_get_at(pre_states, uid, j as int);
                        }
                        let slot: &mut UserState = &mut states[j];
                        slot.add_tx(TxEntry::new(ts, usd), now_ms);
                        proof {
                            let st2 = *final(slot);
                            assert(states@ =~= pre_states.update(j as int, st2));
                            lemma_states_get_update(pre_states, j as int, st2, uid);
                            assert(snapshot_wf(states@)) by {
                                assert(forall|m: int|
                                    0 <= m < states@.len() && m != j ==> states@[m]
                                        == pre_states[m]);
                                assert(states@[j as int] == st2);
                            }
                            assert forall|u2: Seq<char>|
                                states_get(states@, u2) == replay_uid(
                                    states_get(old(states)@, u2),
                                    sfx.subrange(0, k - from + 1),
                                    u2,
                                ) by {
                                if u2 != uid {
                                    assert(states_get(states@, u2) == states_get(
                                        pre_states,
                                        u2,
                                    ));
                                }
                            }
                        }
                    } else {
                        proof {
                            lemma_states_get_none(pre_states, uid);
                        }
                        let mut st = UserState::new(
                            String::from_str(uid_str.as_str()),
                            now_ms,
                        );
                        st.add_tx(TxEntry::new(ts, usd), now_ms);
                        states.push(st);
                        proof {
                            assert(st@ =~= seq![tx_entry]);
                            lemma_states_get_push(pre_states, st, uid);
                            assert(snapshot_wf(states@)) by {
                                assert(forall|m: int|
                                    0 <= m < pre_states.len() ==> states@[m] == pre_states[m]);
                                assert(states@[states@.len() - 1] == st);
                            }
                            assert forall|u2: Seq<char>|
                                states_get(states@, u2) == replay_uid(
                                    states_get(old(states)@, u2),
                                    sfx.subrange(0, k - from + 1),
                                    u2,
                                ) by {
                                if u2 != uid {
                                    lemma_states_get_push(pre_states, st, u2);
                                }
                            }
                        }
                    }
                    applied = if applied == usize::MAX {
                        applied
                    } else {
                        applied + 1
                    };
                } else {
                    proof {
                        assert forall|u2: Seq<char>|
                            states_get(states@, u2) == replay_uid(
                                states_get(old(states)@, u2),
                                sfx.subrange(0, k - from + 1),
                                u2,
                            ) by {}
                    }
                }
            },
            WalEntry::Checkpoint { .. } => {
                proof {
                    assert forall|u2: Seq<char>|
                        states_get(states@, u2) == replay_uid(
                            states_get(old(states)@, u2),
                            sfx.subrange(0, k - from + 1),
                            u2,
                        ) by {}
                }
            },
        }
        k = k + 1;
    }
    proof {
        assert(entries@.skip(from as int).subrange(0, entries@.len() - from) =~= entries@.skip(
            from as int,
        ));
    }
    applied
}

/// Prune one state and insert it into the pool when anything remains.
fn insert_one(pool: &mut ActorPool, st: UserState, now_ms: i64) -> (ins: bool)
    requires
        old(pool).wf(),
        st.wf(),
    ensures
        final(pool).wf(),
        ins == (prune_spec(st@, now_ms as int).len() > 0),
        ins ==> (final(pool).spec_get(st.spec_user_id()) matches Some(st2) && st2@ == prune_spec(
            st@,
            now_ms as int,
        )),
        !ins ==> *final(pool) == *old(pool),
        forall|u2: Seq<char>|
            u2 != st.spec_user_id() ==> final(pool).spec_get(u2) == old(pool).spec_get(u2),
{
    let mut st = st;
    st.prune_expired(now_ms);
    if !st.is_empty() {
        pool.insert_with_state(st);
        true
    } else {
        false
    }
}

/// Prune each reconstructed state and insert the non-empty ones into the
/// actor pool.
#[verifier::rlimit(100)]
fn populate_pool(pool: &mut ActorPool, states: Vec<UserState>, now_ms: i64) -> (inserted: usize)
    requires
        old(pool).wf(),
        snapshot_wf(states@),
    ensures
        final(pool).wf(),
        forall|uid: Seq<char>|
            match #[trigger] states_get(states@, uid) {
                Some(entries) => if prune_spec(entries, now_ms as int).len() > 0 {
                    final(pool).spec_get(uid) matches Some(st) && st@ == prune_spec(
                        entries,
                        now_ms as int,
                    )
                } else {
                    final(pool).spec_get(uid) == old(pool).spec_get(uid)
                },
                None => final(pool).spec_get(uid) == old(pool).spec_get(uid),
            },
        inserted <= states@.len(),
{
    let mut inserted: usize = 0;
    let mut i: usize = 0;
    let n: usize = states.len();
    let ghost all = states@;
    let mut states = states;
    while i < n
        invariant
            i <= n,
            n == all.len(),
            states@ == all.skip(i as int),
            snapshot_wf(all),
            pool.wf(),
            inserted <= i,
            forall|m: int|
                0 <= m < i ==> (if prune_spec((#[trigger] all[m])@, now_ms as int).len() > 0 {
                    pool.spec_get(all[m].spec_user_id()) matches Some(st) && st@ == prune_spec(
                        all[m]@,
                        now_ms as int,
                    )
                } else {
                    pool.spec_get(all[m].spec_user_id()) == old(pool).spec_get(
                        all[m].spec_user_id(),
                    )
                }),
            forall|uid: Seq<char>|
                (forall|m: int|
                    0 <= m < i ==> (#[trigger] all[m]).spec_user_id() != uid) ==> #[trigger] pool.spec_get(
                    uid,
                ) == old(pool).spec_get(uid),
        decreases n - i,
    {
        proof {
            assert(all.skip(i as int)[0] == all[i as int]);
            assert(all.skip(i as int).skip(1) =~= all.skip(i + 1));
        }
        let st = states.remove(0);
        let ghost uid = st.spec_user_id();
        let ins = insert_one(pool, st, now_ms);
        if ins {
            inserted = inserted + 1;
        }
        i = i + 1;
        proof {
            assert forall|m: int| 0 <= m < i implies (if prune_spec(
                (#[trigger] all[m])@,
                now_ms as int,
            ).len() > 0 {
                pool.spec_get(all[m].spec_user_id()) matches Some(st2) && st2@ == prune_spec(
                    all[m]@,
                    now_ms as int,
                )
            } else {
                pool.spec_get(all[m].spec_user_id()) == old(pool).spec_get(
                    all[m].spec_user_id(),
                )
            }) by {
                if m < i - 1 {
                    assert(all[m].spec_user_id() != uid);
                }
            }
        }
    }
    proof {
        assert forall|uid: Seq<char>|
            match #[trigger] states_get(all, uid) {
                Some(entries) => if prune_spec(entries, now_ms as int).len() > 0 {
                    pool.spec_get(uid) matches Some(st) && st@ == prune_spec(
                        entries,
                        now_ms as int,
                    )
                } else {
                    pool.spec_get(uid) == old(pool).spec_get(uid)
                },
                None => pool.spec_get(uid) == old(pool).spec_get(uid),
            } by {
            lemma_states_get_index(all, uid);
            match states_get(all, uid) {
                Some(entries) => {
                    let m = choose|m: int|
                        0 <= m < all.len() && (#[trigger] all[m]).spec_user_id() == uid && all[m]@
                            == entries;
                    assert(all[m].spec_user_id() == uid);
                },
                None => {
                    assert(forall|m: int|
                        0 <= m < all.len() ==> (#[trigger] all[m]).spec_user_id() != uid);
                },
            }
        }
    }
    inserted
}

/// A found user has an index; a missing user has none.
proof fn lemma_states_get_index(states: Seq<UserState>, uid: Seq<char>)
    ensures
        match states_get(states, uid) {
            Some(entries) => exists|m: int|
                0 <= m < states.len() && (#[trigger] states[m]).spec_user_id() == uid
                    && states[m]@ == entries,
            None => forall|m: int|
                0 <= m < states.len() ==> (#[trigger] states[m]).spec_user_id() != uid,
        },
    decreases states.len(),
{
    if states.len() > 0 {
        assert(forall|j: int|
            0 <= j < states.skip(1).len() ==> states.skip(1)[j] == states[j + 1]);
        lemma_states_get_index(states.skip(1), uid);
        if states[0].spec_user_id() == uid {
            assert(states_get(states, uid) == Some(states[0]@));
            assert(0 <= 0 < states.len() && states[0].spec_user_id() == uid && states[0]@
                == states[0]@);
        } else {
            assert(states_get(states, uid) == states_get(states.skip(1), uid));
            match states_get(states, uid) {
                Some(entries) => {
                    let m = choose|m: int|
                        0 <= m < states.skip(1).len() && (#[trigger] states.skip(
                            1,
                        )[m]).spec_user_id() == uid && states.skip(1)[m]@ == entries;
                    assert(states[m + 1].spec_user_id() == uid && states[m + 1]@ == entries);
                },
                None => {
                    assert forall|m: int|
                        0 <= m < states.len() implies (#[trigger] states[m]).spec_user_id()
                        != uid by {
                        if m > 0 {
                            assert(states.skip(1)[m - 1] == states[m]);
                        }
                    }
                },
            }
        }
    }
}

/// The checkpoint replay starts after: the snapshot's id, if one was
/// loaded.
pub open spec fn spec_checkpoint_of(snapshot: Option<Snapshot>) -> Option<Seq<char>> {
    match snapshot {
        Some(s) => Some(s.id@),
        None => None,
    }
}

/// The entry history recovery reconstructs for one user: the snapshot's
/// states seeded first, then the WAL replayed past the snapshot's
/// checkpoint (from the start when there is no snapshot).
pub open spec fn spec_recovered(
    snapshot: Option<Snapshot>,
    wal: Seq<WalEntry>,
    uid: Seq<char>,
) -> Option<Seq<TxEntry>> {
    match snapshot {
        Some(s) => replay_uid(
            states_get(s.states@, uid),
            wal.skip(spec_cutoff(wal, Some(s.id@))),
            uid,
        ),
        None => replay_uid(None, wal.skip(spec_cutoff(wal, None)), uid),
    }
}

/// State recovery from WAL and snapshots. The paths name where the
/// service edge reads the files from.
#[derive(Debug, Clone)]
pub struct StateRecovery {
    snapshot_dir: String,
    wal_path: String,
}

impl StateRecovery {
    /// Create a new recovery instance.
    pub fn new(snapshot_dir: &str, wal_path: &str) -> (r: StateRecovery)
        ensures
            r.spec_snapshot_dir() == snapshot_dir@,
            r.spec_wal_path() == wal_path@,
    {
        StateRecovery {
            snapshot_dir: String::from_str(snapshot_dir),
            wal_path: String::from_str(wal_path),
        }
    }

    /// The snapshot directory path.
    pub closed spec fn spec_snapshot_dir(self) -> Seq<char> {
        self.snapshot_dir@
    }

    /// The WAL file path.
    pub closed spec fn spec_wal_path(self) -> Seq<char> {
        self.wal_path@
    }

    /// The snapshot directory path.
    pub fn snapshot_dir(&self) -> (r: &str)
        ensures
            r@ == self.spec_snapshot_dir(),
    {
        self.snapshot_dir.as_str()
    }

    /// The WAL file path.
    pub fn wal_path(&self) -> (r: &str)
        ensures
            r@ == self.spec_wal_path(),
    {
        self.wal_path.as_str()
    }

    /// Materialize the pool's current states as a snapshot: every live
    /// user's state, exactly once, stamped with the given id and time.
    /// The service edge writes the document and appends the matching
    /// checkpoint record to the WAL.
    pub fn create_snapshot(&self, pool: &ActorPool, snapshot_id: String, now_ms: i64) -> (r:
        Snapshot)
        requires
            pool.wf(),
        ensures
            r.id == snapshot_id,
            r.created_at_ms == now_ms,
            snapshot_wf(r.states@),
            r.states@.len() == pool.spec_total(),
            forall|i: int|
                0 <= i < r.states@.len() ==> (pool.spec_get(
                    (#[trigger] r.states@[i]).spec_user_id(),
                ) matches Some(p) && p@ == r.states@[i]@ && p.spec_user_id()
                    == r.states@[i].spec_user_id() && p.spec_last_access()
                    == r.states@[i].spec_last_access()),
            forall|uid: Seq<char>|
                (#[trigger] pool.spec_get(uid)) is Some ==> exists|i: int|
                    0 <= i < r.states@.len() && (#[trigger] r.states@[i]).spec_user_id() == uid,
    {
        Snapshot::new(snapshot_id, pool.all_states(), now_ms)
    }

    /// Recover state into an actor pool: seed from the snapshot if one is
    /// given, replay WAL entries past the snapshot's checkpoint (from the
    /// start when there is no snapshot), prune, and insert every
    /// reconstructed non-empty state.
    pub fn recover(
        &self,
        pool: &mut ActorPool,
        snapshot: Option<Snapshot>,
        wal_entries: &Vec<WalEntry>,
        wal_errors: u64,
        now_ms: i64,
    ) -> (r: RecoveryStats)
        requires
            old(pool).wf(),
            snapshot matches Some(s) ==> snapshot_wf(s.states@),
        ensures
            final(pool).wf(),
            forall|uid: Seq<char>|
                match #[trigger] spec_recovered(snapshot, wal_entries@, uid) {
                    Some(entries) => if prune_spec(entries, now_ms as int).len() > 0 {
                        final(pool).spec_get(uid) matches Some(st) && st@ == prune_spec(
                            entries,
                            now_ms as int,
                        )
                    } else {
                        final(pool).spec_get(uid) == old(pool).spec_get(uid)
                    },
                    None => final(pool).spec_get(uid) == old(pool).spec_get(uid),
                },
            r.snapshot_users == (match snapshot {
                Some(s) => s.states@.len() as int,
                None => 0int,
            }),
            spec_replay_count(
                wal_entries@.skip(spec_cutoff(wal_entries@, spec_checkpoint_of(snapshot))),
            ) <= usize::MAX ==> r.wal_transactions == spec_replay_count(
                wal_entries@.skip(spec_cutoff(wal_entries@, spec_checkpoint_of(snapshot))),
            ),
            r.errors == (if wal_errors <= usize::MAX as u64 {
                wal_errors as int
            } else {
                usize::MAX as int
            }),
            final(pool).spec_total() <= usize::MAX ==> r.total_users == final(pool).spec_total(),
    {
        let ghost snap0 = snapshot;
        let ghost cp_view = match snap0 {
            Some(s) => Some(s.id@),
            None => None::<Seq<char>>,
        };
        let (mut states, checkpoint, snapshot_users): (Vec<UserState>, Option<String>, usize) =
            match snapshot {
            Some(s) => {
                let count = s.states.len();
                (s.states, Some(s.id), count)
            },
            None => (Vec::new(), None, 0),
        };
        let ghost seed = states@;
        let cutoff = wal_cutoff(
            wal_entries,
            match &checkpoint {
                Some(cp) => Some(cp),
                None => None,
            },
        );
        proof {
            assert(opt_id_view(
                match &checkpoint {
                    Some(cp) => Some(cp),
                    None => None,
                },
            ) == cp_view);
            assert(cutoff == spec_cutoff(wal_entries@, cp_view));
            assert(cp_view == spec_checkpoint_of(snap0));
        }
        let applied = replay_wal(&mut states, wal_entries, cutoff, now_ms);
        let ghost replayed_states = states@;
        proof {
            assert forall|uid: Seq<char>|
                #[trigger] spec_recovered(snap0, wal_entries@, uid) == states_get(
                    replayed_states,
                    uid,
                ) by {
                assert(states_get(replayed_states, uid) == replay_uid(
                    states_get(seed, uid),
                    wal_entries@.skip(cutoff as int),
                    uid,
                ));
            }
        }
        let _inserted = populate_pool(pool, states, now_ms);
        let total_users = pool.actor_count();
        RecoveryStats {
            snapshot_users,
            wal_transactions: applied,
            errors: if wal_errors > usize::MAX as u64 {
                usize::MAX
            } else {
                wal_errors as usize
            },
            total_users,
        }
    }
}

} // verus!
