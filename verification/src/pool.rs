//! The actor pool: a fixed array of stripes, each an independently
//! managed map from user id to actor. The stripe for a user is chosen by
//! hashing the id, so every operation touches exactly one stripe; in the
//! server each stripe sits behind its own lock.

use vstd::prelude::*;
use crate::actor::{spec_streaming_results, UserActor};
use crate::snapshot::snapshot_wf;
use crate::evidence::RuleResult;
use crate::event::TxEvent;
use crate::rules_streaming::StreamingRule;
use crate::state::{add_tx_spec, prune_spec, TxEntry, UserState};
use crate::text;

verus! {

use vstd::string::StringExecFns;

/// Number of stripes in the actor pool.
pub const NUM_STRIPES: usize = 64;

/// FNV-1a offset basis.
pub const FNV_OFFSET: u64 = 0xcbf29ce484222325;

/// FNV-1a prime.
pub const FNV_PRIME: u64 = 0x100000001b3;

/// One FNV-1a step: fold a character into the running hash.
pub open spec fn fnv_step(h: u64, c: char) -> u64 {
    ((((h ^ (c as u64)) as nat) * (FNV_PRIME as nat)) % 0x10000000000000000) as u64
}

/// The FNV-1a hash of the first `i` characters.
pub open spec fn fnv_acc(s: Seq<char>, i: int) -> u64
    decreases i,
{
    if i <= 0 {
        FNV_OFFSET
    } else {
        fnv_step(fnv_acc(s, i - 1), s[i - 1])
    }
}

/// The stripe a user id belongs to.
pub open spec fn spec_stripe_of(s: Seq<char>) -> int {
    (fnv_acc(s, s.len() as int) % (NUM_STRIPES as u64)) as int
}

/// Compute the stripe index for a user id.
pub fn stripe_index(user_id: &str) -> (r: usize)
    ensures
        r == spec_stripe_of(user_id@),
        r < NUM_STRIPES,
{
    let chars = text::str_chars(user_id);
    let mut h: u64 = FNV_OFFSET;
    let mut i: usize = 0;
    while i < chars.len()
        invariant
            i <= chars@.len(),
            chars@ == user_id@,
            h == fnv_acc(user_id@, i as int),
        decreases chars@.len() - i,
    {
        let x: u64 = h ^ (chars[i] as u64);
        proof {
            assert((x as u128) * (FNV_PRIME as u128) < 0x100000000000000000000000000000000)
                by (nonlinear_arith)
                requires
                    x <= 0xffffffffffffffff,
                    FNV_PRIME == 0x100000001b3,
            ;
        }
        let prod: u128 = (x as u128) * (FNV_PRIME as u128);
        h = (prod % 0x10000000000000000u128) as u64;
        i = i + 1;
    }
    (h % (NUM_STRIPES as u64)) as usize
}

/// Look a user up in one stripe, front first.
pub open spec fn stripe_get(s: Seq<UserActor>, uid: Seq<char>) -> Option<UserState>
    decreases s.len(),
{
    if s.len() == 0 {
        None
    } else if s[0].state.spec_user_id() == uid {
        Some(s[0].state)
    } else {
        stripe_get(s.skip(1), uid)
    }
}

proof fn lemma_stripe_get_none(s: Seq<UserActor>, uid: Seq<char>)
    requires
        forall|j: int| 0 <= j < s.len() ==> (#[trigger] s[j]).state.spec_user_id() != uid,
    ensures
        stripe_get(s, uid) is None,
    decreases s.len(),
{
    if s.len() > 0 {
        assert(forall|j: int| 0 <= j < s.skip(1).len() ==> s.skip(1)[j] == s[j + 1]);
        lemma_stripe_get_none(s.skip(1), uid);
    }
}

proof fn lemma_stripe_get_at(s: Seq<UserActor>, uid: Seq<char>, i: int)
    requires
        0 <= i < s.len(),
        forall|j: int| 0 <= j < i ==> (#[trigger] s[j]).state.spec_user_id() != uid,
        s[i].state.spec_user_id() == uid,
    ensures
        stripe_get(s, uid) == Some(s[i].state),
    decreases i,
{
    if i > 0 {
        assert(forall|j: int| 0 <= j < s.skip(1).len() ==> s.skip(1)[j] == s[j + 1]);
        lemma_stripe_get_at(s.skip(1), uid, i - 1);
    }
}

proof fn lemma_stripe_get_push(s: Seq<UserActor>, a: UserActor, uid: Seq<char>)
    ensures
        a.state.spec_user_id() == uid && stripe_get(s, uid) is None ==> stripe_get(
            s.push(a),
            uid,
        ) == Some(a.state),
        a.state.spec_user_id() != uid ==> stripe_get(s.push(a), uid) == stripe_get(s, uid),
        stripe_get(s, uid) is Some ==> stripe_get(s.push(a), uid) == stripe_get(s, uid),
    decreases s.len(),
{
    if s.len() == 0 {
        assert(s.push(a)[0] == a);
        assert(s.push(a).skip(1) =~= Seq::<UserActor>::empty());
        if a.state.spec_user_id() == uid {
            assert(stripe_get(s.push(a), uid) == Some(a.state));
        } else {
            assert(stripe_get(s.push(a), uid) == stripe_get(s.push(a).skip(1), uid));
            assert(stripe_get(s.push(a), uid) is None);
        }
    } else {
        assert(s.push(a)[0] == s[0]);
        assert(s.push(a).skip(1) =~= s.skip(1).push(a));
        lemma_stripe_get_push(s.skip(1), a, uid);
        if s[0].state.spec_user_id() == uid {
            assert(stripe_get(s.push(a), uid) == Some(s[0].state));
            assert(stripe_get(s, uid) == Some(s[0].state));
        } else {
            assert(stripe_get(s.push(a), uid) == stripe_get(s.skip(1).push(a), uid));
            assert(stripe_get(s, uid) == stripe_get(s.skip(1), uid));
        }
    }
}

proof fn lemma_stripe_get_update(s: Seq<UserActor>, i: int, a: UserActor, uid: Seq<char>)
    requires
        0 <= i < s.len(),
        forall|j: int| 0 <= j < i ==> (#[trigger] s[j]).state.spec_user_id() != uid,
        s[i].state.spec_user_id() == uid,
        a.state.spec_user_id() == uid,
    ensures
        stripe_get(s.update(i, a), uid) == Some(a.state),
        forall|u2: Seq<char>|
            u2 != uid ==> stripe_get(s.update(i, a), u2) == stripe_get(s, u2),
    decreases s.len(),
{
    if i == 0 {
        assert(s.update(0, a)[0] == a);
        assert(s.update(0, a).skip(1) =~= s.skip(1));
        assert forall|u2: Seq<char>| u2 != uid implies stripe_get(s.update(0int, a), u2)
            == stripe_get(s, u2) by {
            assert(s.update(0, a)[0] == a);
            assert(s.update(0, a).skip(1) =~= s.skip(1));
            assert(stripe_get(s.update(0int, a), u2) == stripe_get(s.skip(1), u2));
            assert(stripe_get(s, u2) == stripe_get(s.skip(1), u2));
        }
    } else {
        assert(s.update(i, a)[0] == s[0]);
        assert(s.update(i, a).skip(1) =~= s.skip(1).update(i - 1, a));
        assert(forall|j: int| 0 <= j < s.skip(1).len() ==> s.skip(1)[j] == s[j + 1]);
        lemma_stripe_get_update(s.skip(1), i - 1, a, uid);
        assert forall|u2: Seq<char>| u2 != uid implies stripe_get(s.update(i, a), u2)
            == stripe_get(s, u2) by {
            assert(s.update(i, a)[0] == s[0]);
            if s[0].state.spec_user_id() == u2 {
                assert(stripe_get(s.update(i, a), u2) == Some(s[0].state));
                assert(stripe_get(s, u2) == Some(s[0].state));
            } else {
                assert(stripe_get(s.update(i, a), u2) == stripe_get(
                    s.skip(1).update(i - 1, a),
                    u2,
                ));
                assert(stripe_get(s, u2) == stripe_get(s.skip(1), u2));
            }
        }
    }
}

/// Statistics about the actor pool.
#[derive(Debug)]
pub struct PoolStats {
    /// Total number of actors
    pub total_actors: usize,
    /// Total number of transaction entries across all actors
    pub total_entries: usize,
    /// Number of actors per stripe
    pub stripe_sizes: Vec<usize>,
}

/// Actor pool with striped storage.
#[derive(Debug)]
pub struct ActorPool {
    stripes: Vec<Vec<UserActor>>,
}

/// A copied state mirrors a stored actor: same user, same entries, same
/// access time.
pub open spec fn mirrors(st: UserState, a: UserActor) -> bool {
    &&& st.spec_user_id() == a.state.spec_user_id()
    &&& st@ == a.state@
    &&& st.spec_last_access() == a.state.spec_last_access()
}

/// The total number of actors across stripes.
pub open spec fn sum_lens(ss: Seq<Seq<UserActor>>) -> int
    decreases ss.len(),
{
    if ss.len() == 0 {
        0
    } else {
        sum_lens(ss.drop_last()) + ss.last().len()
    }
}

/// The total number of window entries held by one stripe's actors.
pub open spec fn stripe_entries(s: Seq<UserActor>) -> int
    decreases s.len(),
{
    if s.len() == 0 {
        0
    } else {
        stripe_entries(s.drop_last()) + s.last().state@.len()
    }
}

/// The total number of window entries across stripes.
pub open spec fn sum_entries(ss: Seq<Seq<UserActor>>) -> int
    decreases ss.len(),
{
    if ss.len() == 0 {
        0
    } else {
        sum_entries(ss.drop_last()) + stripe_entries(ss.last())
    }
}

impl ActorPool {
    /// The stripes, as sequences.
    pub closed spec fn spec_stripes(self) -> Seq<Seq<UserActor>> {
        self.stripes@.map_values(|v: Vec<UserActor>| v@)
    }

    /// Well-formedness: exactly `NUM_STRIPES` stripes; every actor sits in
    /// the stripe its user id hashes to; user ids are unique within a
    /// stripe; every state is well-formed.
    pub open spec fn wf(self) -> bool {
        &&& self.spec_stripes().len() == NUM_STRIPES
        &&& forall|s: int, j: int|
            0 <= s < NUM_STRIPES && 0 <= j < self.spec_stripes()[s].len() ==> {
                let a = #[trigger] self.spec_stripes()[s][j];
                a.state.wf() && spec_stripe_of(a.state.spec_user_id()) == s
            }
        &&& forall|s: int, j: int, k: int|
            0 <= s < NUM_STRIPES && 0 <= j < k < self.spec_stripes()[s].len()
                ==> (#[trigger] self.spec_stripes()[s][j]).state.spec_user_id() != (
            #[trigger] self.spec_stripes()[s][k]).state.spec_user_id()
    }

    /// The state stored for a user, if any.
    pub open spec fn spec_get(self, uid: Seq<char>) -> Option<UserState> {
        stripe_get(self.spec_stripes()[spec_stripe_of(uid)], uid)
    }

    /// The total number of actors.
    pub open spec fn spec_total(self) -> int {
        sum_lens(self.spec_stripes())
    }

    /// Create a new actor pool with empty stripes.
    pub fn new() -> (r: ActorPool)
        ensures
            r.wf(),
            forall|uid: Seq<char>| r.spec_get(uid) is None,
            r.spec_total() == 0,
    {
        let mut stripes: Vec<Vec<UserActor>> = Vec::new();
        let mut i: usize = 0;
        while i < NUM_STRIPES
            invariant
                i <= NUM_STRIPES,
                stripes@.len() == i,
                forall|s: int| 0 <= s < i ==> (#[trigger] stripes@[s])@.len() == 0,
            decreases NUM_STRIPES - i,
        {
            stripes.push(Vec::new());
            i = i + 1;
        }
        let r = ActorPool { stripes };
        proof {
            assert forall|uid: Seq<char>| r.spec_get(uid) is None by {
                assert(0 <= spec_stripe_of(uid) < NUM_STRIPES);
                assert(r.spec_stripes()[spec_stripe_of(uid)].len() == 0);
            }
            lemma_sum_lens_zero(r.spec_stripes());
        }
        r
    }

    /// Get an existing user's actor without creating one.
    pub fn get(&self, user_id: &str) -> (r: Option<&UserActor>)
        requires
            self.wf(),
        ensures
            match r {
                Some(a) => self.spec_get(user_id@) == Some(a.state),
                None => self.spec_get(user_id@) is None,
            },
    {
        let idx = stripe_index(user_id);
        let stripe: &Vec<UserActor> = &self.stripes[idx];
        let ghost sv = self.spec_stripes()[idx as int];
        let mut j: usize = 0;
        while j < stripe.len()
            invariant
                j <= sv.len(),
                sv == stripe@,
                sv == self.spec_stripes()[spec_stripe_of(user_id@)],
                forall|k: int|
                    0 <= k < j ==> (#[trigger] sv[k]).state.spec_user_id() != user_id@,
            decreases sv.len() - j,
        {
            if text::str_eq(stripe[j].user_id(), user_id) {
                proof {
                    lemma_stripe_get_at(sv, user_id@, j as int);
                }
                return Some(&stripe[j]);
            }
            j = j + 1;
        }
        proof {
            lemma_stripe_get_none(sv, user_id@);
        }
        None
    }

    /// Get or create an actor for the given user: after the call the user
    /// is present; an existing actor and every other user are untouched.
    pub fn get_or_create(&mut self, user_id: &str, now_ms: i64)
        requires
            old(self).wf(),
        ensures
            final(self).wf(),
            old(self).spec_get(user_id@) is Some ==> *final(self) == *old(self),
            old(self).spec_get(user_id@) is None ==> {
                &&& final(self).spec_get(user_id@) matches Some(st2) && st2@ == Seq::<
                    TxEntry,
                >::empty() && st2.spec_user_id() == user_id@ && st2.spec_last_access() == now_ms
                &&& final(self).spec_total() == old(self).spec_total() + 1
            },
            forall|u2: Seq<char>|
                u2 != user_id@ ==> final(self).spec_get(u2) == old(self).spec_get(u2),
    {
        let idx = stripe_index(user_id);
        let ghost sv = self.spec_stripes()[idx as int];
        let mut j: usize = 0;
        let n: usize = self.stripes[idx].len();
        while j < n
            invariant
                j <= sv.len(),
                n == sv.len(),
                idx < NUM_STRIPES,
                idx == spec_stripe_of(user_id@),
                self.wf(),
                *self == *old(self),
                self.spec_stripes()[idx as int] == sv,
                forall|k: int|
                    0 <= k < j ==> (#[trigger] sv[k]).state.spec_user_id() != user_id@,
            decreases sv.len() - j,
        {
            if text::str_eq(self.stripes[idx][j].user_id(), user_id) {
                proof {
                    lemma_stripe_get_at(sv, user_id@, j as int);
                }
                return ;
            }
            j = j + 1;
        }
        proof {
            lemma_stripe_get_none(sv, user_id@);
        }
        let actor = UserActor::new(String::from_str(user_id), now_ms);
        let stripe: &mut Vec<UserActor> = &mut self.stripes[idx];
        stripe.push(actor);
        proof {
            assert(self.spec_stripes() =~= old(self).spec_stripes().update(
                idx as int,
                sv.push(actor),
            ));
            lemma_stripe_get_push(sv, actor, user_id@);
            assert forall|u2: Seq<char>| u2 != user_id@ implies self.spec_get(u2) == old(
                self,
            ).spec_get(u2) by {
                if spec_stripe_of(u2) == idx {
                    lemma_stripe_get_push(sv, actor, u2);
                }
            }
            lemma_sum_lens_update(old(self).spec_stripes(), idx as int, sv.push(actor));
        }
    }

    /// Insert an actor with existing state (for recovery), replacing any
    /// present actor for that user.
    pub fn insert_with_state(&mut self, state: UserState)
        requires
            old(self).wf(),
            state.wf(),
        ensures
            final(self).wf(),
            final(self).spec_get(state.spec_user_id()) == Some(state),
            forall|u2: Seq<char>|
                u2 != state.spec_user_id() ==> final(self).spec_get(u2) == old(self).spec_get(
                    u2,
                ),
    {
        let uid_string = String::from_str(state.user_id());
        let idx = stripe_index(uid_string.as_str());
        let ghost uid = state.spec_user_id();
        let ghost sv = self.spec_stripes()[idx as int];
        let actor = UserActor::with_state(state);
        let mut j: usize = 0;
        let n: usize = self.stripes[idx].len();
        while j < n
            invariant
                j <= sv.len(),
                n == sv.len(),
                idx < NUM_STRIPES,
                idx == spec_stripe_of(uid),
                actor.state == state,
                state.wf(),
                uid == state.spec_user_id(),
                uid_string@ == uid,
                self.wf(),
                *self == *old(self),
                self.spec_stripes()[idx as int] == sv,
                forall|k: int|
                    0 <= k < j ==> (#[trigger] sv[k]).state.spec_user_id() != uid,
            decreases sv.len() - j,
        {
            if text::str_eq(self.stripes[idx][j].user_id(), uid_string.as_str()) {
                let stripe: &mut Vec<UserActor> = &mut self.stripes[idx];
                let slot: &mut UserActor = &mut stripe[j];
                *slot = actor;
                proof {
                    assert(self.spec_stripes() =~= old(self).spec_stripes().update(
                        idx as int,
                        sv.update(j as int, actor),
                    ));
                    lemma_stripe_get_update(sv, j as int, actor, uid);
                    assert forall|u2: Seq<char>| u2 != uid implies self.spec_get(u2) == old(
                        self,
                    ).spec_get(u2) by {
                        if spec_stripe_of(u2) == idx {
                            lemma_stripe_get_update(sv, j as int, actor, uid);
                        }
                    }
                }
                return ;
            }
            j = j + 1;
        }
        proof {
            lemma_stripe_get_none(sv, uid);
        }
        let stripe: &mut Vec<UserActor> = &mut self.stripes[idx];
        stripe.push(actor);
        proof {
            assert(self.spec_stripes() =~= old(self).spec_stripes().update(
                idx as int,
                sv.push(actor),
            ));
            lemma_stripe_get_push(sv, actor, uid);
            assert forall|u2: Seq<char>| u2 != uid implies self.spec_get(u2) == old(
                self,
            ).spec_get(u2) by {
                if spec_stripe_of(u2) == idx {
                    lemma_stripe_get_push(sv, actor, u2);
                }
            }
        }
    }

    /// Run the streaming phase for one request's subject: get or create
    /// the user's actor, prune its window, evaluate every streaming rule
    /// in order against the pruned state, and append the transaction.
    /// Returns the per-rule results, in rule order.
    pub fn evaluate_streaming(
        &mut self,
        user_id: &str,
        rules: &Vec<StreamingRule>,
        event: &TxEvent,
        now_ms: i64,
    ) -> (r: Vec<RuleResult>)
        requires
            old(self).wf(),
            event.usd_value.tx_sized(),
        ensures
            final(self).wf(),
            ({
                let prior = match old(self).spec_get(user_id@) {
                    Some(st) => st@,
                    None => Seq::<TxEntry>::empty(),
                };
                let pruned = prune_spec(prior, now_ms as int);
                &&& r@.map_values(|x: RuleResult| x@) == spec_streaming_results(
                    rules@,
                    *event,
                    pruned,
                    now_ms as int,
                )
                &&& final(self).spec_get(user_id@) matches Some(st2) && st2@ == add_tx_spec(
                    pruned,
                    TxEntry { timestamp_ms: event.occurred_at_ms, usd_value: event.usd_value },
                )
            }),
            forall|i: int| 0 <= i < r@.len() ==> (#[trigger] r@[i]).wf(),
            forall|u2: Seq<char>|
                u2 != user_id@ ==> final(self).spec_get(u2) == old(self).spec_get(u2),
    {
        self.get_or_create(user_id, now_ms);
        let ghost prior = match old(self).spec_get(user_id@) {
            Some(st) => st@,
            None => Seq::<TxEntry>::empty(),
        };
        let idx = stripe_index(user_id);
        let ghost sv = self.spec_stripes()[idx as int];
        proof {
            assert(self.spec_get(user_id@) is Some);
        }
        let mut j: usize = 0;
        let n: usize = self.stripes[idx].len();
        let ghost mid = *self;
        loop
            invariant
                j <= sv.len(),
                n == sv.len(),
                idx < NUM_STRIPES,
                idx == spec_stripe_of(user_id@),
                *self == mid,
                mid.wf(),
                mid.spec_get(user_id@) is Some,
                mid.spec_stripes()[idx as int] == sv,
                forall|k: int|
                    0 <= k < j ==> (#[trigger] sv[k]).state.spec_user_id() != user_id@,
            ensures
                j < sv.len(),
                sv[j as int].state.spec_user_id() == user_id@,
                *self == mid,
                forall|k: int|
                    0 <= k < j ==> (#[trigger] sv[k]).state.spec_user_id() != user_id@,
            decreases sv.len() - j,
        {
            if j >= n {
                proof {
                    lemma_stripe_get_none(sv, user_id@);
                }
                // unreachable: the user was just created
                proof {
                    assert(false);
                }
            }
            if text::str_eq(self.stripes[idx][j].user_id(), user_id) {
                break ;
            }
            j = j + 1;
        }
        proof {
            lemma_stripe_get_at(sv, user_id@, j as int);
            assert(Some(sv[j as int].state) == mid.spec_get(user_id@));
        }
        let stripe: &mut Vec<UserActor> = &mut self.stripes[idx];
        let actor: &mut UserActor = &mut stripe[j];
        let results = actor.run_streaming(rules, event, now_ms);
        proof {
            let a2 = *final(actor);
            assert(self.spec_stripes() =~= mid.spec_stripes().update(
                idx as int,
                sv.update(j as int, a2),
            ));
            lemma_stripe_get_update(sv, j as int, a2, user_id@);
            assert forall|u2: Seq<char>| u2 != user_id@ implies self.spec_get(u2)
                == mid.spec_get(u2) by {
                if spec_stripe_of(u2) == idx {
                    lemma_stripe_get_update(sv, j as int, a2, user_id@);
                }
            }
            if old(self).spec_get(user_id@) is Some {
                assert(mid == *old(self));
                assert(sv[j as int].state == old(self).spec_get(user_id@).unwrap());
            } else {
                assert(mid.spec_get(user_id@).unwrap()@ == Seq::<TxEntry>::empty());
                assert(prune_spec(Seq::<TxEntry>::empty(), now_ms as int) == Seq::<
                    TxEntry,
                >::empty());
                assert(sv[j as int].state@ =~= prior);
            }
        }
        results
    }

    /// Remove idle actors to free memory. Each stripe keeps, in order,
    /// exactly the actors whose last access lies within the threshold.
    /// Returns the number of actors evicted.
    pub fn evict_idle(&mut self, idle_threshold_secs: i64, now_ms: i64) -> (r: usize)
        requires
            old(self).wf(),
        ensures
            final(self).wf(),
            forall|s: int|
                0 <= s < NUM_STRIPES ==> final(self).spec_stripes()[s] == evict_filter(
                    old(self).spec_stripes()[s],
                    now_ms as int,
                    idle_threshold_secs as int,
                ),
            final(self).spec_total() <= old(self).spec_total(),
            old(self).spec_total() - final(self).spec_total() <= usize::MAX ==> r == old(
                self,
            ).spec_total() - final(self).spec_total(),
    {
        let ghost now = now_ms as int;
        let ghost thr = idle_threshold_secs as int;
        let mut evicted: usize = 0;
        let mut s: usize = 0;
        while s < NUM_STRIPES
            invariant
                s <= NUM_STRIPES,
                old(self).wf(),
                self.wf(),
                now == now_ms as int,
                thr == idle_threshold_secs as int,
                forall|t: int|
                    0 <= t < s ==> self.spec_stripes()[t] == evict_filter(
                        old(self).spec_stripes()[t],
                        now,
                        thr,
                    ),
                forall|t: int|
                    s <= t < NUM_STRIPES ==> self.spec_stripes()[t] == old(
                        self,
                    ).spec_stripes()[t],
                sum_lens(self.spec_stripes().subrange(0, s as int)) <= sum_lens(
                    old(self).spec_stripes().subrange(0, s as int),
                ),
                sum_lens(old(self).spec_stripes().subrange(0, s as int)) - sum_lens(
                    self.spec_stripes().subrange(0, s as int),
                ) <= usize::MAX ==> evicted == sum_lens(
                    old(self).spec_stripes().subrange(0, s as int),
                ) - sum_lens(self.spec_stripes().subrange(0, s as int)),
                sum_lens(old(self).spec_stripes().subrange(0, s as int)) - sum_lens(
                    self.spec_stripes().subrange(0, s as int),
                ) > usize::MAX ==> evicted == usize::MAX,
            decreases NUM_STRIPES - s,
        {
            let ghost pool_before = *self;
            let ghost sv = self.spec_stripes()[s as int];
            let stripe: &mut Vec<UserActor> = &mut self.stripes[s];
            let orig_len: usize = stripe.len();
            let mut j: usize = 0;
            let ghost p: int = 0;
            while j < stripe.len()
                invariant
                    0 <= p <= sv.len(),
                    j == evict_filter(sv.subrange(0, p), now, thr).len(),
                    stripe@ == evict_filter(sv.subrange(0, p), now, thr) + sv.skip(p),
                    now == now_ms as int,
                    thr == idle_threshold_secs as int,
                decreases sv.len() - p,
            {
                proof {
                    lemma_evict_filter_len(sv.subrange(0, p), now, thr);
                    assert(p < sv.len());
                    assert(stripe@[j as int] == sv[p]);
                    assert(sv.subrange(0, p + 1).drop_last() =~= sv.subrange(0, p));
                    assert(sv.subrange(0, p + 1).last() == sv[p]);
                }
                let idle: bool = stripe[j].is_idle(idle_threshold_secs, now_ms);
                if idle {
                    let _removed = stripe.remove(j);
                    proof {
                        assert(stripe@ =~= evict_filter(sv.subrange(0, p + 1), now, thr)
                            + sv.skip(p + 1));
                    }
                } else {
                    j = j + 1;
                    proof {
                        assert(evict_filter(sv.subrange(0, p + 1), now, thr) == evict_filter(
                            sv.subrange(0, p),
                            now,
                            thr,
                        ).push(sv[p]));
                        assert(stripe@ =~= evict_filter(sv.subrange(0, p + 1), now, thr)
                            + sv.skip(p + 1));
                    }
                }
                proof {
                    p = p + 1;
                }
            }
            proof {
                assert(sv.subrange(0, sv.len() as int) =~= sv);
                assert(sv.skip(sv.len() as int) =~= Seq::<UserActor>::empty());
                assert(stripe@ =~= evict_filter(sv, now, thr));
                lemma_evict_filter_len(sv, now, thr);
            }
            let new_len: usize = stripe.len();
            let dropped: usize = orig_len - new_len;
            evicted = if dropped > usize::MAX - evicted {
                usize::MAX
            } else {
                evicted + dropped
            };
            s = s + 1;
            proof {
                assert(self.spec_stripes() =~= pool_before.spec_stripes().update(
                    (s - 1) as int,
                    evict_filter(sv, now, thr),
                ));
                lemma_evict_filter_contains(sv, now, thr);
                lemma_evict_filter_unique(sv, now, thr);
                assert(self.spec_stripes().subrange(0, s as int).drop_last()
                    =~= pool_before.spec_stripes().subrange(0, (s - 1) as int));
                assert(old(self).spec_stripes().subrange(0, s as int).drop_last() =~= old(
                    self,
                ).spec_stripes().subrange(0, (s - 1) as int));
                assert(self.spec_stripes().subrange(0, s as int).last() == evict_filter(
                    sv,
                    now,
                    thr,
                ));
                assert(old(self).spec_stripes().subrange(0, s as int).last() == sv);
                assert(pool_before.spec_stripes().subrange(0, (s - 1) as int)
                    =~= self.spec_stripes().subrange(0, (s - 1) as int));
                lemma_sum_lens_update(pool_before.spec_stripes(), (s - 1) as int, evict_filter(
                    sv,
                    now,
                    thr,
                ));
            }
        }
        proof {
            assert(self.spec_stripes().subrange(0, NUM_STRIPES as int) =~= self.spec_stripes());
            assert(old(self).spec_stripes().subrange(0, NUM_STRIPES as int) =~= old(
                self,
            ).spec_stripes());
        }
        evicted
    }

    /// Per-stripe sizes plus aggregate counts, for observability. Both
    /// aggregates saturate at the machine limit, which physical pools
    /// never reach.
    pub fn stats(&self) -> (r: PoolStats)
        requires
            self.wf(),
        ensures
            r.stripe_sizes@.len() == NUM_STRIPES,
            forall|s: int|
                0 <= s < NUM_STRIPES ==> r.stripe_sizes@[s] == self.spec_stripes()[s].len(),
            self.spec_total() <= usize::MAX ==> r.total_actors == self.spec_total(),
            sum_entries(self.spec_stripes()) <= usize::MAX ==> r.total_entries == sum_entries(
                self.spec_stripes(),
            ),
    {
        let mut sizes: Vec<usize> = Vec::new();
        let mut entries: usize = 0;
        let mut s: usize = 0;
        proof {
            assert(self.spec_stripes().subrange(0, 0) =~= Seq::<Seq<UserActor>>::empty());
        }
        while s < NUM_STRIPES
            invariant
                s <= NUM_STRIPES,
                self.wf(),
                sizes@.len() == s,
                forall|t: int| 0 <= t < s ==> sizes@[t] == self.spec_stripes()[t].len(),
                sum_entries(self.spec_stripes().subrange(0, s as int)) <= usize::MAX ==> entries
                    == sum_entries(self.spec_stripes().subrange(0, s as int)),
                sum_entries(self.spec_stripes().subrange(0, s as int)) > usize::MAX ==> entries
                    == usize::MAX,
            decreases NUM_STRIPES - s,
        {
            proof {
                assert(self.spec_stripes().subrange(0, (s + 1) as int).drop_last()
                    =~= self.spec_stripes().subrange(0, s as int));
                assert(self.spec_stripes().subrange(0, (s + 1) as int).last()
                    == self.spec_stripes()[s as int]);
            }
            let stripe: &Vec<UserActor> = &self.stripes[s];
            sizes.push(stripe.len());
            let mut j: usize = 0;
            let ghost sv = self.spec_stripes()[s as int];
            proof {
                assert(sv.subrange(0, 0) =~= Seq::<UserActor>::empty());
            }
            while j < stripe.len()
                invariant
                    j <= stripe@.len(),
                    s < NUM_STRIPES,
                    stripe@ == sv,
                    sv == self.spec_stripes()[s as int],
                    sum_entries(self.spec_stripes().subrange(0, s as int)) + stripe_entries(
                        sv.subrange(0, j as int),
                    ) <= usize::MAX ==> entries == sum_entries(
                        self.spec_stripes().subrange(0, s as int),
                    ) + stripe_entries(sv.subrange(0, j as int)),
                    sum_entries(self.spec_stripes().subrange(0, s as int)) + stripe_entries(
                        sv.subrange(0, j as int),
                    ) > usize::MAX ==> entries == usize::MAX,
                decreases stripe@.len() - j,
            {
                proof {
                    assert(sv.subrange(0, (j + 1) as int).drop_last() =~= sv.subrange(
                        0,
                        j as int,
                    ));
                    assert(sv.subrange(0, (j + 1) as int).last() == sv[j as int]);
                    lemma_stripe_entries_nonneg(sv.subrange(0, j as int));
                    lemma_sum_entries_nonneg(self.spec_stripes().subrange(0, s as int));
                }
                let c = stripe[j].entry_count();
                entries = if c > usize::MAX - entries {
                    usize::MAX
                } else {
                    entries + c
                };
                j = j + 1;
            }
            proof {
                assert(sv.subrange(0, sv.len() as int) =~= sv);
            }
            s = s + 1;
        }
        proof {
            assert(self.spec_stripes().subrange(0, NUM_STRIPES as int) =~= self.spec_stripes());
        }
        let total = self.actor_count();
        PoolStats { total_actors: total, total_entries: entries, stripe_sizes: sizes }
    }

    /// Copy out every live user's state, one per user, for snapshotting:
    /// a well-formed, duplicate-free list that mirrors the pool exactly.
    pub fn all_states(&self) -> (r: Vec<UserState>)
        requires
            self.wf(),
        ensures
            snapshot_wf(r@),
            r@.len() == self.spec_total(),
            forall|i: int|
                0 <= i < r@.len() ==> (self.spec_get((#[trigger] r@[i]).spec_user_id()) matches Some(
                    p,
                ) && p@ == r@[i]@ && p.spec_user_id() == r@[i].spec_user_id()
                    && p.spec_last_access() == r@[i].spec_last_access()),
            forall|uid: Seq<char>|
                (#[trigger] self.spec_get(uid)) is Some ==> exists|i: int|
                    0 <= i < r@.len() && (#[trigger] r@[i]).spec_user_id() == uid,
    {
        let mut out: Vec<UserState> = Vec::new();
        let mut s: usize = 0;
        proof {
            assert(self.spec_stripes().subrange(0, 0) =~= Seq::<Seq<UserActor>>::empty());
            assert(collected_inv(*self, 0, out@));
        }
        while s < NUM_STRIPES
            invariant
                s <= NUM_STRIPES,
                self.wf(),
                collected_inv(*self, s as int, out@),
            decreases NUM_STRIPES - s,
        {
            let ghost pre = out@;
            copy_stripe(&self.stripes[s], &mut out);
            proof {
                lemma_all_states_step(*self, s as int, pre, out@);
            }
            s = s + 1;
        }
        proof {
            assert(self.spec_stripes().subrange(0, NUM_STRIPES as int) =~= self.spec_stripes());
            lemma_collected_complete(*self, out@);
        }
        out
    }

    /// The total number of actors; saturates at the machine limit, which
    /// physical pools never reach.
    pub fn actor_count(&self) -> (r: usize)
        requires
            self.wf(),
        ensures
            self.spec_total() <= usize::MAX ==> r == self.spec_total(),
    {
        let mut total: usize = 0;
        let mut s: usize = 0;
        proof {
            assert(self.spec_stripes().subrange(0, 0) =~= Seq::<Seq<UserActor>>::empty());
        }
        while s < NUM_STRIPES
            invariant
                s <= NUM_STRIPES,
                self.wf(),
                sum_lens(self.spec_stripes().subrange(0, s as int)) <= usize::MAX ==> total
                    == sum_lens(self.spec_stripes().subrange(0, s as int)),
                sum_lens(self.spec_stripes().subrange(0, s as int)) > usize::MAX ==> total
                    == usize::MAX,
            decreases NUM_STRIPES - s,
        {
            proof {
                assert(self.spec_stripes().subrange(0, (s + 1) as int).drop_last()
                    =~= self.spec_stripes().subrange(0, s as int));
                assert(self.spec_stripes().subrange(0, (s + 1) as int).last()
                    == self.spec_stripes()[s as int]);
            }
            let len_s: usize = self.stripes[s].len();
            if len_s > usize::MAX - total {
                total = usize::MAX;
            } else {
                total = total + len_s;
            }
            s = s + 1;
        }
        proof {
            assert(self.spec_stripes().subrange(0, NUM_STRIPES as int) =~= self.spec_stripes());
        }
        total
    }
}

proof fn lemma_stripe_entries_nonneg(s: Seq<UserActor>)
    ensures
        stripe_entries(s) >= 0,
    decreases s.len(),
{
    if s.len() > 0 {
        lemma_stripe_entries_nonneg(s.drop_last());
    }
}

proof fn lemma_sum_entries_nonneg(ss: Seq<Seq<UserActor>>)
    ensures
        sum_entries(ss) >= 0,
    decreases ss.len(),
{
    if ss.len() > 0 {
        lemma_sum_entries_nonneg(ss.drop_last());
        lemma_stripe_entries_nonneg(ss.last());
    }
}

proof fn lemma_sum_lens_zero(ss: Seq<Seq<UserActor>>)
    requires
        forall|s: int| 0 <= s < ss.len() ==> (#[trigger] ss[s]).len() == 0,
    ensures
        sum_lens(ss) == 0,
    decreases ss.len(),
{
    if ss.len() > 0 {
        lemma_sum_lens_zero(ss.drop_last());
    }
}

/// A copied state agrees with what the pool returns for its user.
pub open spec fn copy_matches(pool: ActorPool, st: UserState) -> bool {
    pool.spec_get(st.spec_user_id()) matches Some(p) && p@ == st@ && p.spec_user_id()
        == st.spec_user_id() && p.spec_last_access() == st.spec_last_access()
}

/// What holds of the list collected from the first `s` stripes: lengths
/// add up, every user comes from an already-collected stripe and is
/// covered, users are distinct and well-formed, and each copy matches
/// what the pool returns for its user.
pub open spec fn collected_inv(pool: ActorPool, s: int, out: Seq<UserState>) -> bool {
    &&& out.len() == sum_lens(pool.spec_stripes().subrange(0, s))
    &&& forall|i: int|
        0 <= i < out.len() ==> spec_stripe_of((#[trigger] out[i]).spec_user_id()) < s
    &&& forall|uid: Seq<char>|
        spec_stripe_of(uid) < s && (#[trigger] pool.spec_get(uid)) is Some ==> exists|i: int|
            0 <= i < out.len() && (#[trigger] out[i]).spec_user_id() == uid
    &&& forall|a: int, b: int|
        0 <= a < b < out.len() ==> (#[trigger] out[a]).spec_user_id() != (
        #[trigger] out[b]).spec_user_id()
    &&& forall|i: int| 0 <= i < out.len() ==> (#[trigger] out[i]).wf()
    &&& forall|i: int| 0 <= i < out.len() ==> copy_matches(pool, #[trigger] out[i])
}

/// Each copy appended for one stripe matches the actor the pool returns
/// for its user, is well formed, and belongs to this stripe.
#[verifier::rlimit(100)]
#[verifier::spinoff_prover]
proof fn lemma_new_copies_match(pool: ActorPool, s: int, base: int, post: Seq<UserState>)
    requires
        pool.wf(),
        0 <= s < NUM_STRIPES,
        0 <= base,
        post.len() == base + pool.spec_stripes()[s].len(),
        forall|j2: int|
            0 <= j2 < pool.spec_stripes()[s].len() ==> mirrors(
                post[base + j2],
                #[trigger] pool.spec_stripes()[s][j2],
            ),
    ensures
        forall|j2: int|
            0 <= j2 < pool.spec_stripes()[s].len() ==> copy_matches(
                pool,
                #[trigger] post[base + j2],
            ) && post[base + j2].wf() && spec_stripe_of(post[base + j2].spec_user_id()) == s,
{
    let sv = pool.spec_stripes()[s];
    assert forall|j2: int|
        0 <= j2 < sv.len() implies copy_matches(pool, #[trigger] post[base + j2]) && post[
    base + j2].wf() && spec_stripe_of(post[base + j2].spec_user_id()) == s by {
        assert(mirrors(post[base + j2], sv[j2]));
        let uid = sv[j2].state.spec_user_id();
        assert(forall|k: int| 0 <= k < j2 ==> (#[trigger] sv[k]).state.spec_user_id() != uid);
        lemma_stripe_get_at(sv, uid, j2);
    }
}

/// Users stay pairwise distinct when one stripe's copies are appended:
/// earlier entries belong to earlier stripes, and within the stripe the
/// stored ids are already distinct.
#[verifier::rlimit(100)]
#[verifier::spinoff_prover]
proof fn lemma_copies_distinct(pool: ActorPool, s: int, base: int, post: Seq<UserState>)
    requires
        pool.wf(),
        0 <= s < NUM_STRIPES,
        0 <= base,
        post.len() == base + pool.spec_stripes()[s].len(),
        forall|a: int, b: int|
            0 <= a < b < base ==> (#[trigger] post[a]).spec_user_id() != (
            #[trigger] post[b]).spec_user_id(),
        forall|i: int|
            0 <= i < base ==> spec_stripe_of((#[trigger] post[i]).spec_user_id()) < s,
        forall|j2: int|
            0 <= j2 < pool.spec_stripes()[s].len() ==> mirrors(
                post[base + j2],
                #[trigger] pool.spec_stripes()[s][j2],
            ),
    ensures
        forall|a: int, b: int|
            0 <= a < b < post.len() ==> (#[trigger] post[a]).spec_user_id() != (
            #[trigger] post[b]).spec_user_id(),
{
    let sv = pool.spec_stripes()[s];
    assert forall|a: int, b: int|
        0 <= a < b < post.len() implies (#[trigger] post[a]).spec_user_id() != (
    #[trigger] post[b]).spec_user_id() by {
        if b >= base {
            assert(mirrors(post[b], sv[b - base]));
            if a < base {
                assert(spec_stripe_of(post[a].spec_user_id()) < s);
                assert(spec_stripe_of(post[b].spec_user_id()) == s);
            } else {
                assert(mirrors(post[a], sv[a - base]));
                assert(sv[a - base].state.spec_user_id() != sv[b - base].state.spec_user_id());
            }
        }
    }
}

/// Every user from a stripe already collected, or from this stripe, has
/// a copy after the stripe's copies are appended.
#[verifier::rlimit(100)]
#[verifier::spinoff_prover]
proof fn lemma_copies_cover(pool: ActorPool, s: int, pre: Seq<UserState>, post: Seq<UserState>)
    requires
        pool.wf(),
        0 <= s < NUM_STRIPES,
        post.len() == pre.len() + pool.spec_stripes()[s].len(),
        forall|i: int| 0 <= i < pre.len() ==> post[i] == pre[i],
        forall|uid: Seq<char>|
            spec_stripe_of(uid) < s && (#[trigger] pool.spec_get(uid)) is Some ==> exists|i: int|
                0 <= i < pre.len() && (#[trigger] pre[i]).spec_user_id() == uid,
        forall|j2: int|
            0 <= j2 < pool.spec_stripes()[s].len() ==> mirrors(
                post[pre.len() + j2],
                #[trigger] pool.spec_stripes()[s][j2],
            ),
    ensures
        forall|uid: Seq<char>|
            spec_stripe_of(uid) < s + 1 && (#[trigger] pool.spec_get(uid)) is Some ==> exists|
            i: int,
        |
            0 <= i < post.len() && (#[trigger] post[i]).spec_user_id() == uid,
{
    let sv = pool.spec_stripes()[s];
    let base = pre.len() as int;
    assert forall|uid: Seq<char>|
        spec_stripe_of(uid) < s + 1 && (#[trigger] pool.spec_get(uid)) is Some implies exists|
        i: int,
    |
        0 <= i < post.len() && (#[trigger] post[i]).spec_user_id() == uid by {
        if spec_stripe_of(uid) < s {
            let i = choose|i: int|
                0 <= i < pre.len() && (#[trigger] pre[i]).spec_user_id() == uid;
            assert(post[i].spec_user_id() == uid);
        } else {
            assert(spec_stripe_of(uid) == s);
            assert(exists|j2: int|
                0 <= j2 < sv.len() && (#[trigger] sv[j2]).state.spec_user_id() == uid) by {
                if forall|j2: int|
                    0 <= j2 < sv.len() ==> (#[trigger] sv[j2]).state.spec_user_id() != uid {
                    lemma_stripe_get_none(sv, uid);
                    assert(false);
                }
            }
            let j2 = choose|j2: int|
                0 <= j2 < sv.len() && (#[trigger] sv[j2]).state.spec_user_id() == uid;
            assert(mirrors(post[base + j2], sv[j2]));
            assert(post[base + j2].spec_user_id() == uid);
        }
    }
}

/// One stripe's copies extend the collected list while keeping every
/// collected-list invariant.
#[verifier::rlimit(100)]
#[verifier::spinoff_prover]
proof fn lemma_all_states_step(pool: ActorPool, s: int, pre: Seq<UserState>, post: Seq<UserState>)
    requires
        pool.wf(),
        0 <= s < NUM_STRIPES,
        collected_inv(pool, s, pre),
        post.len() == pre.len() + pool.spec_stripes()[s].len(),
        forall|i: int| 0 <= i < pre.len() ==> post[i] == pre[i],
        forall|j2: int|
            0 <= j2 < pool.spec_stripes()[s].len() ==> mirrors(
                post[pre.len() + j2],
                #[trigger] pool.spec_stripes()[s][j2],
            ),
    ensures
        collected_inv(pool, s + 1, post),
{
    let base = pre.len() as int;
    lemma_new_copies_match(pool, s, base, post);
    lemma_copies_distinct(pool, s, base, post);
    lemma_copies_cover(pool, s, pre, post);
    assert(pool.spec_stripes().subrange(0, s + 1).drop_last() =~= pool.spec_stripes().subrange(
        0,
        s,
    ));
    assert(pool.spec_stripes().subrange(0, s + 1).last() == pool.spec_stripes()[s]);
    assert forall|i: int| 0 <= i < post.len() implies copy_matches(pool, #[trigger] post[i])
        && post[i].wf() && spec_stripe_of(post[i].spec_user_id()) < s + 1 by {
        if i < base {
            assert(post[i] == pre[i]);
            assert(copy_matches(pool, pre[i]));
        } else {
            assert(copy_matches(pool, post[base + (i - base)]));
        }
    }
}

/// Once every stripe is collected, the list is a complete, well-formed,
/// duplicate-free image of the pool.
#[verifier::rlimit(100)]
#[verifier::spinoff_prover]
proof fn lemma_collected_complete(pool: ActorPool, out: Seq<UserState>)
    requires
        pool.wf(),
        collected_inv(pool, NUM_STRIPES as int, out),
    ensures
        snapshot_wf(out),
        out.len() == pool.spec_total(),
        forall|i: int|
            0 <= i < out.len() ==> (pool.spec_get((#[trigger] out[i]).spec_user_id()) matches Some(
                p,
            ) && p@ == out[i]@ && p.spec_user_id() == out[i].spec_user_id()
                && p.spec_last_access() == out[i].spec_last_access()),
        forall|uid: Seq<char>|
            (#[trigger] pool.spec_get(uid)) is Some ==> exists|i: int|
                0 <= i < out.len() && (#[trigger] out[i]).spec_user_id() == uid,
{
    assert(pool.spec_stripes().subrange(0, NUM_STRIPES as int) =~= pool.spec_stripes());
    assert forall|i: int|
        0 <= i < out.len() implies (pool.spec_get((#[trigger] out[i]).spec_user_id()) matches Some(
        p,
    ) && p@ == out[i]@ && p.spec_user_id() == out[i].spec_user_id() && p.spec_last_access()
        == out[i].spec_last_access()) by {
        assert(copy_matches(pool, out[i]));
    }
    assert forall|uid: Seq<char>|
        (#[trigger] pool.spec_get(uid)) is Some implies exists|i: int|
            0 <= i < out.len() && (#[trigger] out[i]).spec_user_id() == uid by {
        assert(0 <= spec_stripe_of(uid) < NUM_STRIPES);
    }
}

/// Append a copy of every actor's state in one stripe, in order.
fn copy_stripe(stripe: &Vec<UserActor>, out: &mut Vec<UserState>)
    ensures
        final(out)@.len() == old(out)@.len() + stripe@.len(),
        forall|i: int| 0 <= i < old(out)@.len() ==> final(out)@[i] == old(out)@[i],
        forall|j2: int|
            0 <= j2 < stripe@.len() ==> mirrors(
                final(out)@[old(out)@.len() + j2],
                #[trigger] stripe@[j2],
            ),
{
    let mut j: usize = 0;
    let ghost base = old(out)@.len() as int;
    while j < stripe.len()
        invariant
            j <= stripe@.len(),
            out@.len() == base + j,
            base == old(out)@.len(),
            forall|i: int| 0 <= i < base ==> out@[i] == old(out)@[i],
            forall|j2: int|
                0 <= j2 < j ==> mirrors(out@[base + j2], #[trigger] stripe@[j2]),
        decreases stripe@.len() - j,
    {
        let st = stripe[j].state.clone();
        out.push(st);
        j = j + 1;
    }
}

/// Whether an actor survives eviction at the given time and threshold.
pub open spec fn evict_keep(a: UserActor, now: int, thr: int) -> bool {
    now - a.state.spec_last_access() <= thr * 1000
}

/// The actors of a stripe that survive eviction, in order.
pub open spec fn evict_filter(s: Seq<UserActor>, now: int, thr: int) -> Seq<UserActor>
    decreases s.len(),
{
    if s.len() == 0 {
        Seq::empty()
    } else {
        let rest = evict_filter(s.drop_last(), now, thr);
        if evict_keep(s.last(), now, thr) {
            rest.push(s.last())
        } else {
            rest
        }
    }
}

/// Eviction never grows a stripe.
proof fn lemma_evict_filter_len(s: Seq<UserActor>, now: int, thr: int)
    ensures
        evict_filter(s, now, thr).len() <= s.len(),
    decreases s.len(),
{
    if s.len() > 0 {
        lemma_evict_filter_len(s.drop_last(), now, thr);
    }
}

/// Every survivor was in the stripe.
proof fn lemma_evict_filter_contains(s: Seq<UserActor>, now: int, thr: int)
    ensures
        forall|i: int|
            0 <= i < evict_filter(s, now, thr).len() ==> s.contains(
                #[trigger] evict_filter(s, now, thr)[i],
            ),
    decreases s.len(),
{
    if s.len() > 0 {
        lemma_evict_filter_contains(s.drop_last(), now, thr);
        let f = evict_filter(s, now, thr);
        let fr = evict_filter(s.drop_last(), now, thr);
        assert forall|i: int| 0 <= i < f.len() implies s.contains(#[trigger] f[i]) by {
            if evict_keep(s.last(), now, thr) && i == f.len() - 1 {
                assert(f[i] == s.last());
                assert(s[s.len() - 1] == s.last());
            } else {
                assert(f[i] == fr[i]);
                assert(s.drop_last().contains(fr[i]));
                let k = choose|k: int|
                    0 <= k < s.drop_last().len() && s.drop_last()[k] == fr[i];
                assert(s[k] == fr[i]);
            }
        }
    }
}

/// Eviction keeps user ids pairwise distinct when they were distinct.
proof fn lemma_evict_filter_unique(s: Seq<UserActor>, now: int, thr: int)
    requires
        forall|j: int, k: int|
            0 <= j < k < s.len() ==> (#[trigger] s[j]).state.spec_user_id() != (
            #[trigger] s[k]).state.spec_user_id(),
    ensures
        forall|j: int, k: int|
            0 <= j < k < evict_filter(s, now, thr).len() ==> (#[trigger] evict_filter(
                s,
                now,
                thr,
            )[j]).state.spec_user_id() != (#[trigger] evict_filter(s, now, thr)[k]).state.spec_user_id(),
    decreases s.len(),
{
    if s.len() > 0 {
        assert(forall|j: int, k: int|
            0 <= j < k < s.drop_last().len() ==> (#[trigger] s.drop_last()[j]).state.spec_user_id()
                != (#[trigger] s.drop_last()[k]).state.spec_user_id());
        lemma_evict_filter_unique(s.drop_last(), now, thr);
        lemma_evict_filter_contains(s.drop_last(), now, thr);
        let f = evict_filter(s, now, thr);
        let fr = evict_filter(s.drop_last(), now, thr);
        assert forall|j: int, k: int| 0 <= j < k < f.len() implies (
        #[trigger] f[j]).state.spec_user_id() != (#[trigger] f[k]).state.spec_user_id() by {
            if evict_keep(s.last(), now, thr) && k == f.len() - 1 {
                assert(f[k] == s.last());
                assert(f[j] == fr[j]);
                assert(s.drop_last().contains(fr[j]));
                let m = choose|m: int|
                    0 <= m < s.drop_last().len() && s.drop_last()[m] == fr[j];
                assert(s[m] == fr[j]);
                assert(s[s.len() - 1] == s.last());
                assert(s[m].state.spec_user_id() != s.last().state.spec_user_id());
            } else {
                assert(f[j] == fr[j]);
                assert(f[k] == fr[k]);
            }
        }
    }
}

/// Replacing one stripe changes the total by the length difference.
proof fn lemma_sum_lens_update(ss: Seq<Seq<UserActor>>, i: int, v: Seq<UserActor>)
    requires
        0 <= i < ss.len(),
    ensures
        sum_lens(ss.update(i, v)) == sum_lens(ss) - ss[i].len() + v.len(),
    decreases ss.len(),
{
    if ss.len() > 0 {
        if i == ss.len() - 1 {
            assert(ss.update(i, v).drop_last() =~= ss.drop_last());
            assert(ss.update(i, v).last() == v);
        } else {
            assert(ss.update(i, v).drop_last() =~= ss.drop_last().update(i, v));
            assert(ss.update(i, v).last() == ss.last());
            lemma_sum_lens_update(ss.drop_last(), i, v);
        }
    }
}

} // verus!
