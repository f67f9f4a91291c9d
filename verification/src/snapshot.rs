//! Snapshots: a full materialization of all live user states at a point
//! in time. The snapshot document is written and read at the service
//! edge (to `.tmp` then renamed, so a concurrent reader never observes a
//! partial file); this is the validated in-memory form.

use vstd::prelude::*;
use crate::state::UserState;
use crate::text;

verus! {

use vstd::string::StringExecFns;

/// A complete snapshot of all user states.
#[derive(Debug)]
pub struct Snapshot {
    /// Unique snapshot identifier
    pub id: String,
    /// When the snapshot was created (epoch milliseconds)
    pub created_at_ms: i64,
    /// User states, one per user
    pub states: Vec<UserState>,
}

/// A usable snapshot: every state is well-formed, and no user appears
/// twice.
pub open spec fn snapshot_wf(states: Seq<UserState>) -> bool {
    &&& forall|i: int| 0 <= i < states.len() ==> (#[trigger] states[i]).wf()
    &&& forall|i: int, j: int|
        0 <= i < j < states.len() ==> (#[trigger] states[i]).spec_user_id() != (
        #[trigger] states[j]).spec_user_id()
}

impl Snapshot {
    /// Create a new snapshot with the given states.
    pub fn new(id: String, states: Vec<UserState>, created_at_ms: i64) -> (r: Snapshot)
        ensures
            r.id == id,
            r.created_at_ms == created_at_ms,
            r.states == states,
    {
        Snapshot { id, created_at_ms, states }
    }
}

/// Whether a file name denotes a snapshot document: it starts with
/// `snapshot_` and ends with `.json`.
pub open spec fn spec_is_snapshot_name(name: Seq<char>) -> bool {
    &&& name.len() >= 14
    &&& name.subrange(0, 9) == "snapshot_"@
    &&& name.subrange(name.len() - 5, name.len() as int) == ".json"@
}

/// Check whether a file name denotes a snapshot document.
pub fn is_snapshot_name(name: &str) -> (r: bool)
    ensures
        r == spec_is_snapshot_name(name@),
{
    proof {
        reveal_strlit("snapshot_");
        reveal_strlit(".json");
    }
    let chars = text::str_chars(name);
    let prefix = text::str_chars("snapshot_");
    let suffix = text::str_chars(".json");
    let n = chars.len();
    if n < 14 {
        return false;
    }
    let mut k: usize = 0;
    while k < 9
        invariant
            k <= 9,
            n >= 14,
            n == name@.len(),
            chars@ == name@,
            prefix@ == "snapshot_"@,
            prefix@.len() == 9,
            forall|j: int| 0 <= j < k ==> name@[j] == "snapshot_"@[j],
        decreases 9 - k,
    {
        if chars[k] != prefix[k] {
            proof {
                if name@.subrange(0, 9) == "snapshot_"@ {
                    assert(name@.subrange(0, 9)[k as int] == name@[k as int]);
                }
            }
            return false;
        }
        k = k + 1;
    }
    let mut m: usize = 0;
    while m < 5
        invariant
            m <= 5,
            n >= 14,
            n == name@.len(),
            chars@ == name@,
            suffix@ == ".json"@,
            suffix@.len() == 5,
            forall|j: int| 0 <= j < m ==> name@[n - 5 + j] == ".json"@[j],
        decreases 5 - m,
    {
        if chars[n - 5 + m] != suffix[m] {
            proof {
                if name@.subrange(name@.len() - 5, name@.len() as int) == ".json"@ {
                    assert(name@.subrange(name@.len() - 5, name@.len() as int)[m as int]
                        == name@[n - 5 + m]);
                }
            }
            return false;
        }
        m = m + 1;
    }
    proof {
        assert(name@.subrange(0, 9) =~= "snapshot_"@);
        assert(name@.subrange(name@.len() - 5, name@.len() as int) =~= ".json"@);
    }
    true
}

/// The directory entries that are snapshot documents, in input order.
/// An entry is a file name with its modification time.
pub open spec fn snapshot_entries(files: Seq<(String, i64)>) -> Seq<(String, i64)>
    decreases files.len(),
{
    if files.len() == 0 {
        Seq::empty()
    } else {
        let rest = snapshot_entries(files.drop_last());
        if spec_is_snapshot_name(files.last().0@) {
            rest.push(files.last())
        } else {
            rest
        }
    }
}

/// Newest first: modification times never increase along the list.
pub open spec fn mtime_sorted_desc(s: Seq<(String, i64)>) -> bool {
    forall|i: int, j: int| 0 <= i < j < s.len() ==> (#[trigger] s[i]).1 >= (#[trigger] s[j]).1
}

/// Select the snapshot documents among directory entries and order them
/// newest first by modification time: exactly the matching entries, as a
/// multiset, in sorted order. The head, if any, is the latest snapshot;
/// cleanup deletes everything past a kept prefix.
pub fn select_snapshots(files: &Vec<(String, i64)>) -> (r: Vec<(String, i64)>)
    ensures
        r@.to_multiset() == snapshot_entries(files@).to_multiset(),
        mtime_sorted_desc(r@),
        forall|i: int| 0 <= i < r@.len() ==> spec_is_snapshot_name((#[trigger] r@[i]).0@),
{
    let mut picked: Vec<(String, i64)> = Vec::new();
    let mut i: usize = 0;
    proof {
        assert(files@.subrange(0, 0) =~= Seq::<(String, i64)>::empty());
        assert(picked@ =~= snapshot_entries(files@.subrange(0, 0)));
    }
    while i < files.len()
        invariant
            i <= files@.len(),
            picked@ == snapshot_entries(files@.subrange(0, i as int)),
        decreases files@.len() - i,
    {
        proof {
            assert(files@.subrange(0, (i + 1) as int).drop_last() =~= files@.subrange(
                0,
                i as int,
            ));
            assert(files@.subrange(0, (i + 1) as int).last() == files@[i as int]);
        }
        let name = files[i].0.clone();
        let mtime = files[i].1;
        if is_snapshot_name(name.as_str()) {
            picked.push((name, mtime));
            proof {
                assert(picked@ =~= snapshot_entries(files@.subrange(0, (i + 1) as int)));
            }
        }
        i = i + 1;
    }
    proof {
        assert(files@.subrange(0, files@.len() as int) =~= files@);
        lemma_snapshot_entries_match(files@);
    }
    let ghost all = snapshot_entries(files@);
    let mut rest = picked;
    let mut out: Vec<(String, i64)> = Vec::new();
    proof {
        broadcast use vstd::seq_lib::group_to_multiset_ensures;

        assert(out@.to_multiset().add(rest@.to_multiset()) =~= all.to_multiset());
    }
    while rest.len() > 0
        invariant
            out@.to_multiset().add(rest@.to_multiset()) == all.to_multiset(),
            mtime_sorted_desc(out@),
            forall|a: int, b: int|
                0 <= a < out@.len() && 0 <= b < rest@.len() ==> (#[trigger] out@[a]).1 >= (
                #[trigger] rest@[b]).1,
            forall|a: int| 0 <= a < out@.len() ==> spec_is_snapshot_name((#[trigger] out@[a]).0@),
            forall|b: int|
                0 <= b < rest@.len() ==> spec_is_snapshot_name((#[trigger] rest@[b]).0@),
        decreases rest@.len(),
    {
        let mut best: usize = 0;
        let mut j: usize = 1;
        while j < rest.len()
            invariant
                best < j <= rest@.len() || (best == 0 && j <= rest@.len()),
                best < rest@.len(),
                rest@.len() > 0,
                forall|k: int| 0 <= k < j ==> (#[trigger] rest@[k]).1 <= rest@[best as int].1,
            decreases rest@.len() - j,
        {
            if rest[j].1 > rest[best].1 {
                best = j;
            }
            j = j + 1;
        }
        let ghost pre = rest@;
        let item = rest.remove(best);
        proof {
            broadcast use vstd::seq_lib::group_to_multiset_ensures;

            assert(rest@.to_multiset() =~= pre.to_multiset().remove(item));
            assert(pre.to_multiset().count(item) > 0) by {
                assert(pre[best as int] == item);
                assert(pre.contains(item));
            }
        }
        out.push(item);
        proof {
            broadcast use vstd::seq_lib::group_to_multiset_ensures;

            assert(out@.to_multiset().add(rest@.to_multiset()) =~= all.to_multiset());
            assert(forall|b: int|
                0 <= b < rest@.len() ==> (#[trigger] rest@[b]).1 <= item.1);
        }
    }
    out
}

/// Every selected entry's name matches.
proof fn lemma_snapshot_entries_match(files: Seq<(String, i64)>)
    ensures
        forall|i: int|
            0 <= i < snapshot_entries(files).len() ==> spec_is_snapshot_name(
                (#[trigger] snapshot_entries(files)[i]).0@,
            ),
    decreases files.len(),
{
    if files.len() > 0 {
        lemma_snapshot_entries_match(files.drop_last());
        let f = snapshot_entries(files);
        let fr = snapshot_entries(files.drop_last());
        assert forall|i: int|
            0 <= i < f.len() implies spec_is_snapshot_name((#[trigger] f[i]).0@) by {
            if spec_is_snapshot_name(files.last().0@) && i == f.len() - 1 {
            } else {
                assert(f[i] == fr[i]);
            }
        }
    }
}

} // verus!
