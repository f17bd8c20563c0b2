//! The decisions of the directory walk that fills a store: what to do
//! with each entry under the depth, symlink and ignore policy, how the
//! depth setting bounds the walk, and how the collected results are
//! assembled into a hash store.

use vstd::prelude::*;
use crate::options::DepthSetting;
use crate::store::{assoc_get, assoc_insert, assoc_sorted, HashStore, Rec};
use crate::util::{dashes, lemma_str_repeat_dashes, mul_str, str_eq};

verus! {

/// What the walk does with one entry.
#[derive(Debug, Clone, Copy, PartialEq, Eq, Structural)]
pub enum WalkAction {
    /// A regular file to hash: one task is submitted for it.
    HashFile,
    /// A regular file whose bare name is ignored: it is not hashed, but
    /// recorded with the sentinel value.
    MarkIgnored,
    /// A directory whose bare name is ignored: its whole subtree is
    /// skipped, leaving no records at all.
    SkipSubtree,
    /// Anything else: the walk goes on.
    Descend,
}

/// Whether a bare name stands in the ignore list.
pub open spec fn spec_name_ignored(ignored: Seq<String>, name: Seq<char>) -> bool {
    exists|i: int| 0 <= i < ignored.len() && ignored[i]@ == name
}

/// The walk's decision for one entry, as the policy states it.
pub open spec fn spec_plan_entry(
    name: Seq<char>,
    is_file: bool,
    is_dir: bool,
    ignored: Seq<String>,
) -> WalkAction {
    if is_file {
        if spec_name_ignored(ignored, name) {
            WalkAction::MarkIgnored
        } else {
            WalkAction::HashFile
        }
    } else if is_dir && spec_name_ignored(ignored, name) {
        WalkAction::SkipSubtree
    } else {
        WalkAction::Descend
    }
}

/// Decide what the walk does with one entry: a file is hashed unless its
/// bare name is ignored, in which case it only gets the sentinel; an
/// ignored directory's subtree is skipped whole.
pub fn plan_entry(file_name: &str, is_file: bool, is_dir: bool, ignored_files: &Vec<String>) -> (r:
    WalkAction)
    ensures
        r == spec_plan_entry(file_name@, is_file, is_dir, ignored_files@),
{
    let mut found = false;
    let n = ignored_files.len();
    for i in 0..n
        invariant
            n == ignored_files@.len(),
            found == exists|j: int| 0 <= j < i && ignored_files@[j]@ == file_name@,
    {
        if str_eq(ignored_files[i].as_str(), file_name) {
            found = true;
        }
    }
    proof {
        assert(found == spec_name_ignored(ignored_files@, file_name@));
    }
    if is_file {
        if found {
            WalkAction::MarkIgnored
        } else {
            WalkAction::HashFile
        }
    } else if is_dir && found {
        WalkAction::SkipSubtree
    } else {
        WalkAction::Descend
    }
}

/// The bound handed to the walker for a depth setting: none when the
/// recursion is unbounded, else one more level than the budget names,
/// since the walker counts the root itself as a level.
pub fn walk_max_depth(depth: DepthSetting) -> (r: Option<usize>)
    requires
        depth matches DepthSetting::NRemaining(n) ==> n < usize::MAX as u64,
    ensures
        depth is Infinite ==> r is None,
        depth is LastLevel ==> r == Some(1usize),
        depth matches DepthSetting::NRemaining(n) ==> r == Some((n + 1) as usize),
{
    match depth {
        DepthSetting::Infinite => None,
        DepthSetting::LastLevel => Some(1),
        DepthSetting::NRemaining(n) => Some(n as usize + 1),
    }
}

/// Records folded into a store, one after the other.
pub open spec fn insert_all(s: Seq<Rec>, items: Seq<Rec>) -> Seq<Rec>
    decreases items.len(),
{
    if items.len() == 0 {
        s
    } else {
        insert_all(assoc_insert(s, items[0].0, items[0].1), items.skip(1))
    }
}

/// The views of collected path/hash pairs.
pub open spec fn pairs_view(v: Seq<(String, String)>) -> Seq<Rec> {
    v.map_values(|p: (String, String)| (p.0@, p.1@))
}

/// The views of collected ignored paths, each with the sentinel value.
pub open spec fn ignored_view(v: Seq<String>, hex_len: nat) -> Seq<Rec> {
    v.map_values(|p: String| (p@, dashes(hex_len)))
}

/// Assemble the walk's results into a store: every hashed file with its
/// hash, every ignored file with the sentinel of the given length.
pub fn assemble_hashes(hashed: Vec<(String, String)>, ignored: Vec<String>, hex_len: usize) -> (r:
    HashStore)
    ensures
        r.wf(),
        r@ == insert_all(
            insert_all(Seq::empty(), pairs_view(hashed@)),
            ignored_view(ignored@, hex_len as nat),
        ),
{
    let mut store = HashStore::new();
    let hn = hashed.len();
    let ghost hp = pairs_view(hashed@);
    proof {
        assert(hp.skip(0) =~= hp);
    }
    let mut hashed = hashed;
    let mut idx: usize = 0;
    while idx < hn
        invariant
            hn == hashed@.len(),
            hp == pairs_view(hashed@),
            0 <= idx <= hn,
            store.wf(),
            insert_all(store@, hp.skip(idx as int)) == insert_all(Seq::empty(), hp),
        decreases hn - idx,
    {
        let pair = &hashed[idx];
        let path = pair.0.clone();
        let hash = pair.1.clone();
        proof {
            assert(hp.skip(idx as int)[0] == hp[idx as int]);
            assert(hp.skip(idx as int).skip(1) =~= hp.skip(idx + 1));
            assert(hp[idx as int] == (hashed@[idx as int].0@, hashed@[idx as int].1@));
        }
        store.insert(path, hash);
        idx = idx + 1;
    }
    proof {
        assert(hp.skip(hn as int).len() == 0);
    }
    let sent = mul_str("-", hex_len);
    proof {
        lemma_str_repeat_dashes(hex_len as nat);
    }
    let gn = ignored.len();
    let ghost gp = ignored_view(ignored@, hex_len as nat);
    proof {
        assert(gp.skip(0) =~= gp);
    }
    let mut idx2: usize = 0;
    while idx2 < gn
        invariant
            gn == ignored@.len(),
            gp == ignored_view(ignored@, hex_len as nat),
            0 <= idx2 <= gn,
            store.wf(),
            sent@ == dashes(hex_len as nat),
            insert_all(store@, gp.skip(idx2 as int)) == insert_all(
                insert_all(Seq::empty(), hp),
                gp,
            ),
        decreases gn - idx2,
    {
        let path = ignored[idx2].clone();
        proof {
            assert(gp.skip(idx2 as int)[0] == gp[idx2 as int]);
            assert(gp.skip(idx2 as int).skip(1) =~= gp.skip(idx2 + 1));
            assert(gp[idx2 as int] == (ignored@[idx2 as int]@, dashes(hex_len as nat)));
        }
        store.insert(path, sent.clone());
        idx2 = idx2 + 1;
    }
    proof {
        assert(gp.skip(gn as int).len() == 0);
    }
    store
}


/// The value of the last record carrying `k`, walking the items in
/// order.
pub open spec fn last_value_of(items: Seq<Rec>, k: Seq<char>) -> Option<Seq<char>>
    decreases items.len(),
{
    if items.len() == 0 {
        None
    } else if items.last().0 == k {
        Some(items.last().1)
    } else {
        last_value_of(items.drop_last(), k)
    }
}

proof fn lemma_last_value_cons(items: Seq<Rec>, k: Seq<char>)
    requires
        items.len() > 0,
    ensures
        last_value_of(items, k) == if last_value_of(items.skip(1), k) is Some {
            last_value_of(items.skip(1), k)
        } else if items[0].0 == k {
            Some(items[0].1)
        } else {
            None::<Seq<char>>
        },
    decreases items.len(),
{
    if items.len() == 1 {
        assert(items.skip(1).len() == 0);
        assert(items.last() == items[0]);
    } else {
        assert(items.skip(1).last() == items.last());
        assert(items.skip(1).drop_last() =~= items.drop_last().skip(1));
        lemma_last_value_cons(items.drop_last(), k);
        assert(items.drop_last()[0] == items[0]);
    }
}

/// What a fold of insertions records for each path: the last inserted
/// value for that path, or whatever the starting store held.
pub proof fn lemma_insert_all_get(s: Seq<Rec>, items: Seq<Rec>, k: Seq<char>)
    requires
        assoc_sorted(s),
    ensures
        assoc_sorted(insert_all(s, items)),
        assoc_get(insert_all(s, items), k) == match last_value_of(items, k) {
            Some(v) => Some(v),
            None => assoc_get(s, k),
        },
    decreases items.len(),
{
    if items.len() == 0 {
    } else {
        crate::store::lemma_assoc_insert_sorted(s, items[0].0, items[0].1);
        lemma_insert_all_get(assoc_insert(s, items[0].0, items[0].1), items.skip(1), k);
        crate::store::lemma_assoc_insert_get(s, items[0].0, items[0].1, k);
        lemma_last_value_cons(items, k);
    }
}

/// In the ignored items every value is the sentinel.
proof fn lemma_ignored_last_value(ignored: Seq<String>, hex_len: nat, k: Seq<char>)
    requires
        exists|i: int| 0 <= i < ignored.len() && ignored[i]@ == k,
    ensures
        last_value_of(ignored_view(ignored, hex_len), k) == Some(dashes(hex_len)),
    decreases ignored.len(),
{
    let items = ignored_view(ignored, hex_len);
    assert(items.len() == ignored.len());
    if ignored.last()@ == k {
        assert(items.last() == (ignored.last()@, dashes(hex_len)));
    } else {
        let i = choose|i: int| 0 <= i < ignored.len() && ignored[i]@ == k;
        assert(i < ignored.len() - 1);
        assert(ignored.drop_last()[i] == ignored[i]);
        lemma_ignored_last_value(ignored.drop_last(), hex_len, k);
        assert(items.drop_last() =~= ignored_view(ignored.drop_last(), hex_len));
        assert(items.last().0 == ignored.last()@);
    }
}

/// Law: creating with an ignore list stores every ignored file under the
/// sentinel of the active algorithm's hex length, whatever was hashed.
pub proof fn lemma_assemble_ignored_sentinel(
    hashed: Seq<(String, String)>,
    ignored: Seq<String>,
    hex_len: nat,
    k: Seq<char>,
)
    requires
        exists|i: int| 0 <= i < ignored.len() && ignored[i]@ == k,
    ensures
        assoc_get(
            insert_all(
                insert_all(Seq::empty(), pairs_view(hashed)),
                ignored_view(ignored, hex_len),
            ),
            k,
        ) == Some(dashes(hex_len)),
{
    let base = insert_all(Seq::empty(), pairs_view(hashed));
    assert(assoc_sorted(Seq::<Rec>::empty()));
    lemma_insert_all_get(Seq::empty(), pairs_view(hashed), k);
    lemma_insert_all_get(base, ignored_view(ignored, hex_len), k);
    lemma_ignored_last_value(ignored, hex_len, k);
}

} // verus!
