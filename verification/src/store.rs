//! The hash store: one generation of computed or persisted checksums, an
//! ordered mapping from relative path to hash string with unique keys,
//! kept sorted lexicographically by path for deterministic output.

use vstd::prelude::*;
use crate::util::{
    lemma_seq_lt_asym, lemma_seq_lt_connected, lemma_seq_lt_irrefl, lemma_seq_lt_trans, seq_lt,
    str_eq, str_lt,
};

verus! {

/// A record of the store as mathematics: its path and its hash string.
pub type Rec = (Seq<char>, Seq<char>);

/// Strictly ascending by path: sorted, and therefore with unique keys.
pub open spec fn assoc_sorted(s: Seq<Rec>) -> bool {
    forall|i: int, j: int| 0 <= i < j < s.len() ==> seq_lt(#[trigger] s[i].0, #[trigger] s[j].0)
}

/// Whether some record carries the path `k`.
pub open spec fn assoc_contains(s: Seq<Rec>, k: Seq<char>) -> bool {
    exists|i: int| 0 <= i < s.len() && s[i].0 == k
}

/// The hash recorded for path `k`, if any.
pub open spec fn assoc_get(s: Seq<Rec>, k: Seq<char>) -> Option<Seq<char>>
    decreases s.len(),
{
    if s.len() == 0 {
        None
    } else if s[0].0 == k {
        Some(s[0].1)
    } else {
        assoc_get(s.skip(1), k)
    }
}

/// The store with `k` bound to `v`: inserted at its ordered place, or
/// replacing the record that carried `k`.
pub open spec fn assoc_insert(s: Seq<Rec>, k: Seq<char>, v: Seq<char>) -> Seq<Rec>
    decreases s.len(),
{
    if s.len() == 0 {
        seq![(k, v)]
    } else if seq_lt(k, s[0].0) {
        seq![(k, v)] + s
    } else if k == s[0].0 {
        seq![(k, v)] + s.skip(1)
    } else {
        seq![s[0]] + assoc_insert(s.skip(1), k, v)
    }
}

/// The store without the record that carries `k`, if one does.
pub open spec fn assoc_remove(s: Seq<Rec>, k: Seq<char>) -> Seq<Rec>
    decreases s.len(),
{
    if s.len() == 0 {
        s
    } else if s[0].0 == k {
        s.skip(1)
    } else {
        seq![s[0]] + assoc_remove(s.skip(1), k)
    }
}

/// Looking a path up in a record prepended to a store.
pub proof fn lemma_assoc_get_cons(p: Rec, t: Seq<Rec>, k: Seq<char>)
    ensures
        assoc_get(seq![p] + t, k) == if p.0 == k {
            Some(p.1)
        } else {
            assoc_get(t, k)
        },
{
    let s = seq![p] + t;
    assert(s[0] == p);
    assert(s.skip(1) =~= t);
}

/// A path is found exactly when some record carries it.
pub proof fn lemma_assoc_get_contains(s: Seq<Rec>, k: Seq<char>)
    ensures
        assoc_get(s, k) is Some <==> assoc_contains(s, k),
    decreases s.len(),
{
    if s.len() > 0 {
        lemma_assoc_get_contains(s.skip(1), k);
        if s[0].0 == k {
        } else {
            assert(assoc_contains(s, k) ==> assoc_contains(s.skip(1), k)) by {
                if assoc_contains(s, k) {
                    let i = choose|i: int| 0 <= i < s.len() && s[i].0 == k;
                    assert(s.skip(1)[i - 1] == s[i]);
                }
            }
            assert(assoc_contains(s.skip(1), k) ==> assoc_contains(s, k)) by {
                if assoc_contains(s.skip(1), k) {
                    let i = choose|i: int| 0 <= i < s.skip(1).len() && s.skip(1)[i].0 == k;
                    assert(s[i + 1] == s.skip(1)[i]);
                }
            }
        }
    }
}

/// In a sorted store, the first path is at or below every path present.
pub proof fn lemma_assoc_first_min(s: Seq<Rec>, k: Seq<char>)
    requires
        assoc_sorted(s),
        assoc_contains(s, k),
        s.len() > 0,
    ensures
        s[0].0 == k || seq_lt(s[0].0, k),
{
    let i = choose|i: int| 0 <= i < s.len() && s[i].0 == k;
    if i > 0 {
        assert(seq_lt(s[0].0, s[i].0));
    }
}

/// The tail of a sorted store is sorted.
pub proof fn lemma_assoc_sorted_skip(s: Seq<Rec>, n: int)
    requires
        assoc_sorted(s),
        0 <= n <= s.len(),
    ensures
        assoc_sorted(s.skip(n)),
{
    assert forall|i: int, j: int| 0 <= i < j < s.skip(n).len() implies seq_lt(
        #[trigger] s.skip(n)[i].0,
        #[trigger] s.skip(n)[j].0,
    ) by {
        assert(s.skip(n)[i] == s[i + n]);
        assert(s.skip(n)[j] == s[j + n]);
    }
}

/// What insertion leaves at each path: the new hash at the inserted path,
/// everything else untouched.
pub proof fn lemma_assoc_insert_get(s: Seq<Rec>, k: Seq<char>, v: Seq<char>, k2: Seq<char>)
    ensures
        assoc_get(assoc_insert(s, k, v), k2) == if k2 == k {
            Some(v)
        } else {
            assoc_get(s, k2)
        },
    decreases s.len(),
{
    if s.len() == 0 {
        lemma_assoc_get_cons((k, v), Seq::empty(), k2);
        assert(seq![(k, v)] + Seq::<Rec>::empty() =~= seq![(k, v)]);
        if k2 != k {
            assert(assoc_get(s, k2) is None);
        }
    } else if seq_lt(k, s[0].0) {
        lemma_assoc_get_cons((k, v), s, k2);
    } else if k == s[0].0 {
        lemma_assoc_get_cons((k, v), s.skip(1), k2);
        if k2 != k {
            assert(assoc_get(s, k2) == assoc_get(s.skip(1), k2));
        }
    } else {
        lemma_assoc_insert_get(s.skip(1), k, v, k2);
        lemma_assoc_get_cons(s[0], assoc_insert(s.skip(1), k, v), k2);
        if k2 == s[0].0 {
            if k2 == k {
                assert(false);
            }
        }
    }
}

/// Insertion keeps the store sorted.
pub proof fn lemma_assoc_insert_sorted(s: Seq<Rec>, k: Seq<char>, v: Seq<char>)
    requires
        assoc_sorted(s),
    ensures
        assoc_sorted(assoc_insert(s, k, v)),
    decreases s.len(),
{
    let r = assoc_insert(s, k, v);
    if s.len() == 0 {
    } else if seq_lt(k, s[0].0) {
        assert forall|i: int, j: int| 0 <= i < j < r.len() implies seq_lt(
            #[trigger] r[i].0,
            #[trigger] r[j].0,
        ) by {
            if i == 0 {
                assert(r[j] == s[j - 1]);
                if j > 1 {
                    assert(seq_lt(s[0].0, s[j - 1].0));
                    lemma_seq_lt_trans(k, s[0].0, s[j - 1].0);
                }
            } else {
                assert(r[i] == s[i - 1]);
                assert(r[j] == s[j - 1]);
            }
        }
    } else if k == s[0].0 {
        assert forall|i: int, j: int| 0 <= i < j < r.len() implies seq_lt(
            #[trigger] r[i].0,
            #[trigger] r[j].0,
        ) by {
            if i == 0 {
                assert(r[j] == s.skip(1)[j - 1]);
                assert(s.skip(1)[j - 1] == s[j]);
                assert(seq_lt(s[0].0, s[j].0));
            } else {
                assert(r[i] == s[i]);
                assert(r[j] == s[j]);
            }
        }
    } else {
        lemma_seq_lt_connected(k, s[0].0);
        lemma_assoc_sorted_skip(s, 1);
        lemma_assoc_insert_sorted(s.skip(1), k, v);
        let t = assoc_insert(s.skip(1), k, v);
        assert forall|i: int, j: int| 0 <= i < j < r.len() implies seq_lt(
            #[trigger] r[i].0,
            #[trigger] r[j].0,
        ) by {
            if i == 0 {
                assert(r[j] == t[j - 1]);
                // The head of the inserted tail is either `k` or a record
                // of the tail, both above `s[0]`.
                if t[j - 1].0 == k {
                    assert(seq_lt(s[0].0, k));
                } else {
                    lemma_assoc_insert_members(s.skip(1), k, v, j - 1);
                    if assoc_contains(s.skip(1), t[j - 1].0) {
                        let m = choose|m: int|
                            0 <= m < s.skip(1).len() && s.skip(1)[m].0 == t[j - 1].0;
                        assert(s.skip(1)[m] == s[m + 1]);
                        assert(seq_lt(s[0].0, s[m + 1].0));
                    }
                }
            } else {
                assert(r[i] == t[i - 1]);
                assert(r[j] == t[j - 1]);
            }
        }
    }
}

/// Every record of an inserted store is the inserted pair or one of the
/// original records.
pub proof fn lemma_assoc_insert_members(s: Seq<Rec>, k: Seq<char>, v: Seq<char>, i: int)
    requires
        0 <= i < assoc_insert(s, k, v).len(),
    ensures
        assoc_insert(s, k, v)[i] == (k, v) || assoc_contains(s, assoc_insert(s, k, v)[i].0),
    decreases s.len(),
{
    let r = assoc_insert(s, k, v);
    if s.len() == 0 {
    } else if seq_lt(k, s[0].0) {
        if i > 0 {
            assert(r[i] == s[i - 1]);
        }
    } else if k == s[0].0 {
        if i > 0 {
            assert(r[i] == s.skip(1)[i - 1]);
            assert(s.skip(1)[i - 1] == s[i]);
        }
    } else {
        if i == 0 {
            assert(r[0] == s[0]);
        } else {
            let t = assoc_insert(s.skip(1), k, v);
            assert(r[i] == t[i - 1]);
            lemma_assoc_insert_members(s.skip(1), k, v, i - 1);
            if assoc_contains(s.skip(1), t[i - 1].0) {
                let m = choose|m: int| 0 <= m < s.skip(1).len() && s.skip(1)[m].0 == t[i - 1].0;
                assert(s[m + 1] == s.skip(1)[m]);
            }
        }
    }
}

/// A path that heads a sorted store occurs nowhere in its tail.
pub proof fn lemma_assoc_head_not_in_tail(s: Seq<Rec>)
    requires
        assoc_sorted(s),
        s.len() > 0,
    ensures
        !assoc_contains(s.skip(1), s[0].0),
{
    assert forall|i: int| 0 <= i < s.skip(1).len() implies (#[trigger] s.skip(1)[i]).0 != s[0].0 by {
        assert(s.skip(1)[i] == s[i + 1]);
        assert(seq_lt(s[0].0, s[i + 1].0));
        if s[i + 1].0 == s[0].0 {
            lemma_seq_lt_irrefl(s[0].0);
        }
    }
}

/// What removal leaves at each path: nothing at the removed path,
/// everything else untouched.
pub proof fn lemma_assoc_remove_get(s: Seq<Rec>, k: Seq<char>, k2: Seq<char>)
    requires
        assoc_sorted(s),
    ensures
        assoc_get(assoc_remove(s, k), k2) == if k2 == k {
            None::<Seq<char>>
        } else {
            assoc_get(s, k2)
        },
    decreases s.len(),
{
    if s.len() == 0 {
    } else if s[0].0 == k {
        if k2 == k {
            lemma_assoc_head_not_in_tail(s);
            lemma_assoc_get_contains(s.skip(1), k);
        }
    } else {
        lemma_assoc_sorted_skip(s, 1);
        lemma_assoc_remove_get(s.skip(1), k, k2);
        lemma_assoc_get_cons(s[0], assoc_remove(s.skip(1), k), k2);
    }
}

/// Every record that removal keeps was a record of the store.
pub proof fn lemma_assoc_remove_members(s: Seq<Rec>, k: Seq<char>, i: int)
    requires
        0 <= i < assoc_remove(s, k).len(),
    ensures
        assoc_contains(s, assoc_remove(s, k)[i].0),
    decreases s.len(),
{
    let r = assoc_remove(s, k);
    if s.len() == 0 {
    } else if s[0].0 == k {
        assert(r[i] == s[i + 1]);
    } else {
        if i == 0 {
            assert(r[0] == s[0]);
        } else {
            let t = assoc_remove(s.skip(1), k);
            assert(r[i] == t[i - 1]);
            lemma_assoc_remove_members(s.skip(1), k, i - 1);
            let m = choose|m: int| 0 <= m < s.skip(1).len() && s.skip(1)[m].0 == t[i - 1].0;
            assert(s[m + 1] == s.skip(1)[m]);
        }
    }
}

/// Removal keeps the store sorted.
pub proof fn lemma_assoc_remove_sorted(s: Seq<Rec>, k: Seq<char>)
    requires
        assoc_sorted(s),
    ensures
        assoc_sorted(assoc_remove(s, k)),
    decreases s.len(),
{
    let r = assoc_remove(s, k);
    if s.len() == 0 {
    } else if s[0].0 == k {
        lemma_assoc_sorted_skip(s, 1);
    } else {
        lemma_assoc_sorted_skip(s, 1);
        lemma_assoc_remove_sorted(s.skip(1), k);
        let t = assoc_remove(s.skip(1), k);
        assert forall|i: int, j: int| 0 <= i < j < r.len() implies seq_lt(
            #[trigger] r[i].0,
            #[trigger] r[j].0,
        ) by {
            if i == 0 {
                assert(r[j] == t[j - 1]);
                lemma_assoc_remove_members(s.skip(1), k, j - 1);
                let m = choose|m: int| 0 <= m < s.skip(1).len() && s.skip(1)[m].0 == t[j - 1].0;
                assert(s.skip(1)[m] == s[m + 1]);
                assert(seq_lt(s[0].0, s[m + 1].0));
            } else {
                assert(r[i] == t[i - 1]);
                assert(r[j] == t[j - 1]);
            }
        }
    }
}

/// Removing a freshly inserted path restores a store that did not carry
/// it.
pub proof fn lemma_assoc_remove_insert(s: Seq<Rec>, k: Seq<char>, v: Seq<char>)
    requires
        assoc_sorted(s),
        !assoc_contains(s, k),
    ensures
        assoc_remove(assoc_insert(s, k, v), k) == s,
    decreases s.len(),
{
    if s.len() == 0 {
        assert(assoc_insert(s, k, v) == seq![(k, v)]);
        assert(seq![(k, v)].skip(1) =~= s);
    } else if seq_lt(k, s[0].0) {
        assert(assoc_insert(s, k, v) == seq![(k, v)] + s);
        assert((seq![(k, v)] + s)[0] == (k, v));
        assert((seq![(k, v)] + s).skip(1) =~= s);
    } else if k == s[0].0 {
        assert(false);
    } else {
        lemma_assoc_sorted_skip(s, 1);
        assert(!assoc_contains(s.skip(1), k)) by {
            if assoc_contains(s.skip(1), k) {
                let i = choose|i: int| 0 <= i < s.skip(1).len() && s.skip(1)[i].0 == k;
                assert(s[i + 1] == s.skip(1)[i]);
            }
        }
        lemma_assoc_remove_insert(s.skip(1), k, v);
        let t = seq![s[0]] + assoc_insert(s.skip(1), k, v);
        assert(assoc_insert(s, k, v) == t);
        assert(t[0] == s[0]);
        assert(t.skip(1) =~= assoc_insert(s.skip(1), k, v));
        assert(assoc_remove(t, k) == seq![s[0]] + assoc_remove(assoc_insert(s.skip(1), k, v), k));
        assert(seq![s[0]] + s.skip(1) =~= s);
    }
}

/// Where a sorted insertion lands: after the records below the new path,
/// replacing a record of the same path if one stands there.
proof fn lemma_assoc_insert_at(s: Seq<Rec>, k: Seq<char>, v: Seq<char>, i: int)
    requires
        assoc_sorted(s),
        0 <= i <= s.len(),
        forall|j: int| 0 <= j < i ==> seq_lt((#[trigger] s[j]).0, k),
        i < s.len() ==> !seq_lt(s[i].0, k),
    ensures
        assoc_insert(s, k, v) == if i < s.len() && s[i].0 == k {
            s.take(i) + seq![(k, v)] + s.skip(i + 1)
        } else {
            s.take(i) + seq![(k, v)] + s.skip(i)
        },
    decreases i,
{
    if i == 0 {
        if s.len() == 0 {
            assert(assoc_insert(s, k, v) =~= s.take(0) + seq![(k, v)] + s.skip(0));
        } else if s[0].0 == k {
            assert(assoc_insert(s, k, v) == seq![(k, v)] + s.skip(1)) by {
                if seq_lt(k, s[0].0) {
                    lemma_seq_lt_irrefl(k);
                }
            }
            assert(seq![(k, v)] + s.skip(1) =~= s.take(0) + seq![(k, v)] + s.skip(1));
        } else {
            lemma_seq_lt_connected(k, s[0].0);
            assert(seq_lt(k, s[0].0));
            assert(assoc_insert(s, k, v) == seq![(k, v)] + s);
            assert(seq![(k, v)] + s =~= s.take(0) + seq![(k, v)] + s.skip(0));
        }
    } else {
        assert(seq_lt(s[0].0, k));
        lemma_seq_lt_asym(s[0].0, k);
        assert(k != s[0].0 && !seq_lt(k, s[0].0)) by {
            if k == s[0].0 {
                lemma_seq_lt_irrefl(k);
            }
        }
        assert(assoc_insert(s, k, v) == seq![s[0]] + assoc_insert(s.skip(1), k, v));
        lemma_assoc_sorted_skip(s, 1);
        assert forall|j: int| 0 <= j < i - 1 implies seq_lt((#[trigger] s.skip(1)[j]).0, k) by {
            assert(s.skip(1)[j] == s[j + 1]);
        }
        assert(i - 1 < s.skip(1).len() ==> !seq_lt(s.skip(1)[i - 1].0, k)) by {
            if i - 1 < s.skip(1).len() {
                assert(s.skip(1)[i - 1] == s[i]);
            }
        }
        lemma_assoc_insert_at(s.skip(1), k, v, i - 1);
        if i < s.len() && s[i].0 == k {
            assert(s.skip(1)[i - 1] == s[i]);
            assert(assoc_insert(s.skip(1), k, v) == s.skip(1).take(i - 1) + seq![(k, v)] + s.skip(
                1,
            ).skip(i));
            assert(seq![s[0]] + (s.skip(1).take(i - 1) + seq![(k, v)] + s.skip(1).skip(i)) =~= s.take(
                i,
            ) + seq![(k, v)] + s.skip(i + 1));
        } else {
            assert(assoc_insert(s.skip(1), k, v) == s.skip(1).take(i - 1) + seq![(k, v)] + s.skip(
                1,
            ).skip(i - 1));
            assert(seq![s[0]] + (s.skip(1).take(i - 1) + seq![(k, v)] + s.skip(1).skip(i - 1)) =~= s.take(
                i,
            ) + seq![(k, v)] + s.skip(i));
        }
    }
}


/// Inserting a path above every present path appends the record.
pub proof fn lemma_assoc_insert_at_end(s: Seq<Rec>, k: Seq<char>, v: Seq<char>)
    requires
        assoc_sorted(s),
        forall|j: int| 0 <= j < s.len() ==> seq_lt((#[trigger] s[j]).0, k),
    ensures
        assoc_insert(s, k, v) == s.push((k, v)),
{
    lemma_assoc_insert_at(s, k, v, s.len() as int);
    assert(s.take(s.len() as int) =~= s);
    assert(s.skip(s.len() as int) =~= Seq::<Rec>::empty());
    assert(s.take(s.len() as int) + seq![(k, v)] + s.skip(s.len() as int) =~= s.push((k, v)));
}

/// Where removal strikes: at the first record of the path, if any.
proof fn lemma_assoc_remove_at(s: Seq<Rec>, k: Seq<char>, i: int)
    requires
        0 <= i <= s.len(),
        forall|j: int| 0 <= j < i ==> (#[trigger] s[j]).0 != k,
        i < s.len() ==> s[i].0 == k,
    ensures
        assoc_remove(s, k) == if i < s.len() {
            s.take(i) + s.skip(i + 1)
        } else {
            s
        },
    decreases i,
{
    if i == 0 {
        if s.len() == 0 {
        } else {
            assert(assoc_remove(s, k) == s.skip(1));
            assert(s.skip(1) =~= s.take(0) + s.skip(1));
        }
    } else {
        assert(s[0].0 != k);
        assert(assoc_remove(s, k) == seq![s[0]] + assoc_remove(s.skip(1), k));
        assert forall|j: int| 0 <= j < i - 1 implies (#[trigger] s.skip(1)[j]).0 != k by {
            assert(s.skip(1)[j] == s[j + 1]);
        }
        assert(i - 1 < s.skip(1).len() ==> s.skip(1)[i - 1].0 == k) by {
            if i - 1 < s.skip(1).len() {
                assert(s.skip(1)[i - 1] == s[i]);
            }
        }
        lemma_assoc_remove_at(s.skip(1), k, i - 1);
        if i < s.len() {
            assert(seq![s[0]] + (s.skip(1).take(i - 1) + s.skip(1).skip(i)) =~= s.take(i) + s.skip(
                i + 1,
            ));
        } else {
            assert(seq![s[0]] + s.skip(1) =~= s);
        }
    }
}

/// Ordered mapping path -> hash, unique keys, ordered lexicographically
/// by path. Created fresh per run or by parsing a persisted file.
#[derive(Debug)]
pub struct HashStore {
    entries: Vec<(String, String)>,
}

impl View for HashStore {
    type V = Seq<Rec>;

    closed spec fn view(&self) -> Seq<Rec> {
        Seq::new(self.entries@.len(), |i: int| (self.entries@[i].0@, self.entries@[i].1@))
    }
}

impl HashStore {
    /// Sorted strictly by path: the shape every store keeps.
    pub open spec fn wf(&self) -> bool {
        assoc_sorted(self@)
    }

    /// An empty store.
    pub fn new() -> (r: HashStore)
        ensures
            r@ == Seq::<Rec>::empty(),
            r.wf(),
    {
        let r = HashStore { entries: Vec::new() };
        proof {
            assert(r@ =~= Seq::<Rec>::empty());
        }
        r
    }

    /// How many records the store holds.
    pub fn len(&self) -> (r: usize)
        ensures
            r == self@.len(),
    {
        self.entries.len()
    }

    /// Whether the store holds no record.
    pub fn is_empty(&self) -> (r: bool)
        ensures
            r == (self@.len() == 0),
    {
        self.entries.len() == 0
    }

    /// The path of the record at `i`.
    pub fn path_at(&self, i: usize) -> (r: &String)
        requires
            i < self@.len(),
        ensures
            r@ == self@[i as int].0,
    {
        &self.entries[i].0
    }

    /// The hash of the record at `i`.
    pub fn hash_at(&self, i: usize) -> (r: &String)
        requires
            i < self@.len(),
        ensures
            r@ == self@[i as int].1,
    {
        &self.entries[i].1
    }

    /// The hash recorded for a path.
    pub fn get(&self, path: &str) -> (r: Option<&String>)
        ensures
            match assoc_get(self@, path@) {
                Some(v) => r is Some && r->0@ == v,
                None => r is None,
            },
    {
        let n = self.entries.len();
        proof {
            assert(self@.skip(0) =~= self@);
        }
        for i in 0..n
            invariant
                n == self@.len(),
                assoc_get(self@, path@) == assoc_get(self@.skip(i as int), path@),
        {
            proof {
                assert(self@.skip(i as int)[0] == self@[i as int]);
            }
            if str_eq(self.entries[i].0.as_str(), path) {
                return Some(&self.entries[i].1);
            }
            proof {
                assert(self@.skip(i as int).skip(1) =~= self@.skip(i + 1));
            }
        }
        proof {
            assert(self@.skip(n as int).len() == 0);
        }
        None
    }

    /// Bind `path` to `hash`, keeping the order and replacing any record
    /// that carried the path.
    pub fn insert(&mut self, path: String, hash: String)
        requires
            old(self).wf(),
        ensures
            final(self).wf(),
            final(self)@ == assoc_insert(old(self)@, path@, hash@),
    {
        let n = self.entries.len();
        let mut i: usize = 0;
        while i < n
            invariant
                n == self@.len(),
                0 <= i <= n,
                forall|j: int| 0 <= j < i ==> seq_lt((#[trigger] self@[j]).0, path@),
            ensures
                0 <= i <= n,
                n == self@.len(),
                forall|j: int| 0 <= j < i ==> seq_lt((#[trigger] self@[j]).0, path@),
                i < n ==> !seq_lt(self@[i as int].0, path@),
            decreases n - i,
        {
            if !str_lt(self.entries[i].0.as_str(), path.as_str()) {
                break;
            }
            i = i + 1;
        }
        proof {
            lemma_assoc_insert_at(self@, path@, hash@, i as int);
            lemma_assoc_insert_sorted(self@, path@, hash@);
        }
        let ghost s0 = self@;
        if i < n && str_eq(self.entries[i].0.as_str(), path.as_str()) {
            self.entries.remove(i);
            self.entries.insert(i, (path, hash));
            proof {
                assert(self@ =~= s0.take(i as int) + seq![(path@, hash@)] + s0.skip(i + 1));
            }
        } else {
            self.entries.insert(i, (path, hash));
            proof {
                assert(self@ =~= s0.take(i as int) + seq![(path@, hash@)] + s0.skip(i as int));
            }
        }
    }

    /// Drop the record that carries `path`, if one does.
    pub fn remove(&mut self, path: &str)
        requires
            old(self).wf(),
        ensures
            final(self).wf(),
            final(self)@ == assoc_remove(old(self)@, path@),
    {
        let n = self.entries.len();
        let mut i: usize = 0;
        while i < n
            invariant
                n == self@.len(),
                0 <= i <= n,
                forall|j: int| 0 <= j < i ==> (#[trigger] self@[j]).0 != path@,
            ensures
                0 <= i <= n,
                n == self@.len(),
                forall|j: int| 0 <= j < i ==> (#[trigger] self@[j]).0 != path@,
                i < n ==> self@[i as int].0 == path@,
            decreases n - i,
        {
            if str_eq(self.entries[i].0.as_str(), path) {
                break;
            }
            i = i + 1;
        }
        proof {
            lemma_assoc_remove_at(self@, path@, i as int);
            lemma_assoc_remove_sorted(self@, path@);
        }
        let ghost s0 = self@;
        if i < n {
            self.entries.remove(i);
            proof {
                assert(self@ =~= s0.take(i as int) + s0.skip(i + 1));
            }
        }
    }
}

} // verus!
