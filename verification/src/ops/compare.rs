//! The reconciler: classifies two generations of a hash store against
//! each other, key by key, into structural changes and content results,
//! or aborts when the two sides' hash lengths differ.

use vstd::prelude::*;
use crate::store::{
    assoc_contains, assoc_get, assoc_remove, assoc_sorted, HashStore, Rec,
};
use crate::util::{dashes, lemma_str_repeat_dashes, mul_str, seq_lt, str_eq, str_lt};

verus! {

/// A structural change between the two generations.
#[derive(Debug, Clone, Hash, PartialEq, Eq)]
pub enum CompareResult {
    FileAdded(String),
    FileRemoved(String),
    FileIgnored(String),
}

/// A content comparison for a key present in both generations.
#[derive(Debug, Clone, Hash, PartialEq, Eq)]
pub enum CompareFileResult {
    FileMatches(String),
    FileDiffers { file: String, was_hash: String, new_hash: String },
}

/// The one way the reconciler aborts before classifying anything.
#[derive(Debug, Clone, Copy, Hash, PartialEq, Eq, Structural)]
pub enum CompareError {
    HashLengthDiffers { previous_len: usize, current_len: usize },
}

/// A structural change as mathematics.
pub enum SpecCompareResult {
    FileAdded(Seq<char>),
    FileRemoved(Seq<char>),
    FileIgnored(Seq<char>),
}

/// A content comparison as mathematics.
pub enum SpecCompareFileResult {
    FileMatches(Seq<char>),
    FileDiffers { file: Seq<char>, was_hash: Seq<char>, new_hash: Seq<char> },
}

impl View for CompareResult {
    type V = SpecCompareResult;

    open spec fn view(&self) -> SpecCompareResult {
        match self {
            CompareResult::FileAdded(f) => SpecCompareResult::FileAdded(f@),
            CompareResult::FileRemoved(f) => SpecCompareResult::FileRemoved(f@),
            CompareResult::FileIgnored(f) => SpecCompareResult::FileIgnored(f@),
        }
    }
}

impl View for CompareFileResult {
    type V = SpecCompareFileResult;

    open spec fn view(&self) -> SpecCompareFileResult {
        match self {
            CompareFileResult::FileMatches(f) => SpecCompareFileResult::FileMatches(f@),
            CompareFileResult::FileDiffers { file, was_hash, new_hash } => {
                SpecCompareFileResult::FileDiffers {
                    file: file@,
                    was_hash: was_hash@,
                    new_hash: new_hash@,
                }
            },
        }
    }
}

/// The path a structural change concerns.
pub open spec fn scr_path(c: SpecCompareResult) -> Seq<char> {
    match c {
        SpecCompareResult::FileAdded(f) => f,
        SpecCompareResult::FileRemoved(f) => f,
        SpecCompareResult::FileIgnored(f) => f,
    }
}

/// The path a content result concerns.
pub open spec fn scfr_path(c: SpecCompareFileResult) -> Seq<char> {
    match c {
        SpecCompareFileResult::FileMatches(f) => f,
        SpecCompareFileResult::FileDiffers { file, .. } => file,
    }
}

/// The views of a vector of structural changes.
pub open spec fn crs_view(v: Seq<CompareResult>) -> Seq<SpecCompareResult> {
    v.map_values(|c: CompareResult| c@)
}

/// The views of a vector of content results.
pub open spec fn cfrs_view(v: Seq<CompareFileResult>) -> Seq<SpecCompareFileResult> {
    v.map_values(|c: CompareFileResult| c@)
}

/// How one key is classified, from what each side records for it.  A
/// sentinel value on either side makes the key ignored; a key on one
/// side only was added or removed; a key on both sides has its hashes
/// compared.
pub open spec fn spec_classify(
    k: Seq<char>,
    cv: Option<Seq<char>>,
    lv: Option<Seq<char>>,
    sentinel: Seq<char>,
) -> (Seq<SpecCompareResult>, Seq<SpecCompareFileResult>) {
    if (cv matches Some(v) && v == sentinel) || (lv matches Some(v) && v == sentinel) {
        (seq![SpecCompareResult::FileIgnored(k)], Seq::empty())
    } else {
        match (cv, lv) {
            (Some(_), None) => (seq![SpecCompareResult::FileAdded(k)], Seq::empty()),
            (None, Some(_)) => (seq![SpecCompareResult::FileRemoved(k)], Seq::empty()),
            (Some(c), Some(l)) => (
                Seq::empty(),
                seq![
                    if c == l {
                        SpecCompareFileResult::FileMatches(k)
                    } else {
                        SpecCompareFileResult::FileDiffers { file: k, was_hash: l, new_hash: c }
                    },
                ],
            ),
            (None, None) => (Seq::empty(), Seq::empty()),
        }
    }
}

/// The classification of every key of either store, walked in path
/// order: a merge of the two sorted record sequences.
pub open spec fn spec_merge(cur: Seq<Rec>, ld: Seq<Rec>, sentinel: Seq<char>) -> (
    Seq<SpecCompareResult>,
    Seq<SpecCompareFileResult>,
)
    decreases cur.len() + ld.len(),
{
    if cur.len() == 0 && ld.len() == 0 {
        (Seq::empty(), Seq::empty())
    } else if ld.len() == 0 || (cur.len() > 0 && seq_lt(cur[0].0, ld[0].0)) {
        let head = spec_classify(cur[0].0, Some(cur[0].1), None, sentinel);
        let rest = spec_merge(cur.skip(1), ld, sentinel);
        (head.0 + rest.0, head.1 + rest.1)
    } else if cur.len() == 0 || seq_lt(ld[0].0, cur[0].0) {
        let head = spec_classify(ld[0].0, None, Some(ld[0].1), sentinel);
        let rest = spec_merge(cur, ld.skip(1), sentinel);
        (head.0 + rest.0, head.1 + rest.1)
    } else {
        let head = spec_classify(cur[0].0, Some(cur[0].1), Some(ld[0].1), sentinel);
        let rest = spec_merge(cur.skip(1), ld.skip(1), sentinel);
        (head.0 + rest.0, head.1 + rest.1)
    }
}

/// The sampled hash length of a store: that of its first record.
pub open spec fn spec_sample_len(s: Seq<Rec>) -> nat {
    if s.len() > 0 {
        s[0].1.len()
    } else {
        0
    }
}

/// What comparing two stores yields, after the store file's own row is
/// stripped from both: a length mismatch, or the classified outcome.
pub open spec fn spec_compare(cur0: Seq<Rec>, ld0: Seq<Rec>, out_file: Seq<char>) -> Result<
    (Seq<SpecCompareResult>, Seq<SpecCompareFileResult>),
    CompareError,
> {
    let cur = assoc_remove(cur0, out_file);
    let ld = assoc_remove(ld0, out_file);
    if cur.len() > 0 && ld.len() > 0 && spec_sample_len(cur) != spec_sample_len(ld) {
        Err(
            CompareError::HashLengthDiffers {
                previous_len: spec_sample_len(ld) as usize,
                current_len: spec_sample_len(cur) as usize,
            },
        )
    } else {
        let hex_len = if cur.len() > 0 {
            spec_sample_len(cur)
        } else {
            spec_sample_len(ld)
        };
        Ok(spec_merge(cur, ld, dashes(hex_len)))
    }
}

/// Compare two provided hashes.
///
/// The store file's own row is codec metadata and is dropped from both
/// sides first; the sampled hash lengths must then agree; every
/// remaining key is classified as the merge describes, in path order.
pub fn compare_hashes(
    out_file: &String,
    current_hashes: HashStore,
    loaded_hashes: HashStore,
) -> (r: Result<(Vec<CompareResult>, Vec<CompareFileResult>), CompareError>)
    requires
        current_hashes.wf(),
        loaded_hashes.wf(),
    ensures
        match spec_compare(current_hashes@, loaded_hashes@, out_file@) {
            Ok(p) => r matches Ok(t) && crs_view(t.0@) == p.0 && cfrs_view(t.1@) == p.1,
            Err(e) => r == Err::<(Vec<CompareResult>, Vec<CompareFileResult>), CompareError>(e),
        },
{
    let mut current_hashes = current_hashes;
    let mut loaded_hashes = loaded_hashes;
    current_hashes.remove(out_file.as_str());
    loaded_hashes.remove(out_file.as_str());

    let clen = current_hashes.len();
    let llen = loaded_hashes.len();
    let current_sample: usize = if clen > 0 {
        current_hashes.hash_at(0).as_str().unicode_len()
    } else {
        0
    };
    let loaded_sample: usize = if llen > 0 {
        loaded_hashes.hash_at(0).as_str().unicode_len()
    } else {
        0
    };
    if clen > 0 && llen > 0 && current_sample != loaded_sample {
        return Err(
            CompareError::HashLengthDiffers {
                previous_len: loaded_sample,
                current_len: current_sample,
            },
        );
    }
    let hex_len: usize = if clen > 0 {
        current_sample
    } else {
        loaded_sample
    };
    let sentinel = mul_str("-", hex_len);
    proof {
        lemma_str_repeat_dashes(hex_len as nat);
    }

    let ghost cur = current_hashes@;
    let ghost ld = loaded_hashes@;
    let ghost goal = spec_merge(cur, ld, sentinel@);

    let mut results: Vec<CompareResult> = Vec::new();
    let mut file_results: Vec<CompareFileResult> = Vec::new();
    let mut i: usize = 0;
    let mut j: usize = 0;
    proof {
        assert(cur.skip(0) =~= cur);
        assert(ld.skip(0) =~= ld);
        assert(crs_view(Seq::empty()) =~= Seq::<SpecCompareResult>::empty());
        assert(cfrs_view(Seq::empty()) =~= Seq::<SpecCompareFileResult>::empty());
    }
    while i < clen || j < llen
        invariant
            current_hashes.wf(),
            loaded_hashes.wf(),
            cur == current_hashes@,
            ld == loaded_hashes@,
            clen == cur.len(),
            llen == ld.len(),
            0 <= i <= clen,
            0 <= j <= llen,
            goal == spec_merge(cur, ld, sentinel@),
            goal.0 == crs_view(results@) + spec_merge(
                cur.skip(i as int),
                ld.skip(j as int),
                sentinel@,
            ).0,
            goal.1 == cfrs_view(file_results@) + spec_merge(
                cur.skip(i as int),
                ld.skip(j as int),
                sentinel@,
            ).1,
        decreases clen - i + llen - j,
    {
        let ghost cs = cur.skip(i as int);
        let ghost ls = ld.skip(j as int);
        let ghost pres = results@;
        let ghost pfres = file_results@;
        proof {
            if i < clen {
                assert(cs[0] == cur[i as int]);
            }
            if j < llen {
                assert(ls[0] == ld[j as int]);
            }
            if i < clen {
                assert(cs.skip(1) =~= cur.skip(i + 1));
            }
            if j < llen {
                assert(ls.skip(1) =~= ld.skip(j + 1));
            }
        }
        let take_current: bool = if i < clen && j < llen {
            str_lt(current_hashes.path_at(i).as_str(), loaded_hashes.path_at(j).as_str())
        } else {
            j >= llen
        };
        let take_both: bool = i < clen && j < llen && !take_current && !str_lt(
            loaded_hashes.path_at(j).as_str(),
            current_hashes.path_at(i).as_str(),
        );
        let ghost head: (Seq<SpecCompareResult>, Seq<SpecCompareFileResult>) = if take_both {
            spec_classify(cs[0].0, Some(cs[0].1), Some(ls[0].1), sentinel@)
        } else if take_current {
            spec_classify(cs[0].0, Some(cs[0].1), None, sentinel@)
        } else {
            spec_classify(ls[0].0, None, Some(ls[0].1), sentinel@)
        };
        let ghost rest: (Seq<SpecCompareResult>, Seq<SpecCompareFileResult>) = if take_both {
            spec_merge(cs.skip(1), ls.skip(1), sentinel@)
        } else if take_current {
            spec_merge(cs.skip(1), ls, sentinel@)
        } else {
            spec_merge(cs, ls.skip(1), sentinel@)
        };
        proof {
            if take_both {
                if cs[0].0 != ls[0].0 {
                    crate::util::lemma_seq_lt_connected(cs[0].0, ls[0].0);
                }
                assert(cs[0].0 == ls[0].0);
            }
            assert(spec_merge(cs, ls, sentinel@).0 == head.0 + rest.0);
            assert(spec_merge(cs, ls, sentinel@).1 == head.1 + rest.1);
        }
        if take_both {
            let path = current_hashes.path_at(i);
            let chash = current_hashes.hash_at(i);
            let lhash = loaded_hashes.hash_at(j);
            if str_eq(chash.as_str(), sentinel.as_str()) || str_eq(
                lhash.as_str(),
                sentinel.as_str(),
            ) {
                results.push(CompareResult::FileIgnored(path.clone()));
            } else if str_eq(chash.as_str(), lhash.as_str()) {
                file_results.push(CompareFileResult::FileMatches(path.clone()));
            } else {
                file_results.push(
                    CompareFileResult::FileDiffers {
                        file: path.clone(),
                        was_hash: lhash.clone(),
                        new_hash: chash.clone(),
                    },
                );
            }
            i = i + 1;
            j = j + 1;
        } else if take_current {
            let path = current_hashes.path_at(i);
            let chash = current_hashes.hash_at(i);
            if str_eq(chash.as_str(), sentinel.as_str()) {
                results.push(CompareResult::FileIgnored(path.clone()));
            } else {
                results.push(CompareResult::FileAdded(path.clone()));
            }
            i = i + 1;
        } else {
            let path = loaded_hashes.path_at(j);
            let lhash = loaded_hashes.hash_at(j);
            if str_eq(lhash.as_str(), sentinel.as_str()) {
                results.push(CompareResult::FileIgnored(path.clone()));
            } else {
                results.push(CompareResult::FileRemoved(path.clone()));
            }
            j = j + 1;
        }
        proof {
            if results@.len() > pres.len() {
                assert(results@.drop_last() =~= pres);
                assert(crs_view(results@) =~= crs_view(pres) + seq![results@.last()@]);
                assert(head.0 =~= seq![results@.last()@]);
                assert(head.1 =~= Seq::<SpecCompareFileResult>::empty());
                assert(cfrs_view(file_results@) + head.1 =~= cfrs_view(file_results@));
            } else {
                assert(file_results@.drop_last() =~= pfres);
                assert(cfrs_view(file_results@) =~= cfrs_view(pfres) + seq![file_results@.last()@]);
                assert(head.1 =~= seq![file_results@.last()@]);
                assert(head.0 =~= Seq::<SpecCompareResult>::empty());
                assert(crs_view(results@) + head.0 =~= crs_view(results@));
            }
            assert(crs_view(pres) + (head.0 + rest.0) =~= (crs_view(pres) + head.0) + rest.0);
            assert(cfrs_view(pfres) + (head.1 + rest.1) =~= (cfrs_view(pfres) + head.1) + rest.1);
            assert(crs_view(results@) =~= crs_view(pres) + head.0);
            assert(cfrs_view(file_results@) =~= cfrs_view(pfres) + head.1);
        }
    }
    proof {
        assert(cur.skip(clen as int).len() == 0);
        assert(ld.skip(llen as int).len() == 0);
        assert(crs_view(results@) + Seq::<SpecCompareResult>::empty() =~= crs_view(results@));
        assert(cfrs_view(file_results@) + Seq::<SpecCompareFileResult>::empty() =~= cfrs_view(
            file_results@,
        ));
    }
    Ok((results, file_results))
}

/// How many structural entries concern path `k`.
pub open spec fn scr_count(s: Seq<SpecCompareResult>, k: Seq<char>) -> nat
    decreases s.len(),
{
    if s.len() == 0 {
        0
    } else {
        (if scr_path(s[0]) == k {
            1nat
        } else {
            0nat
        }) + scr_count(s.skip(1), k)
    }
}

/// How many content entries concern path `k`.
pub open spec fn scfr_count(s: Seq<SpecCompareFileResult>, k: Seq<char>) -> nat
    decreases s.len(),
{
    if s.len() == 0 {
        0
    } else {
        (if scfr_path(s[0]) == k {
            1nat
        } else {
            0nat
        }) + scfr_count(s.skip(1), k)
    }
}

proof fn lemma_scr_count_concat(x: Seq<SpecCompareResult>, y: Seq<SpecCompareResult>, k: Seq<char>)
    ensures
        scr_count(x + y, k) == scr_count(x, k) + scr_count(y, k),
    decreases x.len(),
{
    if x.len() == 0 {
        assert(x + y =~= y);
    } else {
        assert((x + y)[0] == x[0]);
        assert((x + y).skip(1) =~= x.skip(1) + y);
        lemma_scr_count_concat(x.skip(1), y, k);
    }
}

proof fn lemma_scfr_count_concat(
    x: Seq<SpecCompareFileResult>,
    y: Seq<SpecCompareFileResult>,
    k: Seq<char>,
)
    ensures
        scfr_count(x + y, k) == scfr_count(x, k) + scfr_count(y, k),
    decreases x.len(),
{
    if x.len() == 0 {
        assert(x + y =~= y);
    } else {
        assert((x + y)[0] == x[0]);
        assert((x + y).skip(1) =~= x.skip(1) + y);
        lemma_scfr_count_concat(x.skip(1), y, k);
    }
}

proof fn lemma_scr_count_single(x: SpecCompareResult, k: Seq<char>)
    ensures
        scr_count(seq![x], k) == if scr_path(x) == k {
            1nat
        } else {
            0nat
        },
{
    let s1 = seq![x];
    assert(s1.len() == 1);
    assert(s1[0] == x);
    assert(s1.skip(1) =~= Seq::<SpecCompareResult>::empty());
    assert(scr_count(s1.skip(1), k) == 0);
    assert(scr_count(s1, k) == (if scr_path(x) == k { 1nat } else { 0nat }) + scr_count(s1.skip(1), k));
}

proof fn lemma_scfr_count_single(x: SpecCompareFileResult, k: Seq<char>)
    ensures
        scfr_count(seq![x], k) == if scfr_path(x) == k {
            1nat
        } else {
            0nat
        },
{
    let s1 = seq![x];
    assert(s1.len() == 1);
    assert(s1[0] == x);
    assert(s1.skip(1) =~= Seq::<SpecCompareFileResult>::empty());
    assert(scfr_count(s1.skip(1), k) == 0);
    assert(scfr_count(s1, k) == (if scfr_path(x) == k { 1nat } else { 0nat }) + scfr_count(s1.skip(1), k));
}

/// A path below every key of a sorted store is not in it.
proof fn lemma_not_contains_below(s: Seq<Rec>, k: Seq<char>)
    requires
        assoc_sorted(s),
        s.len() > 0 ==> seq_lt(k, s[0].0),
    ensures
        assoc_get(s, k) is None,
{
    crate::store::lemma_assoc_get_contains(s, k);
    if assoc_contains(s, k) {
        crate::store::lemma_assoc_first_min(s, k);
        if s[0].0 == k {
            crate::util::lemma_seq_lt_irrefl(k);
        } else {
            crate::util::lemma_seq_lt_trans(k, s[0].0, k);
            crate::util::lemma_seq_lt_irrefl(k);
        }
    }
}

/// The head of a sorted store is gone from its tail.
proof fn lemma_get_tail_none(s: Seq<Rec>)
    requires
        assoc_sorted(s),
        s.len() > 0,
    ensures
        assoc_get(s.skip(1), s[0].0) is None,
{
    crate::store::lemma_assoc_head_not_in_tail(s);
    crate::store::lemma_assoc_get_contains(s.skip(1), s[0].0);
}

/// What the merge holds for one path: exactly the classification of what
/// each side records for it, and nothing else.
pub proof fn lemma_merge_key(cur: Seq<Rec>, ld: Seq<Rec>, sentinel: Seq<char>, k: Seq<char>)
    requires
        assoc_sorted(cur),
        assoc_sorted(ld),
    ensures
        ({
            let mr = spec_merge(cur, ld, sentinel);
            let cls = spec_classify(k, assoc_get(cur, k), assoc_get(ld, k), sentinel);
            &&& scr_count(mr.0, k) == cls.0.len()
            &&& scfr_count(mr.1, k) == cls.1.len()
            &&& forall|m: int|
                0 <= m < mr.0.len() && scr_path(#[trigger] mr.0[m]) == k ==> mr.0[m] == cls.0[0]
            &&& forall|m: int|
                0 <= m < mr.1.len() && scfr_path(#[trigger] mr.1[m]) == k ==> mr.1[m] == cls.1[0]
        }),
    decreases cur.len() + ld.len(),
{
    let mr = spec_merge(cur, ld, sentinel);
    let cls = spec_classify(k, assoc_get(cur, k), assoc_get(ld, k), sentinel);
    if cur.len() == 0 && ld.len() == 0 {
    } else if ld.len() == 0 || (cur.len() > 0 && seq_lt(cur[0].0, ld[0].0)) {
        let head = spec_classify(cur[0].0, Some(cur[0].1), None, sentinel);
        let rest = spec_merge(cur.skip(1), ld, sentinel);
        crate::store::lemma_assoc_sorted_skip(cur, 1);
        lemma_merge_key(cur.skip(1), ld, sentinel, k);
        lemma_scr_count_concat(head.0, rest.0, k);
        lemma_scfr_count_concat(head.1, rest.1, k);
        lemma_scr_count_single(head.0[0], k);
        if k == cur[0].0 {
            lemma_get_tail_none(cur);
            if ld.len() > 0 {
                lemma_not_contains_below(ld, k);
            }
            assert(cls == head);
            assert(forall|m: int|
                0 <= m < mr.0.len() && scr_path(#[trigger] mr.0[m]) == k ==> mr.0[m] == cls.0[0])
                by {
                assert forall|m: int|
                    0 <= m < mr.0.len() && scr_path(#[trigger] mr.0[m]) == k implies mr.0[m]
                    == cls.0[0] by {
                    if m == 0 {
                        assert(mr.0[0] == head.0[0]);
                    } else {
                        assert(mr.0[m] == rest.0[m - 1]);
                        let rcls = spec_classify(
                            k,
                            assoc_get(cur.skip(1), k),
                            assoc_get(ld, k),
                            sentinel,
                        );
                        assert(scr_count(rest.0, k) == rcls.0.len());
                        assert(rcls.0.len() == 0);
                        lemma_scr_count_member(rest.0, k, m - 1);
                    }
                }
            }
        } else {
            assert(assoc_get(cur, k) == assoc_get(cur.skip(1), k));
            assert(forall|m: int|
                0 <= m < mr.0.len() && scr_path(#[trigger] mr.0[m]) == k ==> mr.0[m] == cls.0[0])
                by {
                assert forall|m: int|
                    0 <= m < mr.0.len() && scr_path(#[trigger] mr.0[m]) == k implies mr.0[m]
                    == cls.0[0] by {
                    if m == 0 {
                        assert(scr_path(mr.0[0]) == cur[0].0);
                    } else {
                        assert(mr.0[m] == rest.0[m - 1]);
                    }
                }
            }
        }
        assert(forall|m: int|
            0 <= m < mr.1.len() && scfr_path(#[trigger] mr.1[m]) == k ==> mr.1[m] == cls.1[0]) by {
            assert forall|m: int|
                0 <= m < mr.1.len() && scfr_path(#[trigger] mr.1[m]) == k implies mr.1[m]
                == cls.1[0] by {
                assert(head.1.len() == 0);
                assert(mr.1[m] == rest.1[m]);
            }
        }
    } else if cur.len() == 0 || seq_lt(ld[0].0, cur[0].0) {
        let head = spec_classify(ld[0].0, None, Some(ld[0].1), sentinel);
        let rest = spec_merge(cur, ld.skip(1), sentinel);
        crate::store::lemma_assoc_sorted_skip(ld, 1);
        lemma_merge_key(cur, ld.skip(1), sentinel, k);
        lemma_scr_count_concat(head.0, rest.0, k);
        lemma_scfr_count_concat(head.1, rest.1, k);
        lemma_scr_count_single(head.0[0], k);
        if k == ld[0].0 {
            lemma_get_tail_none(ld);
            if cur.len() > 0 {
                lemma_not_contains_below(cur, k);
            }
            assert(cls == head);
            assert(forall|m: int|
                0 <= m < mr.0.len() && scr_path(#[trigger] mr.0[m]) == k ==> mr.0[m] == cls.0[0])
                by {
                assert forall|m: int|
                    0 <= m < mr.0.len() && scr_path(#[trigger] mr.0[m]) == k implies mr.0[m]
                    == cls.0[0] by {
                    if m == 0 {
                        assert(mr.0[0] == head.0[0]);
                    } else {
                        assert(mr.0[m] == rest.0[m - 1]);
                        let rcls = spec_classify(
                            k,
                            assoc_get(cur, k),
                            assoc_get(ld.skip(1), k),
                            sentinel,
                        );
                        assert(scr_count(rest.0, k) == rcls.0.len());
                        assert(rcls.0.len() == 0);
                        lemma_scr_count_member(rest.0, k, m - 1);
                    }
                }
            }
        } else {
            assert(assoc_get(ld, k) == assoc_get(ld.skip(1), k));
            assert(forall|m: int|
                0 <= m < mr.0.len() && scr_path(#[trigger] mr.0[m]) == k ==> mr.0[m] == cls.0[0])
                by {
                assert forall|m: int|
                    0 <= m < mr.0.len() && scr_path(#[trigger] mr.0[m]) == k implies mr.0[m]
                    == cls.0[0] by {
                    if m == 0 {
                        assert(scr_path(mr.0[0]) == ld[0].0);
                    } else {
                        assert(mr.0[m] == rest.0[m - 1]);
                    }
                }
            }
        }
        assert(forall|m: int|
            0 <= m < mr.1.len() && scfr_path(#[trigger] mr.1[m]) == k ==> mr.1[m] == cls.1[0]) by {
            assert forall|m: int|
                0 <= m < mr.1.len() && scfr_path(#[trigger] mr.1[m]) == k implies mr.1[m]
                == cls.1[0] by {
                assert(head.1.len() == 0);
                assert(mr.1[m] == rest.1[m]);
            }
        }
    } else {
        let k0 = cur[0].0;
        if k0 != ld[0].0 {
            crate::util::lemma_seq_lt_connected(k0, ld[0].0);
        }
        assert(k0 == ld[0].0);
        let head = spec_classify(k0, Some(cur[0].1), Some(ld[0].1), sentinel);
        let rest = spec_merge(cur.skip(1), ld.skip(1), sentinel);
        crate::store::lemma_assoc_sorted_skip(cur, 1);
        crate::store::lemma_assoc_sorted_skip(ld, 1);
        lemma_merge_key(cur.skip(1), ld.skip(1), sentinel, k);
        lemma_scr_count_concat(head.0, rest.0, k);
        lemma_scfr_count_concat(head.1, rest.1, k);
        if head.0.len() > 0 {
            lemma_scr_count_single(head.0[0], k);
        } else {
            lemma_scfr_count_single(head.1[0], k);
        }
        if k == k0 {
            lemma_get_tail_none(cur);
            lemma_get_tail_none(ld);
            assert(cls == head);
            let rcls = spec_classify(
                k,
                assoc_get(cur.skip(1), k),
                assoc_get(ld.skip(1), k),
                sentinel,
            );
            assert(rcls.0.len() == 0 && rcls.1.len() == 0);
            assert(forall|m: int|
                0 <= m < mr.0.len() && scr_path(#[trigger] mr.0[m]) == k ==> mr.0[m] == cls.0[0])
                by {
                assert forall|m: int|
                    0 <= m < mr.0.len() && scr_path(#[trigger] mr.0[m]) == k implies mr.0[m]
                    == cls.0[0] by {
                    if m < head.0.len() {
                        assert(mr.0[m] == head.0[0]);
                    } else {
                        assert(mr.0[m] == rest.0[m - head.0.len()]);
                        lemma_scr_count_member(rest.0, k, m - head.0.len());
                    }
                }
            }
            assert(forall|m: int|
                0 <= m < mr.1.len() && scfr_path(#[trigger] mr.1[m]) == k ==> mr.1[m] == cls.1[0])
                by {
                assert forall|m: int|
                    0 <= m < mr.1.len() && scfr_path(#[trigger] mr.1[m]) == k implies mr.1[m]
                    == cls.1[0] by {
                    if m < head.1.len() {
                        assert(mr.1[m] == head.1[0]);
                    } else {
                        assert(mr.1[m] == rest.1[m - head.1.len()]);
                        lemma_scfr_count_member(rest.1, k, m - head.1.len());
                    }
                }
            }
        } else {
            assert(assoc_get(cur, k) == assoc_get(cur.skip(1), k));
            assert(assoc_get(ld, k) == assoc_get(ld.skip(1), k));
            assert(forall|m: int|
                0 <= m < mr.0.len() && scr_path(#[trigger] mr.0[m]) == k ==> mr.0[m] == cls.0[0])
                by {
                assert forall|m: int|
                    0 <= m < mr.0.len() && scr_path(#[trigger] mr.0[m]) == k implies mr.0[m]
                    == cls.0[0] by {
                    if m < head.0.len() {
                        assert(scr_path(mr.0[m]) == k0);
                    } else {
                        assert(mr.0[m] == rest.0[m - head.0.len()]);
                    }
                }
            }
            assert(forall|m: int|
                0 <= m < mr.1.len() && scfr_path(#[trigger] mr.1[m]) == k ==> mr.1[m] == cls.1[0])
                by {
                assert forall|m: int|
                    0 <= m < mr.1.len() && scfr_path(#[trigger] mr.1[m]) == k implies mr.1[m]
                    == cls.1[0] by {
                    if m < head.1.len() {
                        assert(scfr_path(mr.1[m]) == k0);
                    } else {
                        assert(mr.1[m] == rest.1[m - head.1.len()]);
                    }
                }
            }
        }
    }
}

/// A sequence with no entry counted for `k` has no entry whose path is `k`.
proof fn lemma_scr_count_member(s: Seq<SpecCompareResult>, k: Seq<char>, m: int)
    requires
        scr_count(s, k) == 0,
        0 <= m < s.len(),
    ensures
        scr_path(s[m]) != k,
    decreases s.len(),
{
    if m == 0 {
    } else {
        assert(s.skip(1)[m - 1] == s[m]);
        lemma_scr_count_member(s.skip(1), k, m - 1);
    }
}

proof fn lemma_scfr_count_member(s: Seq<SpecCompareFileResult>, k: Seq<char>, m: int)
    requires
        scfr_count(s, k) == 0,
        0 <= m < s.len(),
    ensures
        scfr_path(s[m]) != k,
    decreases s.len(),
{
    if m == 0 {
    } else {
        assert(s.skip(1)[m - 1] == s[m]);
        lemma_scfr_count_member(s.skip(1), k, m - 1);
    }
}


/// The sentinel that a comparison of these two stores measures against:
/// all dashes, as long as the sampled hash length.
pub open spec fn spec_compare_sentinel(cur0: Seq<Rec>, ld0: Seq<Rec>, out_file: Seq<char>) -> Seq<
    char,
> {
    let cur = assoc_remove(cur0, out_file);
    let ld = assoc_remove(ld0, out_file);
    dashes(
        if cur.len() > 0 {
            spec_sample_len(cur)
        } else {
            spec_sample_len(ld)
        },
    )
}

/// Law: when the sampled hash lengths of the two sides differ, the
/// comparison returns exactly that mismatch, with the loaded length
/// first, and produces no classification lists.
pub proof fn lemma_compare_length_mismatch(cur0: Seq<Rec>, ld0: Seq<Rec>, out_file: Seq<char>)
    requires
        assoc_remove(cur0, out_file).len() > 0,
        assoc_remove(ld0, out_file).len() > 0,
        spec_sample_len(assoc_remove(cur0, out_file)) != spec_sample_len(
            assoc_remove(ld0, out_file),
        ),
    ensures
        spec_compare(cur0, ld0, out_file) == Err::<
            (Seq<SpecCompareResult>, Seq<SpecCompareFileResult>),
            CompareError,
        >(
            CompareError::HashLengthDiffers {
                previous_len: spec_sample_len(assoc_remove(ld0, out_file)) as usize,
                current_len: spec_sample_len(assoc_remove(cur0, out_file)) as usize,
            },
        ),
{
}

/// Law: a key carried only by the current store, with a hash that is not
/// the sentinel, yields exactly one `FileAdded` and stands in no other
/// list.
pub proof fn lemma_compare_added_once(
    cur0: Seq<Rec>,
    ld0: Seq<Rec>,
    out_file: Seq<char>,
    k: Seq<char>,
)
    requires
        assoc_sorted(cur0),
        assoc_sorted(ld0),
        spec_compare(cur0, ld0, out_file) is Ok,
        assoc_get(assoc_remove(cur0, out_file), k) is Some,
        assoc_get(assoc_remove(ld0, out_file), k) is None,
        assoc_get(assoc_remove(cur0, out_file), k) != Some(
            spec_compare_sentinel(cur0, ld0, out_file),
        ),
    ensures
        ({
            let mr = spec_compare(cur0, ld0, out_file)->Ok_0;
            &&& scr_count(mr.0, k) == 1
            &&& forall|m: int|
                0 <= m < mr.0.len() && scr_path(#[trigger] mr.0[m]) == k ==> mr.0[m]
                    == SpecCompareResult::FileAdded(k)
            &&& forall|m: int| 0 <= m < mr.1.len() ==> scfr_path(#[trigger] mr.1[m]) != k
        }),
{
    let cur = assoc_remove(cur0, out_file);
    let ld = assoc_remove(ld0, out_file);
    let sent = spec_compare_sentinel(cur0, ld0, out_file);
    crate::store::lemma_assoc_remove_sorted(cur0, out_file);
    crate::store::lemma_assoc_remove_sorted(ld0, out_file);
    lemma_merge_key(cur, ld, sent, k);
    let mr = spec_compare(cur0, ld0, out_file)->Ok_0;
    let cls = spec_classify(k, assoc_get(cur, k), assoc_get(ld, k), sent);
    assert(cls.0 == seq![SpecCompareResult::FileAdded(k)]);
    assert(cls.0[0] == SpecCompareResult::FileAdded(k));
    assert forall|m: int| 0 <= m < mr.1.len() implies scfr_path(#[trigger] mr.1[m]) != k by {
        lemma_scfr_count_member(mr.1, k, m);
    }
}

/// Law: a key whose recorded value is the sentinel on either side is
/// always classified ignored, whatever the other side records, and
/// stands in no other list.
pub proof fn lemma_compare_sentinel_ignored(
    cur0: Seq<Rec>,
    ld0: Seq<Rec>,
    out_file: Seq<char>,
    k: Seq<char>,
)
    requires
        assoc_sorted(cur0),
        assoc_sorted(ld0),
        spec_compare(cur0, ld0, out_file) is Ok,
        assoc_get(assoc_remove(cur0, out_file), k) == Some(
            spec_compare_sentinel(cur0, ld0, out_file),
        ) || assoc_get(assoc_remove(ld0, out_file), k) == Some(
            spec_compare_sentinel(cur0, ld0, out_file),
        ),
    ensures
        ({
            let mr = spec_compare(cur0, ld0, out_file)->Ok_0;
            &&& scr_count(mr.0, k) == 1
            &&& forall|m: int|
                0 <= m < mr.0.len() && scr_path(#[trigger] mr.0[m]) == k ==> mr.0[m]
                    == SpecCompareResult::FileIgnored(k)
            &&& forall|m: int| 0 <= m < mr.1.len() ==> scfr_path(#[trigger] mr.1[m]) != k
        }),
{
    let cur = assoc_remove(cur0, out_file);
    let ld = assoc_remove(ld0, out_file);
    let sent = spec_compare_sentinel(cur0, ld0, out_file);
    crate::store::lemma_assoc_remove_sorted(cur0, out_file);
    crate::store::lemma_assoc_remove_sorted(ld0, out_file);
    lemma_merge_key(cur, ld, sent, k);
    let mr = spec_compare(cur0, ld0, out_file)->Ok_0;
    let cls = spec_classify(k, assoc_get(cur, k), assoc_get(ld, k), sent);
    assert(cls.0 == seq![SpecCompareResult::FileIgnored(k)]);
    assert(cls.0[0] == SpecCompareResult::FileIgnored(k));
    assert forall|m: int| 0 <= m < mr.1.len() implies scfr_path(#[trigger] mr.1[m]) != k by {
        lemma_scfr_count_member(mr.1, k, m);
    }
}

/// Every key of the store as a match, in the store's order.
pub open spec fn all_matches(s: Seq<Rec>) -> Seq<SpecCompareFileResult> {
    s.map_values(|r: Rec| SpecCompareFileResult::FileMatches(r.0))
}

proof fn lemma_merge_self(s: Seq<Rec>, sentinel: Seq<char>)
    requires
        assoc_sorted(s),
        forall|m: int| 0 <= m < s.len() ==> (#[trigger] s[m]).1 != sentinel,
    ensures
        spec_merge(s, s, sentinel) == (Seq::<SpecCompareResult>::empty(), all_matches(s)),
    decreases s.len(),
{
    if s.len() == 0 {
        assert(all_matches(s) =~= Seq::<SpecCompareFileResult>::empty());
    } else {
        let k = s[0].0;
        crate::util::lemma_seq_lt_irrefl(k);
        let head = spec_classify(k, Some(s[0].1), Some(s[0].1), sentinel);
        assert(head.0 =~= Seq::<SpecCompareResult>::empty());
        assert(head.1 =~= seq![SpecCompareFileResult::FileMatches(k)]);
        crate::store::lemma_assoc_sorted_skip(s, 1);
        assert forall|m: int| 0 <= m < s.skip(1).len() implies (#[trigger] s.skip(1)[m]).1
            != sentinel by {
            assert(s.skip(1)[m] == s[m + 1]);
        }
        lemma_merge_self(s.skip(1), sentinel);
        let mr = spec_merge(s, s, sentinel);
        assert(mr.0 =~= Seq::<SpecCompareResult>::empty());
        assert(mr.1 =~= all_matches(s)) by {
            assert(mr.1 == head.1 + all_matches(s.skip(1)));
            assert forall|m: int| 0 <= m < s.len() implies mr.1[m] == all_matches(s)[m] by {
                if m > 0 {
                    assert(all_matches(s.skip(1))[m - 1] == SpecCompareFileResult::FileMatches(
                        s.skip(1)[m - 1].0,
                    ));
                    assert(s.skip(1)[m - 1] == s[m]);
                }
            }
        }
    }
}

/// Law: two stores that agree on every key and value outside the store
/// file's own row, with no sentinel values, compare to empty structural
/// lists and a match for every key.
pub proof fn lemma_compare_identical(cur0: Seq<Rec>, ld0: Seq<Rec>, out_file: Seq<char>)
    requires
        assoc_sorted(cur0),
        assoc_sorted(ld0),
        assoc_remove(cur0, out_file) == assoc_remove(ld0, out_file),
        forall|m: int|
            0 <= m < assoc_remove(cur0, out_file).len() ==> (#[trigger] assoc_remove(
                cur0,
                out_file,
            )[m]).1 != spec_compare_sentinel(cur0, ld0, out_file),
    ensures
        spec_compare(cur0, ld0, out_file) == Ok::<
            (Seq<SpecCompareResult>, Seq<SpecCompareFileResult>),
            CompareError,
        >((Seq::empty(), all_matches(assoc_remove(cur0, out_file)))),
{
    let cur = assoc_remove(cur0, out_file);
    crate::store::lemma_assoc_remove_sorted(cur0, out_file);
    lemma_merge_self(cur, spec_compare_sentinel(cur0, ld0, out_file));
}

/// Strictly ascending structural paths.
pub open spec fn scr_sorted(s: Seq<SpecCompareResult>) -> bool {
    forall|i: int, j: int|
        0 <= i < j < s.len() ==> seq_lt(scr_path(#[trigger] s[i]), scr_path(#[trigger] s[j]))
}

/// Strictly ascending content paths.
pub open spec fn scfr_sorted(s: Seq<SpecCompareFileResult>) -> bool {
    forall|i: int, j: int|
        0 <= i < j < s.len() ==> seq_lt(scfr_path(#[trigger] s[i]), scfr_path(#[trigger] s[j]))
}

/// A path found in the tail of a sorted store lies above its head.
proof fn lemma_below_tail(s: Seq<Rec>, p: Seq<char>)
    requires
        assoc_sorted(s),
        s.len() > 0,
        assoc_contains(s.skip(1), p),
    ensures
        seq_lt(s[0].0, p),
{
    let w = choose|w: int| 0 <= w < s.skip(1).len() && s.skip(1)[w].0 == p;
    assert(s.skip(1)[w] == s[w + 1]);
    assert(seq_lt(s[0].0, s[w + 1].0));
}

/// A path found in a sorted store whose head lies above `h` lies above
/// `h` itself.
proof fn lemma_below_all(s: Seq<Rec>, h: Seq<char>, p: Seq<char>)
    requires
        assoc_sorted(s),
        assoc_contains(s, p),
        s.len() > 0 ==> seq_lt(h, s[0].0),
    ensures
        seq_lt(h, p),
{
    assert(s.len() > 0);
    crate::store::lemma_assoc_first_min(s, p);
    if s[0].0 == p {
    } else {
        crate::util::lemma_seq_lt_trans(h, s[0].0, p);
    }
}

/// Law: both classification lists come out sorted by path, and every
/// path they mention belongs to one of the two sides.
pub proof fn lemma_merge_ordered(cur: Seq<Rec>, ld: Seq<Rec>, sentinel: Seq<char>)
    requires
        assoc_sorted(cur),
        assoc_sorted(ld),
    ensures
        ({
            let mr = spec_merge(cur, ld, sentinel);
            &&& scr_sorted(mr.0)
            &&& scfr_sorted(mr.1)
            &&& forall|m: int|
                0 <= m < mr.0.len() ==> assoc_contains(cur, scr_path(#[trigger] mr.0[m]))
                    || assoc_contains(ld, scr_path(mr.0[m]))
            &&& forall|m: int|
                0 <= m < mr.1.len() ==> assoc_contains(cur, scfr_path(#[trigger] mr.1[m]))
                    || assoc_contains(ld, scfr_path(mr.1[m]))
        }),
    decreases cur.len() + ld.len(),
{
    let mr = spec_merge(cur, ld, sentinel);
    if cur.len() == 0 && ld.len() == 0 {
    } else {
        let first_cur = ld.len() == 0 || (cur.len() > 0 && seq_lt(cur[0].0, ld[0].0));
        let second_ld = !first_cur && (cur.len() == 0 || seq_lt(ld[0].0, cur[0].0));
        let h = if first_cur {
            cur[0].0
        } else {
            ld[0].0
        };
        let rcur = if first_cur || !second_ld {
            cur.skip(1)
        } else {
            cur
        };
        let rld = if first_cur {
            ld
        } else {
            ld.skip(1)
        };
        let rest = spec_merge(rcur, rld, sentinel);
        if !first_cur && !second_ld {
            if cur[0].0 != ld[0].0 {
                crate::util::lemma_seq_lt_connected(cur[0].0, ld[0].0);
            }
            assert(cur[0].0 == ld[0].0);
        }
        if first_cur || !second_ld {
            crate::store::lemma_assoc_sorted_skip(cur, 1);
        }
        if !first_cur {
            crate::store::lemma_assoc_sorted_skip(ld, 1);
        }
        lemma_merge_ordered(rcur, rld, sentinel);

        // The head's path lies below every path the rest mentions, and
        // every path of the rest belongs to a full side.
        assert forall|p: Seq<char>|
            assoc_contains(rcur, p) || assoc_contains(rld, p) implies seq_lt(h, p)
            && (assoc_contains(cur, p) || assoc_contains(ld, p)) by {
            if assoc_contains(rcur, p) {
                if first_cur || !second_ld {
                    lemma_below_tail(cur, p);
                    let w = choose|w: int| 0 <= w < cur.skip(1).len() && cur.skip(1)[w].0 == p;
                    assert(cur[w + 1] == cur.skip(1)[w]);
                    assert(assoc_contains(cur, p));
                } else {
                    lemma_below_all(cur, h, p);
                }
            } else {
                if first_cur {
                    lemma_below_all(ld, h, p);
                } else {
                    lemma_below_tail(ld, p);
                    let w = choose|w: int| 0 <= w < ld.skip(1).len() && ld.skip(1)[w].0 == p;
                    assert(ld[w + 1] == ld.skip(1)[w]);
                    assert(assoc_contains(ld, p));
                }
            }
        }

        let head = if first_cur {
            spec_classify(cur[0].0, Some(cur[0].1), None, sentinel)
        } else if second_ld {
            spec_classify(ld[0].0, None, Some(ld[0].1), sentinel)
        } else {
            spec_classify(cur[0].0, Some(cur[0].1), Some(ld[0].1), sentinel)
        };
        assert(mr.0 == head.0 + rest.0);
        assert(mr.1 == head.1 + rest.1);
        assert(head.0.len() > 0 ==> scr_path(head.0[0]) == h);
        assert(head.1.len() > 0 ==> scfr_path(head.1[0]) == h);
        assert(assoc_contains(cur, h) || assoc_contains(ld, h)) by {
            if first_cur || !second_ld {
                assert(cur[0].0 == h);
            } else {
                assert(ld[0].0 == h);
            }
        }

        assert forall|i: int, j: int| 0 <= i < j < mr.0.len() implies seq_lt(
            scr_path(#[trigger] mr.0[i]),
            scr_path(#[trigger] mr.0[j]),
        ) by {
            if i >= head.0.len() {
                assert(mr.0[i] == rest.0[i - head.0.len()]);
                assert(mr.0[j] == rest.0[j - head.0.len()]);
            } else {
                assert(mr.0[i] == head.0[0]);
                assert(mr.0[j] == rest.0[j - head.0.len()]);
            }
        }
        assert forall|i: int, j: int| 0 <= i < j < mr.1.len() implies seq_lt(
            scfr_path(#[trigger] mr.1[i]),
            scfr_path(#[trigger] mr.1[j]),
        ) by {
            if i >= head.1.len() {
                assert(mr.1[i] == rest.1[i - head.1.len()]);
                assert(mr.1[j] == rest.1[j - head.1.len()]);
            } else {
                assert(mr.1[i] == head.1[0]);
                assert(mr.1[j] == rest.1[j - head.1.len()]);
            }
        }
        assert forall|m: int|
            0 <= m < mr.0.len() implies assoc_contains(cur, scr_path(#[trigger] mr.0[m]))
            || assoc_contains(ld, scr_path(mr.0[m])) by {
            if m >= head.0.len() {
                assert(mr.0[m] == rest.0[m - head.0.len()]);
            } else {
                assert(mr.0[m] == head.0[0]);
            }
        }
        assert forall|m: int|
            0 <= m < mr.1.len() implies assoc_contains(cur, scfr_path(#[trigger] mr.1[m]))
            || assoc_contains(ld, scfr_path(mr.1[m])) by {
            if m >= head.1.len() {
                assert(mr.1[m] == rest.1[m - head.1.len()]);
            } else {
                assert(mr.1[m] == head.1[0]);
            }
        }
    }
}

/// Law: a successful comparison returns both lists sorted by path.
pub proof fn lemma_compare_ordered(cur0: Seq<Rec>, ld0: Seq<Rec>, out_file: Seq<char>)
    requires
        assoc_sorted(cur0),
        assoc_sorted(ld0),
        spec_compare(cur0, ld0, out_file) is Ok,
    ensures
        scr_sorted(spec_compare(cur0, ld0, out_file)->Ok_0.0),
        scfr_sorted(spec_compare(cur0, ld0, out_file)->Ok_0.1),
{
    crate::store::lemma_assoc_remove_sorted(cur0, out_file);
    crate::store::lemma_assoc_remove_sorted(ld0, out_file);
    lemma_merge_ordered(
        assoc_remove(cur0, out_file),
        assoc_remove(ld0, out_file),
        spec_compare_sentinel(cur0, ld0, out_file),
    );
}

} // verus!
