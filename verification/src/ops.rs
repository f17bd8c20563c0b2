//! Main functions doing actual work: the hash-store codec — the
//! persisted two-column format, its parser and its serializer — and, in
//! the submodules, the reconciler and the rendering of its outcome.
//!
//! Use `write_hashes` to serialise a store, `read_hashes` to parse one
//! back, `compare_hashes` to reconcile two of them, and
//! `write_hash_comparison_results` to render the outcome.

pub mod compare;
pub mod create;
pub mod write;

pub use compare::{compare_hashes, CompareError, CompareFileResult, CompareResult};
pub use create::{assemble_hashes, plan_entry, walk_max_depth, WalkAction};
pub use write::{
    write_compare_result, write_file_result_diff, write_file_result_match,
    write_hash_comparison_results, write_result,
};

use vstd::prelude::*;
use crate::algorithms::Algorithm;
use crate::store::{assoc_insert, assoc_sorted, HashStore, Rec};
use crate::util::{
    chars_of, dashes, lemma_str_repeat_dashes, lemma_str_repeat_spaces, mul_str, seq_lt, spaces,
    string_from_range,
};

verus! {

/// A white-space character, as the line pattern understands it: the
/// Unicode white-space set.
pub open spec fn is_ws(c: char) -> bool {
    ||| c == '\t'
    ||| c == '\n'
    ||| c == '\u{B}'
    ||| c == '\u{C}'
    ||| c == '\r'
    ||| c == ' '
    ||| c == '\u{85}'
    ||| c == '\u{A0}'
    ||| c == '\u{1680}'
    ||| (0x2000 <= c as int && c as int <= 0x200A)
    ||| c == '\u{2028}'
    ||| c == '\u{2029}'
    ||| c == '\u{202F}'
    ||| c == '\u{205F}'
    ||| c == '\u{3000}'
}

/// A character the hash column accepts: a hex digit or a dash.
pub open spec fn is_hash_char(c: char) -> bool {
    ||| ('0' <= c && c <= '9')
    ||| ('a' <= c && c <= 'f')
    ||| ('A' <= c && c <= 'F')
    ||| c == '-'
}

fn ws_char(c: char) -> (r: bool)
    ensures
        r == is_ws(c),
{
    let u = c as u32;
    u == 0x9 || u == 0xA || u == 0xB || u == 0xC || u == 0xD || u == 0x20 || u == 0x85
        || u == 0xA0 || u == 0x1680 || (0x2000 <= u && u <= 0x200A) || u == 0x2028 || u == 0x2029
        || u == 0x202F || u == 0x205F || u == 0x3000
}

fn hash_char(c: char) -> (r: bool)
    ensures
        r == is_hash_char(c),
{
    ('0' <= c && c <= '9') || ('a' <= c && c <= 'f') || ('A' <= c && c <= 'F') || c == '-'
}

/// How many hash-column characters end the line.
pub open spec fn suffix_hash_len(line: Seq<char>) -> nat
    decreases line.len(),
{
    if line.len() == 0 || !is_hash_char(line.last()) {
        0
    } else {
        1 + suffix_hash_len(line.drop_last())
    }
}

/// How many white-space characters stand immediately before position `j`.
pub open spec fn ws_run_len(line: Seq<char>, j: int) -> nat
    decreases j,
{
    if j <= 0 || j > line.len() || !is_ws(line[j - 1]) {
        0
    } else {
        1 + ws_run_len(line, j - 1)
    }
}

/// Whether a line fits the record pattern: a path, at least two
/// white-space characters, then a non-empty hash column at the very end.
pub open spec fn line_matches(line: Seq<char>) -> bool {
    let h = suffix_hash_len(line);
    let j = line.len() - h;
    let w = ws_run_len(line, j);
    h >= 1 && w >= 2 && j >= 3
}

/// The path a matching line carries: everything before the separating
/// white space, except that the path never ends up empty.
pub open spec fn line_path(line: Seq<char>) -> Seq<char> {
    let h = suffix_hash_len(line);
    let j = line.len() - h;
    let w = ws_run_len(line, j);
    line.take(if j - w > 1 {
        j - w
    } else {
        1
    })
}

/// The hash a matching line carries: its trailing hash-column run.
pub open spec fn line_hash(line: Seq<char>) -> Seq<char> {
    line.skip(line.len() - suffix_hash_len(line))
}

/// Where the first line ends: the index of the first newline, or the
/// text's length.
pub open spec fn first_nl(t: Seq<char>) -> int
    decreases t.len(),
{
    if t.len() == 0 {
        0
    } else if t[0] == '\n' {
        0
    } else {
        1 + first_nl(t.skip(1))
    }
}

/// A line with any trailing carriage return removed.
pub open spec fn strip_cr(s: Seq<char>) -> Seq<char> {
    if s.len() > 0 && s.last() == '\r' {
        s.drop_last()
    } else {
        s
    }
}

/// The lines of a text: split at each newline, with a final line even
/// without a terminator, and no phantom line after a final newline.
pub open spec fn split_lines(t: Seq<char>) -> Seq<Seq<char>>
    decreases t.len(),
    via split_lines_decreases
{
    if t.len() == 0 {
        Seq::empty()
    } else {
        let i = first_nl(t);
        let line = strip_cr(t.take(i));
        if i == t.len() {
            seq![line]
        } else {
            seq![line] + split_lines(t.skip(i + 1))
        }
    }
}

/// The first newline of a text lies within it.
pub proof fn lemma_first_nl_bounds(t: Seq<char>)
    ensures
        0 <= first_nl(t) <= t.len(),
    decreases t.len(),
{
    if t.len() > 0 && t[0] != '\n' {
        lemma_first_nl_bounds(t.skip(1));
    }
}

#[via_fn]
proof fn split_lines_decreases(t: Seq<char>) {
    lemma_first_nl_bounds(t);
}

/// What one line contributes to the parsed store: nothing when blank,
/// its record when it matches the pattern.
pub open spec fn parse_step(acc: Seq<Rec>, line: Seq<char>) -> Seq<Rec> {
    if line.len() == 0 || !line_matches(line) {
        acc
    } else {
        assoc_insert(acc, line_path(line), line_hash(line))
    }
}

/// The store the lines build up, one after the other.
pub open spec fn parse_into(lines: Seq<Seq<char>>, acc: Seq<Rec>) -> Seq<Rec>
    decreases lines.len(),
{
    if lines.len() == 0 {
        acc
    } else {
        parse_into(lines.skip(1), parse_step(acc, lines[0]))
    }
}

/// The numbers of the lines that are neither blank nor well-formed,
/// counted from `base`.
pub open spec fn bad_lines(lines: Seq<Seq<char>>, base: int) -> Seq<int>
    decreases lines.len(),
{
    if lines.len() == 0 {
        Seq::empty()
    } else {
        (if lines[0].len() == 0 || line_matches(lines[0]) {
            Seq::empty()
        } else {
            seq![base]
        }) + bad_lines(lines.skip(1), base + 1)
    }
}

/// Line numbers as mathematics.
pub open spec fn usizes_as_ints(s: Seq<usize>) -> Seq<int> {
    s.map_values(|u: usize| u as int)
}

proof fn lemma_first_nl_at(t: Seq<char>, m: int)
    requires
        0 <= m <= t.len(),
        forall|w: int| 0 <= w < m ==> t[w] != '\n',
        m < t.len() ==> t[m] == '\n',
    ensures
        first_nl(t) == m,
    decreases m,
{
    if t.len() == 0 {
    } else if m == 0 {
    } else {
        assert forall|w: int| 0 <= w < m - 1 implies t.skip(1)[w] != '\n' by {
            assert(t.skip(1)[w] == t[w + 1]);
        }
        assert(m - 1 < t.skip(1).len() ==> t.skip(1)[m - 1] == '\n') by {
            if m - 1 < t.skip(1).len() {
                assert(t.skip(1)[m - 1] == t[m]);
            }
        }
        lemma_first_nl_at(t.skip(1), m - 1);
    }
}

proof fn lemma_suffix_hash_at(line: Seq<char>, m: int)
    requires
        0 <= m <= line.len(),
        forall|w: int| m <= w < line.len() ==> is_hash_char(#[trigger] line[w]),
        m > 0 ==> !is_hash_char(line[m - 1]),
    ensures
        suffix_hash_len(line) == line.len() - m,
    decreases line.len(),
{
    if line.len() == 0 {
    } else if m == line.len() {
        assert(!is_hash_char(line.last()));
    } else {
        assert(is_hash_char(line.last()));
        assert forall|w: int| m <= w < line.drop_last().len() implies is_hash_char(
            #[trigger] line.drop_last()[w],
        ) by {
            assert(line.drop_last()[w] == line[w]);
        }
        assert(m > 0 ==> !is_hash_char(line.drop_last()[m - 1])) by {
            if m > 0 {
                assert(line.drop_last()[m - 1] == line[m - 1]);
            }
        }
        lemma_suffix_hash_at(line.drop_last(), m);
    }
}

proof fn lemma_ws_run_at(line: Seq<char>, j: int, m: int)
    requires
        0 <= m <= j <= line.len(),
        forall|w: int| m <= w < j ==> is_ws(#[trigger] line[w]),
        m > 0 ==> !is_ws(line[m - 1]),
    ensures
        ws_run_len(line, j) == j - m,
    decreases j - m,
{
    if j == m {
        if j > 0 {
            assert(!is_ws(line[j - 1]));
        }
    } else {
        assert(is_ws(line[j - 1]));
        lemma_ws_run_at(line, j - 1, m);
    }
}

/// Read hashes saved with `write_hashes()` from the given text, or fail
/// with the numbers of the lines that match no pattern.
///
/// Every line must be blank or carry a path, two or more white-space
/// characters, and a hash column; parsing succeeds only when no line
/// violates that, and reports every violating line's number.
#[verifier::rlimit(100)]
pub fn read_hashes(text: &str) -> (r: Result<HashStore, Vec<usize>>)
    ensures
        match r {
            Ok(store) => {
                &&& bad_lines(split_lines(text@), 0).len() == 0
                &&& store.wf()
                &&& store@ == parse_into(split_lines(text@), Seq::empty())
            },
            Err(bad) => {
                &&& bad_lines(split_lines(text@), 0).len() > 0
                &&& usizes_as_ints(bad@) == bad_lines(split_lines(text@), 0)
            },
        },
{
    let cs = chars_of(text);
    let n = cs.len();
    let ghost lines = split_lines(text@);
    let mut store = HashStore::new();
    let mut bad: Vec<usize> = Vec::new();
    let mut i: usize = 0;
    let mut line_no: usize = 0;
    proof {
        assert(text@.skip(0) =~= text@);
        assert(lines.skip(0) =~= lines);
        assert(usizes_as_ints(bad@) =~= Seq::<int>::empty());
    }
    while i < n
        invariant
            cs@ == text@,
            n == cs@.len(),
            0 <= i <= n,
            line_no <= i,
            lines == split_lines(text@),
            split_lines(text@.skip(i as int)) == lines.skip(line_no as int),
            line_no <= lines.len(),
            store.wf(),
            parse_into(lines.skip(line_no as int), store@) == parse_into(lines, Seq::empty()),
            usizes_as_ints(bad@) + bad_lines(lines.skip(line_no as int), line_no as int)
                == bad_lines(lines, 0),
        decreases n - i,
    {
        let ghost rem = text@.skip(i as int);
        let ghost prev_store = store@;
        // Find the end of this line.
        let mut j: usize = i;
        while j < n
            invariant
                n == cs@.len(),
                i <= j <= n,
                forall|w: int| i <= w < j ==> cs@[w] != '\n',
            ensures
                i <= j <= n,
                forall|w: int| i <= w < j ==> cs@[w] != '\n',
                j < n ==> cs@[j as int] == '\n',
            decreases n - j,
        {
            if cs[j] == '\n' {
                break;
            }
            j = j + 1;
        }
        proof {
            assert(rem.len() == n - i);
            assert forall|w: int| 0 <= w < j - i implies rem[w] != '\n' by {
                assert(rem[w] == text@[i + w]);
            }
            assert(j < n ==> rem[j - i] == '\n') by {
                if j < n {
                    assert(rem[j - i] == text@[j as int]);
                }
            }
            lemma_first_nl_at(rem, j - i);
        }
        let j2: usize = if j > i && cs[j - 1] == '\r' {
            j - 1
        } else {
            j
        };
        let ghost line = lines.skip(line_no as int)[0];
        proof {
            assert(rem.take(j - i) =~= cs@.subrange(i as int, j as int));
            if j > i && cs@[j - 1] == '\r' {
                assert(strip_cr(rem.take(j - i)) =~= cs@.subrange(i as int, j2 as int));
            } else {
                assert(strip_cr(rem.take(j - i)) =~= cs@.subrange(i as int, j2 as int));
            }
            assert(lines.skip(line_no as int).len() > 0);
            assert(line == strip_cr(rem.take(first_nl(rem))));
            assert(line =~= cs@.subrange(i as int, j2 as int));
        }
        if j2 > i {
            // Backward over the hash column.
            let mut k: usize = j2;
            while k > i
                invariant
                    n == cs@.len(),
                    i <= k <= j2 <= n,
                    forall|w: int| k <= w < j2 ==> is_hash_char(#[trigger] cs@[w]),
                ensures
                    i <= k <= j2,
                    forall|w: int| k <= w < j2 ==> is_hash_char(#[trigger] cs@[w]),
                    k > i ==> !is_hash_char(cs@[k - 1]),
                decreases k,
            {
                if !hash_char(cs[k - 1]) {
                    break;
                }
                k = k - 1;
            }
            // Backward over the separating white space.
            let mut m: usize = k;
            while m > i
                invariant
                    n == cs@.len(),
                    i <= m <= k <= n,
                    forall|w: int| m <= w < k ==> is_ws(#[trigger] cs@[w]),
                ensures
                    i <= m <= k,
                    forall|w: int| m <= w < k ==> is_ws(#[trigger] cs@[w]),
                    m > i ==> !is_ws(cs@[m - 1]),
                decreases m,
            {
                if !ws_char(cs[m - 1]) {
                    break;
                }
                m = m - 1;
            }
            proof {
                assert(line.len() == j2 - i);
                assert forall|w: int| k - i <= w < line.len() implies is_hash_char(
                    #[trigger] line[w],
                ) by {
                    assert(line[w] == cs@[i + w]);
                }
                assert(k - i > 0 ==> !is_hash_char(line[k - i - 1])) by {
                    if k > i {
                        assert(line[k - i - 1] == cs@[k - 1]);
                    }
                }
                lemma_suffix_hash_at(line, k - i);
                assert forall|w: int| m - i <= w < k - i implies is_ws(#[trigger] line[w]) by {
                    assert(line[w] == cs@[i + w]);
                }
                assert(m - i > 0 ==> !is_ws(line[m - i - 1])) by {
                    if m > i {
                        assert(line[m - i - 1] == cs@[m - 1]);
                    }
                }
                lemma_ws_run_at(line, k - i, m - i);
            }
            let h = j2 - k;
            let w = k - m;
            if h >= 1 && w >= 2 && k - i >= 3 {
                let ps: usize = if m > i + 1 {
                    m
                } else {
                    i + 1
                };
                let path = string_from_range(&cs, i, ps);
                let hash = string_from_range(&cs, k, j2);
                proof {
                    assert(line_matches(line));
                    assert(line_path(line) =~= cs@.subrange(i as int, ps as int));
                    assert(line_hash(line) =~= cs@.subrange(k as int, j2 as int));
                }
                store.insert(path, hash);
            } else {
                proof {
                    assert(!line_matches(line));
                }
                bad.push(line_no);
                proof {
                    assert(usizes_as_ints(bad@) =~= usizes_as_ints(bad@.drop_last()) + seq![
                        line_no as int,
                    ]);
                }
            }
        }
        // Step to the next line.
        let ghost old_line_no = line_no as int;
        proof {
            assert(lines.skip(old_line_no).skip(1) =~= lines.skip(old_line_no + 1));
            if j2 == i {
                assert(line.len() == 0);
            }
            assert(store@ == parse_step(prev_store, line));
            if j < n {
                assert(rem.skip(j - i + 1) =~= text@.skip(j + 1));
            } else {
                assert(split_lines(rem) =~= seq![line]);
            }
            assert(bad_lines(lines.skip(old_line_no), old_line_no) == (if line.len() == 0
                || line_matches(line) {
                Seq::<int>::empty()
            } else {
                seq![old_line_no]
            }) + bad_lines(lines.skip(old_line_no + 1), old_line_no + 1));
        }
        if j < n {
            i = j + 1;
        } else {
            i = n;
            proof {
                assert(lines.skip(old_line_no).len() == 1);
                assert(lines.skip(old_line_no + 1) =~= Seq::<Seq<char>>::empty());
                assert(split_lines(text@.skip(n as int)) =~= Seq::<Seq<char>>::empty());
            }
        }
        line_no = line_no + 1;
    }
    proof {
        assert(split_lines(text@.skip(n as int)).len() == 0) by {
            assert(text@.skip(n as int).len() == 0);
        }
        assert(lines.skip(line_no as int).len() == 0);
        assert(usizes_as_ints(bad@) + Seq::<int>::empty() =~= usizes_as_ints(bad@));
    }
    if bad.len() == 0 {
        proof {
            assert(bad_lines(lines, 0) =~= Seq::<int>::empty());
        }
        Ok(store)
    } else {
        proof {
            assert(bad_lines(lines, 0).len() == usizes_as_ints(bad@).len());
        }
        Err(bad)
    }
}


/// The longest path in the store.
pub open spec fn max_path_len(s: Seq<Rec>) -> nat
    decreases s.len(),
{
    if s.len() == 0 {
        0
    } else {
        let m = max_path_len(s.drop_last());
        if s.last().0.len() > m {
            s.last().0.len()
        } else {
            m
        }
    }
}

proof fn lemma_max_path_len_ge(s: Seq<Rec>, m: int)
    requires
        0 <= m < s.len(),
    ensures
        s[m].0.len() <= max_path_len(s),
    decreases s.len(),
{
    if m < s.len() - 1 {
        assert(s.drop_last()[m] == s[m]);
        lemma_max_path_len_ge(s.drop_last(), m);
    }
}

/// The padding written after a path: at least two spaces, aligning the
/// hash column to two past the longest path.
pub open spec fn pad_len(r: Rec, w: nat) -> nat {
    if r.0.len() <= w {
        (w + 2 - r.0.len()) as nat
    } else {
        2
    }
}

/// One record's line, without its newline.
pub open spec fn line_body(r: Rec, w: nat) -> Seq<char> {
    r.0 + spaces(pad_len(r, w)) + r.1
}

/// One record's line as written out.
pub open spec fn line_of(r: Rec, w: nat) -> Seq<char> {
    line_body(r, w) + seq!['\n']
}

/// A whole store rendered, one line per record, in order.
pub open spec fn spec_render(s: Seq<Rec>, w: nat) -> Seq<char>
    decreases s.len(),
{
    if s.len() == 0 {
        Seq::empty()
    } else {
        line_of(s[0], w) + spec_render(s.skip(1), w)
    }
}

/// What serialising a store writes: the store with the file's own
/// sentinel row added, rendered with its hash column aligned.
pub open spec fn spec_write_hashes(s: Seq<Rec>, out_file: Seq<char>, hex_len: nat) -> Seq<char> {
    let t = assoc_insert(s, out_file, dashes(hex_len));
    spec_render(t, max_path_len(t))
}

proof fn lemma_render_push(s: Seq<Rec>, x: Rec, w: nat)
    ensures
        spec_render(s.push(x), w) == spec_render(s, w) + line_of(x, w),
    decreases s.len(),
{
    if s.len() == 0 {
        assert(s.push(x)[0] == x);
        assert(s.push(x).skip(1) =~= Seq::<Rec>::empty());
        assert(spec_render(s.push(x), w) == line_of(x, w) + spec_render(s.push(x).skip(1), w));
        assert(spec_render(s.push(x).skip(1), w) == Seq::<char>::empty());
        assert(spec_render(s, w) == Seq::<char>::empty());
        assert(line_of(x, w) + Seq::<char>::empty() =~= Seq::<char>::empty() + line_of(x, w));
    } else {
        assert(s.push(x)[0] == s[0]);
        assert(s.push(x).skip(1) =~= s.skip(1).push(x));
        lemma_render_push(s.skip(1), x, w);
        assert(spec_render(s.push(x), w) == line_of(s[0], w) + spec_render(s.skip(1).push(x), w));
        assert(spec_render(s.skip(1).push(x), w) == spec_render(s.skip(1), w) + line_of(x, w));
        assert(line_of(s[0], w) + (spec_render(s.skip(1), w) + line_of(x, w)) =~= (line_of(s[0], w)
            + spec_render(s.skip(1), w)) + line_of(x, w));
    }
}

/// Every record of an inserted store is the inserted pair or a record
/// of the original.
pub proof fn lemma_assoc_insert_pairs(s: Seq<Rec>, k: Seq<char>, v: Seq<char>, i: int)
    requires
        0 <= i < assoc_insert(s, k, v).len(),
    ensures
        assoc_insert(s, k, v)[i] == (k, v) || exists|m: int|
            0 <= m < s.len() && s[m] == assoc_insert(s, k, v)[i],
    decreases s.len(),
{
    let r = assoc_insert(s, k, v);
    if s.len() == 0 {
    } else if seq_lt(k, s[0].0) {
        if i > 0 {
            assert(r[i] == s[i - 1]);
        }
    } else if k == s[0].0 {
        if i > 0 {
            assert(r[i] == s.skip(1)[i - 1]);
            assert(s.skip(1)[i - 1] == s[i]);
        }
    } else {
        if i == 0 {
            assert(r[0] == s[0]);
        } else {
            let t = assoc_insert(s.skip(1), k, v);
            assert(r[i] == t[i - 1]);
            lemma_assoc_insert_pairs(s.skip(1), k, v, i - 1);
            if t[i - 1] != (k, v) {
                let m = choose|m: int| 0 <= m < s.skip(1).len() && s.skip(1)[m] == t[i - 1];
                assert(s[m + 1] == s.skip(1)[m]);
            }
        }
    }
}

/// Serialise the specified hashes into the persisted two-column text,
/// with one synthetic sentinel row keyed by the output file's own name.
/// Every path must leave room for the two-space column gap after it.
pub fn write_hashes(out_file: &String, algo: Algorithm, hashes: HashStore) -> (r: String)
    requires
        hashes.wf(),
        out_file@.len() + 2 <= usize::MAX,
        forall|m: int|
            0 <= m < hashes@.len() ==> (#[trigger] hashes@[m]).0.len() + 2 <= usize::MAX,
    ensures
        r@ == spec_write_hashes(hashes@, out_file@, crate::algorithms::spec_hexlen(algo)),
{
    let ghost orig = hashes@;
    let mut hashes = hashes;
    let sent = mul_str("-", algo.hexlen());
    proof {
        lemma_str_repeat_dashes(crate::algorithms::spec_hexlen(algo));
    }
    hashes.insert(out_file.clone(), sent);
    let ghost t = hashes@;
    let n = hashes.len();
    let mut maxw: usize = 0;
    proof {
        assert(t.take(0) =~= Seq::<Rec>::empty());
    }
    for idx in 0..n
        invariant
            hashes.wf(),
            t == hashes@,
            n == t.len(),
            maxw == max_path_len(t.take(idx as int)),
            maxw + 2 <= usize::MAX,
            t == assoc_insert(orig, out_file@, dashes(crate::algorithms::spec_hexlen(algo))),
            out_file@.len() + 2 <= usize::MAX,
            forall|m: int|
                0 <= m < orig.len() ==> (#[trigger] orig[m]).0.len() + 2 <= usize::MAX,
    {
        let l = hashes.path_at(idx).as_str().unicode_len();
        proof {
            lemma_assoc_insert_pairs(orig, out_file@, dashes(crate::algorithms::spec_hexlen(algo)), idx as int);
            assert(l + 2 <= usize::MAX) by {
                if t[idx as int] == (out_file@, dashes(crate::algorithms::spec_hexlen(algo))) {
                } else {
                    let m = choose|m: int| 0 <= m < orig.len() && orig[m] == t[idx as int];
                    assert(orig[m].0.len() + 2 <= usize::MAX);
                }
            }
            assert(t.take(idx + 1).drop_last() =~= t.take(idx as int));
            assert(t.take(idx + 1).last() == t[idx as int]);
        }
        if l > maxw {
            maxw = l;
        }
    }
    proof {
        assert(t.take(n as int) =~= t);
    }
    let mut out = String::new();
    proof {
        assert(t.take(0) =~= Seq::<Rec>::empty());
    }
    for idx in 0..n
        invariant
            hashes.wf(),
            t == hashes@,
            n == t.len(),
            maxw == max_path_len(t),
            maxw + 2 <= usize::MAX,
            out@ == spec_render(t.take(idx as int), maxw as nat),
    {
        let p = hashes.path_at(idx);
        let plen = p.as_str().unicode_len();
        proof {
            lemma_max_path_len_ge(t, idx as int);
        }
        out.append(p.as_str());
        let pad = mul_str(" ", maxw + 2 - plen);
        out.append(pad.as_str());
        out.append(hashes.hash_at(idx).as_str());
        out.append("\n");
        proof {
            reveal_strlit("\n");
            lemma_str_repeat_spaces((maxw + 2 - plen) as nat);
            assert(pad@ == spaces(pad_len(t[idx as int], maxw as nat)));
            assert(t.take(idx + 1) =~= t.take(idx as int).push(t[idx as int]));
            lemma_render_push(t.take(idx as int), t[idx as int], maxw as nat);
            assert(out@ =~= spec_render(t.take(idx as int), maxw as nat) + line_of(
                t[idx as int],
                maxw as nat,
            ));
        }
    }
    proof {
        assert(t.take(n as int) =~= t);
    }
    out
}


/// A path the codec can round-trip: non-empty, free of newlines, and
/// not ending in white space.
pub open spec fn valid_path(p: Seq<char>) -> bool {
    &&& p.len() >= 1
    &&& forall|i: int| 0 <= i < p.len() ==> (#[trigger] p[i]) != '\n'
    &&& !is_ws(p.last())
}

/// A hash the codec can round-trip: non-empty, hash-column characters
/// only.
pub open spec fn valid_hash(h: Seq<char>) -> bool {
    &&& h.len() >= 1
    &&& forall|i: int| 0 <= i < h.len() ==> is_hash_char(#[trigger] h[i])
}

/// A record's rendered line parses back to exactly that record.
proof fn lemma_line_body_parses(r: Rec, w: nat)
    requires
        valid_path(r.0),
        valid_hash(r.1),
        r.0.len() <= w,
    ensures
        line_body(r, w).len() > 0,
        line_matches(line_body(r, w)),
        line_path(line_body(r, w)) == r.0,
        line_hash(line_body(r, w)) == r.1,
        forall|i: int| 0 <= i < line_body(r, w).len() ==> (#[trigger] line_body(r, w)[i]) != '\n',
        line_body(r, w).last() != '\r',
{
    let body = line_body(r, w);
    let plen = r.0.len() as int;
    let pad = pad_len(r, w) as int;
    let hlen = r.1.len() as int;
    assert(body.len() == plen + pad + hlen);
    assert forall|i: int| 0 <= i < plen implies body[i] == r.0[i] by {}
    assert forall|i: int| plen <= i < plen + pad implies body[i] == ' ' by {
        assert((r.0 + spaces(pad_len(r, w)))[i] == spaces(pad_len(r, w))[i - plen]);
    }
    assert forall|i: int| plen + pad <= i < body.len() implies body[i] == r.1[i - plen - pad] by {}
    assert(!is_hash_char(' ')) by {
        assert(' ' as int == 32);
    }
    assert forall|wx: int| plen + pad <= wx < body.len() implies is_hash_char(
        #[trigger] body[wx],
    ) by {}
    assert(plen + pad > 0 ==> !is_hash_char(body[plen + pad - 1])) by {
        assert(body[plen + pad - 1] == ' ');
    }
    lemma_suffix_hash_at(body, plen + pad);
    assert forall|wx: int| plen <= wx < plen + pad implies is_ws(#[trigger] body[wx]) by {}
    assert(plen > 0 ==> !is_ws(body[plen - 1])) by {
        assert(body[plen - 1] == r.0.last());
    }
    lemma_ws_run_at(body, plen + pad, plen);
    assert(suffix_hash_len(body) == hlen);
    assert(ws_run_len(body, plen + pad) == pad);
    assert(pad >= 2);
    assert(line_matches(body));
    assert(line_path(body) =~= r.0);
    assert(line_hash(body) =~= r.1);
    assert forall|i: int| 0 <= i < body.len() implies (#[trigger] body[i]) != '\n' by {
        if i < plen {
        } else if i < plen + pad {
            assert(body[i] == ' ');
        } else {
            assert(is_hash_char(body[i]));
        }
    }
    assert(body.last() == r.1.last());
    assert(is_hash_char(body.last()));
}

/// The bodies of the lines a rendered store splits into.
pub open spec fn rendered_lines(s: Seq<Rec>, w: nat) -> Seq<Seq<char>> {
    s.map_values(|r: Rec| line_body(r, w))
}

/// A rendered store splits back into one line per record.
proof fn lemma_split_render(s: Seq<Rec>, w: nat)
    requires
        forall|m: int|
            0 <= m < s.len() ==> valid_path((#[trigger] s[m]).0) && valid_hash(s[m].1)
                && s[m].0.len() <= w,
    ensures
        split_lines(spec_render(s, w)) == rendered_lines(s, w),
    decreases s.len(),
{
    if s.len() == 0 {
        assert(split_lines(spec_render(s, w)) =~= rendered_lines(s, w));
    } else {
        let body = line_body(s[0], w);
        let text = spec_render(s, w);
        let rest = spec_render(s.skip(1), w);
        lemma_line_body_parses(s[0], w);
        assert(text == (body + seq!['\n']) + rest);
        assert(text.len() == body.len() + 1 + rest.len());
        assert forall|i: int| 0 <= i < body.len() implies #[trigger] text[i] == body[i] by {}
        assert(text[body.len() as int] == '\n');
        lemma_first_nl_at(text, body.len() as int);
        assert(text.take(body.len() as int) =~= body);
        assert(strip_cr(body) == body);
        assert forall|m: int|
            0 <= m < s.skip(1).len() implies valid_path((#[trigger] s.skip(1)[m]).0) && valid_hash(
            s.skip(1)[m].1,
        ) && s.skip(1)[m].0.len() <= w by {
            assert(s.skip(1)[m] == s[m + 1]);
        }
        lemma_split_render(s.skip(1), w);
        if body.len() + 1 == text.len() {
            assert(rest.len() == 0);
            assert(s.skip(1).len() == 0) by {
                if s.skip(1).len() > 0 {
                    lemma_line_body_parses(s.skip(1)[0], w);
                    assert(rest.len() > 0);
                }
            }
            assert(first_nl(text) < text.len());
            assert(text.skip(body.len() as int + 1) =~= rest);
            assert(split_lines(text) == seq![body] + split_lines(rest));
            assert(split_lines(rest) =~= Seq::<Seq<char>>::empty());
            assert(split_lines(text) =~= rendered_lines(s, w));
        } else {
            assert(text.skip(body.len() as int + 1) =~= rest);
            assert(split_lines(text) == seq![body] + split_lines(rest));
            assert(split_lines(text) =~= rendered_lines(s, w)) by {
                assert(rendered_lines(s, w).len() == s.len());
                assert forall|m: int| 0 <= m < s.len() implies rendered_lines(s, w)[m]
                    == split_lines(text)[m] by {
                    if m == 0 {
                    } else {
                        assert(split_lines(text)[m] == rendered_lines(s.skip(1), w)[m - 1]);
                        assert(rendered_lines(s.skip(1), w)[m - 1] == line_body(s.skip(1)[m - 1], w));
                        assert(s.skip(1)[m - 1] == s[m]);
                    }
                }
            }
        }
    }
}

/// Parsing the lines of a sorted store, from any already-built prefix
/// of it, rebuilds the store with no line rejected.
proof fn lemma_parse_sorted_fold(s: Seq<Rec>, w: nat, m: int, base: int)
    requires
        assoc_sorted(s),
        0 <= m <= s.len(),
        forall|i: int|
            0 <= i < s.len() ==> valid_path((#[trigger] s[i]).0) && valid_hash(s[i].1)
                && s[i].0.len() <= w,
    ensures
        parse_into(rendered_lines(s, w).skip(m), s.take(m)) == s,
        bad_lines(rendered_lines(s, w).skip(m), base) == Seq::<int>::empty(),
    decreases s.len() - m,
{
    let lines = rendered_lines(s, w);
    if m == s.len() {
        assert(lines.skip(m).len() == 0);
        assert(s.take(m) =~= s);
        assert(bad_lines(lines.skip(m), base) =~= Seq::<int>::empty());
    } else {
        let line = lines[m];
        assert(line == line_body(s[m], w));
        lemma_line_body_parses(s[m], w);
        assert(lines.skip(m)[0] == line);
        assert(lines.skip(m).skip(1) =~= lines.skip(m + 1));
        // The inserted record lands at the end of the prefix built so far.
        assert(assoc_sorted(s.take(m))) by {
            assert forall|i: int, j: int| 0 <= i < j < s.take(m).len() implies seq_lt(
                (#[trigger] s.take(m)[i]).0,
                (#[trigger] s.take(m)[j]).0,
            ) by {
                assert(s.take(m)[i] == s[i]);
                assert(s.take(m)[j] == s[j]);
            }
        }
        assert forall|j: int| 0 <= j < m implies seq_lt((#[trigger] s.take(m)[j]).0, s[m].0) by {
            assert(s.take(m)[j] == s[j]);
        }
        crate::store::lemma_assoc_insert_at_end(s.take(m), s[m].0, s[m].1);
        assert(parse_step(s.take(m), line) == assoc_insert(s.take(m), line_path(line), line_hash(
            line,
        )));
        assert(assoc_insert(s.take(m), s[m].0, s[m].1) == s.take(m).push((s[m].0, s[m].1)));
        assert((s[m].0, s[m].1) == s[m]);
        assert(s.take(m).push(s[m]) =~= s.take(m + 1));
        lemma_parse_sorted_fold(s, w, m + 1, base + 1);
        assert(bad_lines(lines.skip(m), base) =~= Seq::<int>::empty());
    }
}

/// Law: serialising a store and parsing the text back reproduces the
/// store exactly, with the self-row present, and stripping that row out
/// restores the original store.
pub proof fn lemma_round_trip(s: Seq<Rec>, out_file: Seq<char>, hex_len: nat)
    requires
        assoc_sorted(s),
        hex_len >= 1,
        valid_path(out_file),
        !crate::store::assoc_contains(s, out_file),
        forall|m: int|
            0 <= m < s.len() ==> valid_path((#[trigger] s[m]).0) && valid_hash(s[m].1),
    ensures
        ({
            let with_self = assoc_insert(s, out_file, dashes(hex_len));
            let text = spec_write_hashes(s, out_file, hex_len);
            &&& bad_lines(split_lines(text), 0) == Seq::<int>::empty()
            &&& parse_into(split_lines(text), Seq::empty()) == with_self
            &&& crate::store::assoc_remove(with_self, out_file) == s
        }),
{
    let with_self = assoc_insert(s, out_file, dashes(hex_len));
    let w = max_path_len(with_self);
    let text = spec_write_hashes(s, out_file, hex_len);
    crate::store::lemma_assoc_insert_sorted(s, out_file, dashes(hex_len));
    assert(valid_hash(dashes(hex_len))) by {
        assert forall|i: int| 0 <= i < dashes(hex_len).len() implies is_hash_char(
            #[trigger] dashes(hex_len)[i],
        ) by {
            assert(dashes(hex_len)[i] == '-');
        }
    }
    assert forall|m: int|
        0 <= m < with_self.len() implies valid_path((#[trigger] with_self[m]).0) && valid_hash(
        with_self[m].1,
    ) && with_self[m].0.len() <= w by {
        lemma_assoc_insert_pairs(s, out_file, dashes(hex_len), m);
        lemma_max_path_len_ge(with_self, m);
        if with_self[m] != (out_file, dashes(hex_len)) {
            let i = choose|i: int| 0 <= i < s.len() && s[i] == with_self[m];
        }
    }
    lemma_split_render(with_self, w);
    lemma_parse_sorted_fold(with_self, w, 0, 0);
    assert(rendered_lines(with_self, w).skip(0) =~= rendered_lines(with_self, w));
    assert(with_self.take(0) =~= Seq::<Rec>::empty());
    crate::store::lemma_assoc_remove_insert(s, out_file, dashes(hex_len));
}

} // verus!
