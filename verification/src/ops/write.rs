//! Rendering of a comparison outcome into report lines, wrapped to 80
//! columns, and the mapping of the outcome to the exit taxonomy.

use vstd::prelude::*;
use crate::error::Error;
use crate::ops::compare::{
    cfrs_view, crs_view, CompareError, CompareFileResult, CompareResult, SpecCompareFileResult,
    SpecCompareResult,
};
use crate::util::{chars_of, spaces, string_from_range};

verus! {

/// The views of a vector of report lines.
pub open spec fn lines_view(v: Seq<String>) -> Seq<Seq<char>> {
    v.map_values(|s: String| s@)
}

/// The decimal digit character of a value below ten.
pub open spec fn dec_char(d: nat) -> char {
    if d == 0 { '0' } else if d == 1 { '1' } else if d == 2 { '2' }
    else if d == 3 { '3' } else if d == 4 { '4' } else if d == 5 { '5' }
    else if d == 6 { '6' } else if d == 7 { '7' } else if d == 8 { '8' }
    else { '9' }
}

/// A number written in decimal.
pub open spec fn dec_str(n: nat) -> Seq<char>
    decreases n,
{
    if n < 10 {
        seq![dec_char(n)]
    } else {
        dec_str(n / 10) + seq![dec_char(n % 10)]
    }
}

fn dec_digit(d: usize) -> (r: char)
    requires
        d < 10,
    ensures
        r == dec_char(d as nat),
{
    match d {
        0 => '0', 1 => '1', 2 => '2', 3 => '3', 4 => '4',
        5 => '5', 6 => '6', 7 => '7', 8 => '8', _ => '9',
    }
}

/// A number as its decimal digits.
fn usize_to_string(n: usize) -> (r: String)
    ensures
        r@ == dec_str(n as nat),
{
    let mut digs: Vec<char> = Vec::new();
    let mut x = n;
    while x >= 10
        invariant
            dec_str(n as nat) == dec_str(x as nat) + digs@,
        decreases x,
    {
        let ghost before = digs@;
        digs.insert(0, dec_digit(x % 10));
        proof {
            assert(digs@ =~= seq![dec_char((x % 10) as nat)] + before);
            assert(dec_str(x as nat) == dec_str((x / 10) as nat) + seq![dec_char((x % 10) as nat)]);
            assert(dec_str((x / 10) as nat) + (seq![dec_char((x % 10) as nat)] + before) =~= (
            dec_str((x / 10) as nat) + seq![dec_char((x % 10) as nat)]) + before);
        }
        x = x / 10;
    }
    let ghost before = digs@;
    digs.insert(0, dec_digit(x));
    proof {
        assert(digs@ =~= seq![dec_char(x as nat)] + before);
        assert(dec_str(x as nat) == seq![dec_char(x as nat)]);
    }
    let r = string_from_range(&digs, 0, digs.len());
    proof {
        assert(digs@.subrange(0, digs@.len() as int) =~= digs@);
    }
    r
}

/// The quote mark, when one is asked for.
pub open spec fn quote_mark(quote: bool) -> Seq<char> {
    if quote {
        seq!['"']
    } else {
        Seq::empty()
    }
}

/// A name cut into lines of the given width, each indented.
pub open spec fn chunk_lines(s: Seq<char>, size: nat, indent: nat) -> Seq<Seq<char>>
    decreases s.len(),
{
    if s.len() <= size || size == 0 {
        seq![spaces(indent) + s]
    } else {
        seq![spaces(indent) + s.take(size as int)] + chunk_lines(s.skip(size as int), size, indent)
    }
}

/// The lines that report one name after a label: on one line when they
/// fit in 80 columns, otherwise the label alone and the name below it,
/// cut up and indented when even that is too wide.
pub open spec fn spec_write_result(
    pre: Seq<char>,
    fname: Seq<char>,
    fname_indent: nat,
    quote: bool,
) -> Seq<Seq<char>> {
    let q = quote_mark(quote);
    if pre.len() + q.len() + fname.len() + q.len() <= 80 {
        seq![pre + q + fname + q]
    } else if fname.len() <= 80 - fname_indent {
        seq![pre, spaces(2) + fname]
    } else {
        seq![pre] + chunk_lines(fname, (80 - fname_indent) as nat, fname_indent)
    }
}

/// Report one name after a label, wrapped to 80 columns.
pub fn write_result(pre: &str, fname: &str, fname_indent: usize, quote: bool) -> (r: Vec<String>)
    requires
        fname_indent < 80,
    ensures
        lines_view(r@) == spec_write_result(pre@, fname@, fname_indent as nat, quote),
{
    let prelen = pre.unicode_len();
    let flen = fname.unicode_len();
    let qn: usize = if quote {
        1
    } else {
        0
    };
    let mut r: Vec<String> = Vec::new();
    if prelen as u128 + qn as u128 + flen as u128 + qn as u128 <= 80 {
        let mut line = String::new();
        line.append(pre);
        if quote {
            line.append("\"");
        }
        line.append(fname);
        if quote {
            line.append("\"");
        }
        proof {
            reveal_strlit("\"");
            assert(line@ =~= pre@ + quote_mark(quote) + fname@ + quote_mark(quote));
        }
        r.push(line);
        proof {
            assert(lines_view(r@) =~= spec_write_result(pre@, fname@, fname_indent as nat, quote));
        }
    } else if flen <= 80 - fname_indent {
        let mut first = String::new();
        first.append(pre);
        r.push(first);
        let mut second = String::new();
        second.append("  ");
        second.append(fname);
        proof {
            reveal_strlit("  ");
            assert("  "@ =~= spaces(2));
            assert(second@ =~= spaces(2) + fname@);
        }
        r.push(second);
        proof {
            assert(lines_view(r@) =~= spec_write_result(pre@, fname@, fname_indent as nat, quote));
        }
    } else {
        let mut first = String::new();
        first.append(pre);
        r.push(first);
        let size = 80 - fname_indent;
        let cs = chars_of(fname);
        let ghost whole = cs@;
        let mut a: usize = 0;
        let indent_str = crate::util::mul_str(" ", fname_indent);
        proof {
            crate::util::lemma_str_repeat_spaces(fname_indent as nat);
        }
        loop
            invariant_except_break
                cs@ == fname@,
                size == 80 - fname_indent,
                0 < size,
                fname_indent < 80,
                0 <= a <= cs@.len(),
                indent_str@ == spaces(fname_indent as nat),
                a < cs@.len() || cs@.len() == 0,
                lines_view(r@) == seq![pre@] || a > 0,
                a == 0 ==> lines_view(r@) == seq![pre@],
                a > 0 ==> seq![pre@] + chunk_lines(fname@, size as nat, fname_indent as nat)
                    == lines_view(r@) + chunk_lines(
                    fname@.skip(a as int),
                    size as nat,
                    fname_indent as nat,
                ),
            ensures
                lines_view(r@) == seq![pre@] + chunk_lines(
                    fname@,
                    size as nat,
                    fname_indent as nat,
                ),
            decreases cs@.len() - a,
        {
            let ghost prev = r@;
            let remaining = cs.len() - a;
            let b: usize = if remaining > size {
                a + size
            } else {
                cs.len()
            };
            let mut line = String::new();
            line.append(indent_str.as_str());
            let piece = string_from_range(&cs, a, b);
            line.append(piece.as_str());
            r.push(line);
            proof {
                let rem = fname@.skip(a as int);
                assert(rem.len() == cs@.len() - a);
                if remaining > size {
                    assert(rem.take(size as int) =~= cs@.subrange(a as int, b as int));
                    assert(rem.skip(size as int) =~= fname@.skip(b as int));
                    assert(chunk_lines(rem, size as nat, fname_indent as nat) == seq![
                        spaces(fname_indent as nat) + rem.take(size as int),
                    ] + chunk_lines(fname@.skip(b as int), size as nat, fname_indent as nat));
                } else {
                    assert(rem =~= cs@.subrange(a as int, b as int));
                    assert(chunk_lines(rem, size as nat, fname_indent as nat) == seq![
                        spaces(fname_indent as nat) + rem,
                    ]);
                }
                assert(lines_view(r@) =~= lines_view(prev) + seq![
                    spaces(fname_indent as nat) + cs@.subrange(a as int, b as int),
                ]);
                if a == 0 {
                    assert(fname@.skip(0) =~= fname@);
                }
                assert(seq![pre@] + chunk_lines(fname@, size as nat, fname_indent as nat)
                    == lines_view(r@) + chunk_lines(
                    fname@.skip(b as int),
                    size as nat,
                    fname_indent as nat,
                ) || b == cs@.len()) by {
                    if remaining > size {
                        assert((lines_view(prev) + seq![
                            spaces(fname_indent as nat) + cs@.subrange(a as int, b as int),
                        ]) + chunk_lines(fname@.skip(b as int), size as nat, fname_indent as nat)
                            =~= lines_view(prev) + chunk_lines(
                            fname@.skip(a as int),
                            size as nat,
                            fname_indent as nat,
                        ));
                    }
                }
            }
            if b == cs.len() {
                proof {
                    let rem = fname@.skip(a as int);
                    assert(lines_view(prev) + chunk_lines(rem, size as nat, fname_indent as nat)
                        =~= lines_view(r@));
                    if a == 0 {
                        assert(fname@.skip(0) =~= fname@);
                        assert(lines_view(prev) == seq![pre@]);
                    }
                }
                break;
            }
            a = b;
        }
        proof {
            assert(lines_view(r@) =~= spec_write_result(pre@, fname@, fname_indent as nat, quote));
        }
    }
    r
}


/// Lines reporting one matching file.
pub open spec fn spec_file_result_match(fname: Seq<char>) -> Seq<Seq<char>> {
    if 15 + fname.len() <= 80 {
        seq!["File \""@ + fname + "\" matches"@]
    } else {
        spec_write_result("File matches: "@, fname, 2, true)
    }
}

/// Lines reporting one differing file and both its hashes.
pub open spec fn spec_file_result_diff(
    fname: Seq<char>,
    lhash: Seq<char>,
    chash: Seq<char>,
) -> Seq<Seq<char>> {
    (if 21 + fname.len() <= 80 {
        seq!["File \""@ + fname + "\" doesn't match"@]
    } else {
        spec_write_result("File doesn't match: "@, fname, 4, true)
    }) + spec_write_result("  Was: "@, lhash, 4, false) + spec_write_result(
        "  Is : "@,
        chash,
        4,
        false,
    )
}

/// The report lines of the added files, in order.
pub open spec fn added_lines(a: Seq<SpecCompareResult>) -> Seq<Seq<char>>
    decreases a.len(),
{
    if a.len() == 0 {
        Seq::empty()
    } else {
        added_lines(a.drop_last()) + (match a.last() {
            SpecCompareResult::FileAdded(f) => spec_write_result("File added: "@, f, 2, true),
            _ => Seq::empty(),
        })
    }
}

/// The report lines of the removed files, in order.
pub open spec fn removed_lines(a: Seq<SpecCompareResult>) -> Seq<Seq<char>>
    decreases a.len(),
{
    if a.len() == 0 {
        Seq::empty()
    } else {
        removed_lines(a.drop_last()) + (match a.last() {
            SpecCompareResult::FileRemoved(f) => spec_write_result("File removed: "@, f, 2, true),
            _ => Seq::empty(),
        })
    }
}

/// The report lines of the ignored files, in order.
pub open spec fn ignored_lines(a: Seq<SpecCompareResult>) -> Seq<Seq<char>>
    decreases a.len(),
{
    if a.len() == 0 {
        Seq::empty()
    } else {
        ignored_lines(a.drop_last()) + (match a.last() {
            SpecCompareResult::FileIgnored(f) => spec_write_result(
                "File ignored, skipping: "@,
                f,
                2,
                true,
            ),
            _ => Seq::empty(),
        })
    }
}

/// The report lines of the matching files, in order.
pub open spec fn matches_lines(b: Seq<SpecCompareFileResult>) -> Seq<Seq<char>>
    decreases b.len(),
{
    if b.len() == 0 {
        Seq::empty()
    } else {
        matches_lines(b.drop_last()) + (match b.last() {
            SpecCompareFileResult::FileMatches(f) => spec_file_result_match(f),
            _ => Seq::empty(),
        })
    }
}

/// The report lines of the differing files, in order.
pub open spec fn differs_lines(b: Seq<SpecCompareFileResult>) -> Seq<Seq<char>>
    decreases b.len(),
{
    if b.len() == 0 {
        Seq::empty()
    } else {
        differs_lines(b.drop_last()) + (match b.last() {
            SpecCompareFileResult::FileDiffers { file, was_hash, new_hash } =>
                spec_file_result_diff(file, was_hash, new_hash),
            _ => Seq::empty(),
        })
    }
}

/// How many content results report a difference.
pub open spec fn count_differs(b: Seq<SpecCompareFileResult>) -> nat
    decreases b.len(),
{
    if b.len() == 0 {
        0
    } else {
        count_differs(b.drop_last()) + (if b.last() is FileDiffers {
            1nat
        } else {
            0nat
        })
    }
}

/// The whole successful report: structural changes first, added then
/// removed then ignored, then either a closing message or the content
/// results, matches before differences, set off by a blank line when
/// structural changes stand above them.
pub open spec fn spec_outcome_lines(
    a: Seq<SpecCompareResult>,
    b: Seq<SpecCompareFileResult>,
) -> Seq<Seq<char>> {
    let head = added_lines(a) + removed_lines(a) + ignored_lines(a);
    if a.len() == 0 && b.len() == 0 {
        head + seq!["No files left to verify"@]
    } else if b.len() == 0 {
        head + seq!["No files to verify"@]
    } else {
        head + (if a.len() > 0 {
            seq![Seq::<char>::empty()]
        } else {
            Seq::empty()
        }) + matches_lines(b) + differs_lines(b)
    }
}

/// The exit taxonomy of a successful comparison: clean unless some file
/// differs, in which case the count is carried.
pub open spec fn spec_outcome_error(b: Seq<SpecCompareFileResult>) -> Error {
    if count_differs(b) == 0 {
        Error::NoError
    } else {
        Error::NFilesDiffer(count_differs(b) as i32)
    }
}

/// The error report of a hash-length mismatch, wrapped to 80 columns.
pub open spec fn spec_mismatch_lines(previous_len: nat, current_len: nat) -> Seq<Seq<char>> {
    let pl = dec_str(previous_len);
    let cl = dec_str(current_len);
    if pl.len() + cl.len() + 47 <= 80 {
        seq!["Hash lengths do not match; selected: "@ + cl + ", loaded: "@ + pl]
    } else if pl.len() + cl.len() + 20 <= 80 {
        seq!["Hash lengths do not match;"@, "selected: "@ + cl + ", loaded: "@ + pl]
    } else {
        seq!["Hash lengths do not match;"@, "Selected: "@ + cl, "Loaded  : "@ + pl]
    }
}

/// Report one structural change.
pub fn write_compare_result(pre: &str, fname: &str) -> (r: Vec<String>)
    ensures
        lines_view(r@) == spec_write_result(pre@, fname@, 2, true),
{
    write_result(pre, fname, 2, true)
}

/// Report one matching file.
pub fn write_file_result_match(fname: &str) -> (r: Vec<String>)
    ensures
        lines_view(r@) == spec_file_result_match(fname@),
{
    let flen = fname.unicode_len();
    if 15 + flen as u128 <= 80 {
        let mut line = String::new();
        line.append("File \"");
        line.append(fname);
        line.append("\" matches");
        proof {
            reveal_strlit("File \"");
            reveal_strlit("\" matches");
        }
        let mut r: Vec<String> = Vec::new();
        r.push(line);
        proof {
            assert(lines_view(r@) =~= spec_file_result_match(fname@));
        }
        r
    } else {
        write_compare_result("File matches: ", fname)
    }
}

/// Report one differing file and both its hashes.
pub fn write_file_result_diff(fname: &str, lhash: &str, chash: &str) -> (r: Vec<String>)
    ensures
        lines_view(r@) == spec_file_result_diff(fname@, lhash@, chash@),
{
    let flen = fname.unicode_len();
    let mut r: Vec<String>;
    if 21 + flen as u128 <= 80 {
        let mut line = String::new();
        line.append("File \"");
        line.append(fname);
        line.append("\" doesn't match");
        proof {
            reveal_strlit("File \"");
            reveal_strlit("\" doesn't match");
        }
        r = Vec::new();
        r.push(line);
        proof {
            assert(lines_view(r@) =~= seq!["File \""@ + fname@ + "\" doesn't match"@]);
        }
    } else {
        r = write_result("File doesn't match: ", fname, 4, true);
    }
    let ghost part1 = lines_view(r@);
    let mut was = write_result("  Was: ", lhash, 4, false);
    r.append(&mut was);
    let ghost part2 = lines_view(r@);
    proof {
        assert(part2 =~= part1 + spec_write_result("  Was: "@, lhash@, 4, false));
    }
    let mut is_line = write_result("  Is : ", chash, 4, false);
    r.append(&mut is_line);
    proof {
        assert(lines_view(r@) =~= part2 + spec_write_result("  Is : "@, chash@, 4, false));
        assert(lines_view(r@) =~= spec_file_result_diff(fname@, lhash@, chash@));
    }
    r
}

/// Write hash comparison results as report lines, and map the outcome
/// to its exit taxonomy: success unless files differ, whose count is
/// carried; a length mismatch keeps its own category.
pub fn write_hash_comparison_results(
    results: Result<(Vec<CompareResult>, Vec<CompareFileResult>), CompareError>,
) -> (r: (Vec<String>, Vec<String>, Error))
    requires
        results matches Ok(t) ==> count_differs(cfrs_view(t.1@)) <= i32::MAX,
    ensures
        results matches Ok(t) ==> {
            &&& lines_view(r.0@) == spec_outcome_lines(crs_view(t.0@), cfrs_view(t.1@))
            &&& r.1@.len() == 0
            &&& r.2 == spec_outcome_error(cfrs_view(t.1@))
        },
        results matches Err(e) ==> {
            &&& r.0@.len() == 0
            &&& (e matches CompareError::HashLengthDiffers { previous_len, current_len }
                && lines_view(r.1@) == spec_mismatch_lines(
                previous_len as nat,
                current_len as nat,
            ))
            &&& r.2 == Error::HashLengthDiffers
        },
{
    match results {
        Ok(t) => {
            let (compare_results, file_compare_results) = t;
            let ghost a = crs_view(compare_results@);
            let ghost b = cfrs_view(file_compare_results@);
            let mut out: Vec<String> = Vec::new();
            let an = compare_results.len();
            let bn = file_compare_results.len();
            proof {
                assert(a.len() == an && b.len() == bn);
                assert(added_lines(a.take(0)) =~= Seq::<Seq<char>>::empty());
                assert(lines_view(out@) =~= Seq::<Seq<char>>::empty());
            }
            for idx in 0..an
                invariant
                    an == compare_results@.len(),
                    a == crs_view(compare_results@),
                    lines_view(out@) == added_lines(a.take(idx as int)),
            {
                let ghost prev = lines_view(out@);
                match &compare_results[idx] {
                    CompareResult::FileAdded(f) => {
                        let mut g = write_compare_result("File added: ", f.as_str());
                        out.append(&mut g);
                    },
                    _ => {},
                }
                proof {
                    assert(a.take(idx + 1).drop_last() =~= a.take(idx as int));
                    assert(a.take(idx + 1).last() == a[idx as int]);
                    assert(a[idx as int] == compare_results@[idx as int]@);
                    assert(lines_view(out@) =~= added_lines(a.take(idx + 1)));
                }
            }
            proof {
                assert(a.take(an as int) =~= a);
            }
            let ghost done_added = lines_view(out@);
            for idx in 0..an
                invariant
                    an == compare_results@.len(),
                    a == crs_view(compare_results@),
                    done_added == added_lines(a),
                    lines_view(out@) == added_lines(a) + removed_lines(a.take(idx as int)),
            {
                let ghost prev = lines_view(out@);
                proof {
                    assert(removed_lines(a.take(0)) =~= Seq::<Seq<char>>::empty());
                    if idx == 0 {
                        assert(lines_view(out@) =~= added_lines(a) + removed_lines(a.take(0)));
                    }
                }
                match &compare_results[idx] {
                    CompareResult::FileRemoved(f) => {
                        let mut g = write_compare_result("File removed: ", f.as_str());
                        out.append(&mut g);
                    },
                    _ => {},
                }
                proof {
                    assert(a.take(idx + 1).drop_last() =~= a.take(idx as int));
                    assert(a.take(idx + 1).last() == a[idx as int]);
                    assert(a[idx as int] == compare_results@[idx as int]@);
                    assert(lines_view(out@) =~= prev + (match a[idx as int] {
                        SpecCompareResult::FileRemoved(f) => spec_write_result(
                            "File removed: "@,
                            f,
                            2,
                            true,
                        ),
                        _ => Seq::<Seq<char>>::empty(),
                    }));
                    assert(prev + (match a[idx as int] {
                        SpecCompareResult::FileRemoved(f) => spec_write_result(
                            "File removed: "@,
                            f,
                            2,
                            true,
                        ),
                        _ => Seq::<Seq<char>>::empty(),
                    }) =~= added_lines(a) + removed_lines(a.take(idx + 1)));
                }
            }
            proof {
                assert(a.take(an as int) =~= a);
            }
            let ghost done_removed = lines_view(out@);
            for idx in 0..an
                invariant
                    an == compare_results@.len(),
                    a == crs_view(compare_results@),
                    done_removed == added_lines(a) + removed_lines(a),
                    lines_view(out@) == (added_lines(a) + removed_lines(a)) + ignored_lines(
                        a.take(idx as int),
                    ),
            {
                let ghost prev = lines_view(out@);
                proof {
                    assert(ignored_lines(a.take(0)) =~= Seq::<Seq<char>>::empty());
                    if idx == 0 {
                        assert(lines_view(out@) =~= (added_lines(a) + removed_lines(a))
                            + ignored_lines(a.take(0)));
                    }
                }
                match &compare_results[idx] {
                    CompareResult::FileIgnored(f) => {
                        let mut g = write_compare_result("File ignored, skipping: ", f.as_str());
                        out.append(&mut g);
                    },
                    _ => {},
                }
                proof {
                    assert(a.take(idx + 1).drop_last() =~= a.take(idx as int));
                    assert(a.take(idx + 1).last() == a[idx as int]);
                    assert(a[idx as int] == compare_results@[idx as int]@);
                    assert(lines_view(out@) =~= prev + (match a[idx as int] {
                        SpecCompareResult::FileIgnored(f) => spec_write_result(
                            "File ignored, skipping: "@,
                            f,
                            2,
                            true,
                        ),
                        _ => Seq::<Seq<char>>::empty(),
                    }));
                    assert(prev + (match a[idx as int] {
                        SpecCompareResult::FileIgnored(f) => spec_write_result(
                            "File ignored, skipping: "@,
                            f,
                            2,
                            true,
                        ),
                        _ => Seq::<Seq<char>>::empty(),
                    }) =~= (added_lines(a) + removed_lines(a)) + ignored_lines(a.take(idx + 1)));
                }
            }
            proof {
                assert(a.take(an as int) =~= a);
                assert(lines_view(out@) =~= added_lines(a) + removed_lines(a) + ignored_lines(a));
            }
            let ghost head = lines_view(out@);
            let err: Error;
            if bn == 0 && an == 0 {
                out.push(String::from_str("No files left to verify"));
                err = Error::NoError;
                proof {
                    reveal_strlit("No files left to verify");
                    assert(count_differs(b) == 0);
                    assert(lines_view(out@) =~= head + seq!["No files left to verify"@]);
                }
            } else if bn == 0 {
                out.push(String::from_str("No files to verify"));
                err = Error::NoError;
                proof {
                    reveal_strlit("No files to verify");
                    assert(count_differs(b) == 0);
                    assert(lines_view(out@) =~= head + seq!["No files to verify"@]);
                }
            } else {
                if an > 0 {
                    out.push(String::new());
                }
                let ghost head2 = lines_view(out@);
                proof {
                    assert(head2 =~= head + (if a.len() > 0 {
                        seq![Seq::<char>::empty()]
                    } else {
                        Seq::<Seq<char>>::empty()
                    }));
                    assert(matches_lines(b.take(0)) =~= Seq::<Seq<char>>::empty());
                    assert(lines_view(out@) =~= head2 + matches_lines(b.take(0)));
                }
                for idx in 0..bn
                    invariant
                        bn == file_compare_results@.len(),
                        b == cfrs_view(file_compare_results@),
                        lines_view(out@) == head2 + matches_lines(b.take(idx as int)),
                {
                    let ghost prev = lines_view(out@);
                    match &file_compare_results[idx] {
                        CompareFileResult::FileMatches(f) => {
                            let mut g = write_file_result_match(f.as_str());
                            out.append(&mut g);
                        },
                        _ => {},
                    }
                    proof {
                        assert(b.take(idx + 1).drop_last() =~= b.take(idx as int));
                        assert(b.take(idx + 1).last() == b[idx as int]);
                        assert(b[idx as int] == file_compare_results@[idx as int]@);
                        assert(lines_view(out@) =~= prev + (match b[idx as int] {
                            SpecCompareFileResult::FileMatches(f) => spec_file_result_match(f),
                            _ => Seq::<Seq<char>>::empty(),
                        }));
                        assert(prev + (match b[idx as int] {
                            SpecCompareFileResult::FileMatches(f) => spec_file_result_match(f),
                            _ => Seq::<Seq<char>>::empty(),
                        }) =~= head2 + matches_lines(b.take(idx + 1)));
                    }
                }
                proof {
                    assert(b.take(bn as int) =~= b);
                }
                let ghost head3 = lines_view(out@);
                let mut differed: usize = 0;
                proof {
                    assert(differs_lines(b.take(0)) =~= Seq::<Seq<char>>::empty());
                    assert(count_differs(b.take(0)) == 0);
                    assert(lines_view(out@) =~= head3 + differs_lines(b.take(0)));
                }
                for idx in 0..bn
                    invariant
                        bn == file_compare_results@.len(),
                        b == cfrs_view(file_compare_results@),
                        head3 == head2 + matches_lines(b),
                        lines_view(out@) == head3 + differs_lines(b.take(idx as int)),
                        differed == count_differs(b.take(idx as int)),
                        count_differs(b) <= i32::MAX,
                {
                    let ghost prev = lines_view(out@);
                    match &file_compare_results[idx] {
                        CompareFileResult::FileDiffers { file, was_hash, new_hash } => {
                            let mut g = write_file_result_diff(
                                file.as_str(),
                                was_hash.as_str(),
                                new_hash.as_str(),
                            );
                            out.append(&mut g);
                            proof {
                                lemma_count_differs_prefix(b, idx as int);
                            }
                            differed = differed + 1;
                        },
                        _ => {},
                    }
                    proof {
                        assert(b.take(idx + 1).drop_last() =~= b.take(idx as int));
                        assert(b.take(idx + 1).last() == b[idx as int]);
                        assert(b[idx as int] == file_compare_results@[idx as int]@);
                        assert(lines_view(out@) =~= prev + (match b[idx as int] {
                            SpecCompareFileResult::FileDiffers { file, was_hash, new_hash } =>
                                spec_file_result_diff(file, was_hash, new_hash),
                            _ => Seq::<Seq<char>>::empty(),
                        }));
                        assert(prev + (match b[idx as int] {
                            SpecCompareFileResult::FileDiffers { file, was_hash, new_hash } =>
                                spec_file_result_diff(file, was_hash, new_hash),
                            _ => Seq::<Seq<char>>::empty(),
                        }) =~= head3 + differs_lines(b.take(idx + 1)));
                    }
                }
                proof {
                    assert(b.take(bn as int) =~= b);
                    assert(lines_view(out@) =~= spec_outcome_lines(a, b));
                }
                if differed == 0 {
                    err = Error::NoError;
                } else {
                    err = Error::NFilesDiffer(differed as i32);
                }
            }
            proof {
                assert(lines_view(out@) =~= spec_outcome_lines(a, b));
            }
            (out, Vec::new(), err)
        },
        Err(e) => {
            let CompareError::HashLengthDiffers { previous_len, current_len } = e;
            let pl = usize_to_string(previous_len);
            let cl = usize_to_string(current_len);
            let pln = pl.as_str().unicode_len();
            let cln = cl.as_str().unicode_len();
            let mut err_lines: Vec<String> = Vec::new();
            if pln as u128 + cln as u128 + 47 <= 80 {
                let mut line = String::new();
                line.append("Hash lengths do not match; selected: ");
                line.append(cl.as_str());
                line.append(", loaded: ");
                line.append(pl.as_str());
                err_lines.push(line);
                proof {
                    reveal_strlit("Hash lengths do not match; selected: ");
                    reveal_strlit(", loaded: ");
                    assert(lines_view(err_lines@) =~= spec_mismatch_lines(
                        previous_len as nat,
                        current_len as nat,
                    ));
                }
            } else {
                err_lines.push(String::from_str("Hash lengths do not match;"));
                if pln as u128 + cln as u128 + 20 <= 80 {
                    let mut line = String::new();
                    line.append("selected: ");
                    line.append(cl.as_str());
                    line.append(", loaded: ");
                    line.append(pl.as_str());
                    err_lines.push(line);
                    proof {
                        reveal_strlit("Hash lengths do not match;");
                        reveal_strlit("selected: ");
                        reveal_strlit(", loaded: ");
                        assert(lines_view(err_lines@) =~= spec_mismatch_lines(
                            previous_len as nat,
                            current_len as nat,
                        ));
                    }
                } else {
                    let mut line1 = String::new();
                    line1.append("Selected: ");
                    line1.append(cl.as_str());
                    err_lines.push(line1);
                    let mut line2 = String::new();
                    line2.append("Loaded  : ");
                    line2.append(pl.as_str());
                    err_lines.push(line2);
                    proof {
                        reveal_strlit("Hash lengths do not match;");
                        reveal_strlit("Selected: ");
                        reveal_strlit("Loaded  : ");
                        assert(lines_view(err_lines@) =~= spec_mismatch_lines(
                            previous_len as nat,
                            current_len as nat,
                        ));
                    }
                }
            }
            (Vec::new(), err_lines, Error::HashLengthDiffers)
        },
    }
}

/// Counting one more difference keeps the count within the prefix bound.
proof fn lemma_count_differs_prefix(b: Seq<SpecCompareFileResult>, idx: int)
    requires
        0 <= idx < b.len(),
    ensures
        count_differs(b.take(idx + 1)) <= count_differs(b),
        count_differs(b.take(idx)) <= count_differs(b.take(idx + 1)),
    decreases b.len() - idx,
{
    assert(b.take(idx + 1).drop_last() =~= b.take(idx));
    if idx + 1 == b.len() {
        assert(b.take(idx + 1) =~= b);
    } else {
        lemma_count_differs_prefix(b, idx + 1);
    }
}

} // verus!
