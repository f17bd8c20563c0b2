use checksums::ops::{compare_hashes, CompareError, CompareFileResult, CompareResult};
use checksums::HashStore;

fn store_of(pairs: &[(&str, &str)]) -> HashStore {
    let mut s = HashStore::new();
    for (p, h) in pairs {
        s.insert(p.to_string(), h.to_string());
    }
    s
}

#[test]
fn identical_stores_all_match() {
    let a = store_of(&[("a.txt", "AAAA"), ("b.txt", "BBBB"), ("c/d.txt", "CCCC")]);
    let b = store_of(&[("a.txt", "AAAA"), ("b.txt", "BBBB"), ("c/d.txt", "CCCC")]);
    let (res, fres) = compare_hashes(&"out.hash".to_string(), a, b).unwrap();
    assert_eq!(res, vec![]);
    assert_eq!(
        fres,
        vec![
            CompareFileResult::FileMatches("a.txt".to_string()),
            CompareFileResult::FileMatches("b.txt".to_string()),
            CompareFileResult::FileMatches("c/d.txt".to_string()),
        ]
    );
}

#[test]
fn length_mismatch_reported_with_both_lengths() {
    let a = store_of(&[("a.txt", "AAAA")]);
    let b = store_of(&[("a.txt", "A9993E36")]);
    let e = compare_hashes(&"out.hash".to_string(), a, b).unwrap_err();
    assert_eq!(e, CompareError::HashLengthDiffers { previous_len: 8, current_len: 4 });
}

#[test]
fn added_key_listed_once() {
    let a = store_of(&[("a.txt", "AAAA"), ("new.txt", "1234")]);
    let b = store_of(&[("a.txt", "AAAA")]);
    let (res, fres) = compare_hashes(&"out.hash".to_string(), a, b).unwrap();
    assert_eq!(res, vec![CompareResult::FileAdded("new.txt".to_string())]);
    assert_eq!(fres, vec![CompareFileResult::FileMatches("a.txt".to_string())]);
}

#[test]
fn removed_key_listed_once() {
    let a = store_of(&[("a.txt", "AAAA")]);
    let b = store_of(&[("a.txt", "AAAA"), ("gone.txt", "1234")]);
    let (res, fres) = compare_hashes(&"out.hash".to_string(), a, b).unwrap();
    assert_eq!(res, vec![CompareResult::FileRemoved("gone.txt".to_string())]);
    assert_eq!(fres, vec![CompareFileResult::FileMatches("a.txt".to_string())]);
}

#[test]
fn sentinel_on_either_side_is_ignored() {
    // Ignored on the current side, a real hash on the loaded side.
    let a = store_of(&[("a.txt", "----"), ("b.txt", "BBBB")]);
    let b = store_of(&[("a.txt", "AAAA"), ("b.txt", "----")]);
    let (res, fres) = compare_hashes(&"out.hash".to_string(), a, b).unwrap();
    assert_eq!(
        res,
        vec![
            CompareResult::FileIgnored("a.txt".to_string()),
            CompareResult::FileIgnored("b.txt".to_string()),
        ]
    );
    assert_eq!(fres, vec![]);
}

#[test]
fn self_row_is_stripped_before_comparing() {
    let a = store_of(&[("a.txt", "AAAA"), ("out.hash", "----")]);
    let b = store_of(&[("a.txt", "AAAA"), ("out.hash", "----")]);
    let (res, fres) = compare_hashes(&"out.hash".to_string(), a, b).unwrap();
    assert_eq!(res, vec![]);
    assert_eq!(fres, vec![CompareFileResult::FileMatches("a.txt".to_string())]);
}

#[test]
fn verify_scenario_one_file_differs() {
    let loaded = store_of(&[("a.txt", "AAAA"), ("b.txt", "BBBB")]);
    let current = store_of(&[("a.txt", "AAAA"), ("b.txt", "CCCC")]);
    let (res, fres) = compare_hashes(&"t.hash".to_string(), current, loaded).unwrap();
    assert_eq!(res, vec![]);
    assert_eq!(
        fres,
        vec![
            CompareFileResult::FileMatches("a.txt".to_string()),
            CompareFileResult::FileDiffers {
                file: "b.txt".to_string(),
                was_hash: "BBBB".to_string(),
                new_hash: "CCCC".to_string(),
            },
        ]
    );
}

#[test]
fn deleted_ignored_file_stays_ignored() {
    // Created with an ignore list holding secret.bin, so the store
    // carries the sentinel for it; a later run does not see the file at
    // all, yet it must never surface as removed or differing.
    let loaded = store_of(&[("a.txt", "AAAA"), ("secret.bin", "----")]);
    let current = store_of(&[("a.txt", "AAAA")]);
    let (res, fres) = compare_hashes(&"t.hash".to_string(), current, loaded).unwrap();
    assert_eq!(res, vec![CompareResult::FileIgnored("secret.bin".to_string())]);
    assert_eq!(fres, vec![CompareFileResult::FileMatches("a.txt".to_string())]);
}

#[test]
fn changed_ignored_file_stays_ignored() {
    let loaded = store_of(&[("a.txt", "AAAA"), ("secret.bin", "----")]);
    let current = store_of(&[("a.txt", "AAAA"), ("secret.bin", "1234")]);
    let (res, fres) = compare_hashes(&"t.hash".to_string(), current, loaded).unwrap();
    assert_eq!(res, vec![CompareResult::FileIgnored("secret.bin".to_string())]);
    assert_eq!(fres, vec![CompareFileResult::FileMatches("a.txt".to_string())]);
}

#[test]
fn empty_stores_compare_clean() {
    let a = HashStore::new();
    let b = HashStore::new();
    let (res, fres) = compare_hashes(&"out.hash".to_string(), a, b).unwrap();
    assert_eq!(res, vec![]);
    assert_eq!(fres, vec![]);
}

#[test]
fn empty_after_self_removal_does_not_crash() {
    let a = store_of(&[("out.hash", "----")]);
    let b = store_of(&[("a.txt", "AAAA"), ("out.hash", "----")]);
    let (res, fres) = compare_hashes(&"out.hash".to_string(), a, b).unwrap();
    assert_eq!(res, vec![CompareResult::FileRemoved("a.txt".to_string())]);
    assert_eq!(fres, vec![]);
}

#[test]
fn results_sorted_by_path() {
    let a = store_of(&[("b.txt", "AAAA"), ("d.txt", "AAAA")]);
    let b = store_of(&[("a.txt", "AAAA"), ("c.txt", "AAAA")]);
    let (res, fres) = compare_hashes(&"out.hash".to_string(), a, b).unwrap();
    assert_eq!(
        res,
        vec![
            CompareResult::FileRemoved("a.txt".to_string()),
            CompareResult::FileAdded("b.txt".to_string()),
            CompareResult::FileRemoved("c.txt".to_string()),
            CompareResult::FileAdded("d.txt".to_string()),
        ]
    );
    assert_eq!(fres, vec![]);
}
