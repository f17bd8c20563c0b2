use checksums::ops::{
    write_file_result_diff, write_file_result_match, write_hash_comparison_results,
    write_result, CompareError, CompareFileResult, CompareResult,
};
use checksums::Error;

#[test]
fn write_result_single_line() {
    let lines = write_result("File added: ", "a.txt", 2, true);
    assert_eq!(lines, vec!["File added: \"a.txt\"".to_string()]);
}

#[test]
fn write_result_two_lines() {
    let name = "x".repeat(70);
    let lines = write_result("File added: ", &name, 2, true);
    assert_eq!(lines, vec!["File added: ".to_string(), format!("  {}", name)]);
}

#[test]
fn write_result_chunks_long_names() {
    let name = "y".repeat(100);
    let lines = write_result("File added: ", &name, 2, true);
    assert_eq!(
        lines,
        vec![
            "File added: ".to_string(),
            format!("  {}", "y".repeat(78)),
            format!("  {}", "y".repeat(22)),
        ]
    );
}

#[test]
fn file_result_lines() {
    assert_eq!(write_file_result_match("a.txt"), vec!["File \"a.txt\" matches".to_string()]);
    assert_eq!(
        write_file_result_diff("b.txt", "BBBB", "CCCC"),
        vec![
            "File \"b.txt\" doesn't match".to_string(),
            "  Was: BBBB".to_string(),
            "  Is : CCCC".to_string(),
        ]
    );
}

#[test]
fn outcome_empty_reports_nothing_left() {
    let (out, err_lines, err) = write_hash_comparison_results(Ok((vec![], vec![])));
    assert_eq!(out, vec!["No files left to verify".to_string()]);
    assert_eq!(err_lines, Vec::<String>::new());
    assert_eq!(err, Error::NoError);
}

#[test]
fn outcome_structural_only_reports_nothing_to_verify() {
    let (out, _, err) = write_hash_comparison_results(Ok((
        vec![CompareResult::FileAdded("new.txt".to_string())],
        vec![],
    )));
    assert_eq!(
        out,
        vec!["File added: \"new.txt\"".to_string(), "No files to verify".to_string()]
    );
    assert_eq!(err, Error::NoError);
}

#[test]
fn outcome_counts_differing_files() {
    let results = Ok((
        vec![CompareResult::FileIgnored("skip.me".to_string())],
        vec![
            CompareFileResult::FileMatches("a.txt".to_string()),
            CompareFileResult::FileDiffers {
                file: "b.txt".to_string(),
                was_hash: "BBBB".to_string(),
                new_hash: "CCCC".to_string(),
            },
        ],
    ));
    let (out, _, err) = write_hash_comparison_results(results);
    assert_eq!(
        out,
        vec![
            "File ignored, skipping: \"skip.me\"".to_string(),
            "".to_string(),
            "File \"a.txt\" matches".to_string(),
            "File \"b.txt\" doesn't match".to_string(),
            "  Was: BBBB".to_string(),
            "  Is : CCCC".to_string(),
        ]
    );
    assert_eq!(err, Error::NFilesDiffer(1));
    assert_eq!(err.exit_value(), 4);
}

#[test]
fn outcome_groups_structural_changes_by_kind() {
    let results = Ok((
        vec![
            CompareResult::FileRemoved("a".to_string()),
            CompareResult::FileAdded("b".to_string()),
            CompareResult::FileIgnored("c".to_string()),
        ],
        vec![],
    ));
    let (out, _, err) = write_hash_comparison_results(results);
    assert_eq!(
        out,
        vec![
            "File added: \"b\"".to_string(),
            "File removed: \"a\"".to_string(),
            "File ignored, skipping: \"c\"".to_string(),
            "No files to verify".to_string(),
        ]
    );
    assert_eq!(err, Error::NoError);
}

#[test]
fn mismatch_reported_on_error_stream() {
    let results = Err(CompareError::HashLengthDiffers { previous_len: 8, current_len: 4 });
    let (out, err_lines, err) = write_hash_comparison_results(results);
    assert_eq!(out, Vec::<String>::new());
    assert_eq!(err_lines, vec!["Hash lengths do not match; selected: 4, loaded: 8".to_string()]);
    assert_eq!(err, Error::HashLengthDiffers);
    assert_eq!(err.exit_value(), 2);
}
