use checksums::ops::{read_hashes, write_hashes};
use checksums::{Algorithm, HashStore};

fn store_of(pairs: &[(&str, &str)]) -> HashStore {
    let mut s = HashStore::new();
    for (p, h) in pairs {
        s.insert(p.to_string(), h.to_string());
    }
    s
}

#[test]
fn serialized_form_is_aligned_with_self_row() {
    let store = store_of(&[("a.txt", "AB"), ("zz/b", "CD")]);
    let text = write_hashes(&"out.hash".to_string(), Algorithm::XOR8, store);
    assert_eq!(text, "a.txt     AB\nout.hash  --\nzz/b      CD\n");
}

#[test]
fn parse_reads_back_records() {
    let store = read_hashes("a.txt  AAAA\nb.txt    BBBB\n\nzz  CCCC").unwrap();
    assert_eq!(store.len(), 3);
    assert_eq!(store.get("a.txt").unwrap(), "AAAA");
    assert_eq!(store.get("b.txt").unwrap(), "BBBB");
    assert_eq!(store.get("zz").unwrap(), "CCCC");
}

#[test]
fn parse_failure_reports_every_bad_line() {
    // Line numbers are counted from zero, blank lines included.
    let e = read_hashes("a.txt  AAAA\nweird   not-hex-!!\n\nbad line\nb.txt  BBBB\n").unwrap_err();
    assert_eq!(e, vec![1, 3]);
}

#[test]
fn parse_scenario_single_bad_line() {
    let e = read_hashes("weird   not-hex-!!\n").unwrap_err();
    assert_eq!(e, vec![0]);
}

#[test]
fn parse_accepts_hex_and_dashes_only() {
    assert!(read_hashes("a  0123456789abcdefABCDEF-\n").is_ok());
    assert!(read_hashes("a  AAAG\n").is_err());
    // A single separating space is not enough.
    assert!(read_hashes("a AAAA\n").is_err());
    // The path must not be empty.
    assert!(read_hashes("  AAAA\n").is_err());
}

#[test]
fn parse_takes_shortest_path_like_the_pattern() {
    // The hash column is the trailing run of hash characters; anything
    // before the separating white space, dashes included, is the path.
    let store = read_hashes("a  ---  FF\n").unwrap();
    assert_eq!(store.len(), 1);
    assert_eq!(store.get("a  ---").unwrap(), "FF");
}

#[test]
fn parse_strips_carriage_returns() {
    let store = read_hashes("a.txt  AAAA\r\nb.txt  BBBB\r\n").unwrap();
    assert_eq!(store.len(), 2);
    assert_eq!(store.get("a.txt").unwrap(), "AAAA");
}

#[test]
fn parse_keeps_last_record_for_duplicate_path() {
    let store = read_hashes("a.txt  AAAA\na.txt  BBBB\n").unwrap();
    assert_eq!(store.len(), 1);
    assert_eq!(store.get("a.txt").unwrap(), "BBBB");
}

#[test]
fn round_trip_reproduces_store() {
    let store = store_of(&[
        ("a.txt", "A9993E36"),
        ("deep/dir/file.bin", "CBF43926"),
        ("zz -- odd name", "0000FFFF"),
    ]);
    let text = write_hashes(&"out.hash".to_string(), Algorithm::CRC32, store);
    let mut parsed = read_hashes(&text).unwrap();
    assert_eq!(parsed.len(), 4);
    assert_eq!(parsed.get("out.hash").unwrap(), "--------");
    parsed.remove("out.hash");
    assert_eq!(parsed.len(), 3);
    assert_eq!(parsed.get("a.txt").unwrap(), "A9993E36");
    assert_eq!(parsed.get("deep/dir/file.bin").unwrap(), "CBF43926");
    assert_eq!(parsed.get("zz -- odd name").unwrap(), "0000FFFF");
}

#[test]
fn empty_text_parses_to_empty_store() {
    let store = read_hashes("").unwrap();
    assert_eq!(store.len(), 0);
}
