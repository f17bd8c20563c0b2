use checksums::util::{mul_str, relative_name, str_eq, str_lt, vec_merge};

#[test]
fn vec_merge_concatenates() {
    let vec1 = vec![0];
    let vec2 = vec![1];
    assert_eq!(vec_merge(vec1, vec2), vec![0, 1]);
}

#[test]
fn mul_str_repeats() {
    assert_eq!(mul_str("DIE! ", 3), "DIE! DIE! DIE! ".to_string());
    assert_eq!(mul_str("-", 4), "----".to_string());
    assert_eq!(mul_str("ab", 0), "".to_string());
}

#[test]
fn relative_name_strips_prefix() {
    assert_eq!(relative_name("/usr", "/usr/bin/checksums"), "bin/checksums".to_string());
    assert_eq!(relative_name("/", "/etc"), "etc".to_string());
    assert_eq!(relative_name("C:\\dir", "C:\\dir/sub\\file"), "sub/file".to_string());
}

#[test]
fn string_order_helpers() {
    assert!(str_lt("a", "b"));
    assert!(str_lt("a", "ab"));
    assert!(!str_lt("b", "a"));
    assert!(!str_lt("a", "a"));
    assert!(str_eq("abc", "abc"));
    assert!(!str_eq("abc", "abd"));
    assert!(!str_eq("abc", "ab"));
}
