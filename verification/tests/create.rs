use checksums::ops::{assemble_hashes, plan_entry, walk_max_depth, WalkAction};
use checksums::DepthSetting;

#[test]
fn plan_entry_follows_ignore_policy() {
    let ignored = vec!["secret.bin".to_string(), "target".to_string()];
    assert_eq!(plan_entry("a.txt", true, false, &ignored), WalkAction::HashFile);
    assert_eq!(plan_entry("secret.bin", true, false, &ignored), WalkAction::MarkIgnored);
    assert_eq!(plan_entry("target", false, true, &ignored), WalkAction::SkipSubtree);
    assert_eq!(plan_entry("src", false, true, &ignored), WalkAction::Descend);
    // A symlink that is neither file nor directory is walked past.
    assert_eq!(plan_entry("link", false, false, &ignored), WalkAction::Descend);
}

#[test]
fn walk_max_depth_counts_the_root_level() {
    assert_eq!(walk_max_depth(DepthSetting::Infinite), None);
    assert_eq!(walk_max_depth(DepthSetting::LastLevel), Some(1));
    assert_eq!(walk_max_depth(DepthSetting::NRemaining(2)), Some(3));
}

#[test]
fn assemble_combines_hashed_and_ignored() {
    let hashed = vec![
        ("b.txt".to_string(), "BBBB".to_string()),
        ("a.txt".to_string(), "AAAA".to_string()),
    ];
    let ignored = vec!["secret.bin".to_string()];
    let store = assemble_hashes(hashed, ignored, 4);
    assert_eq!(store.len(), 3);
    assert_eq!(store.get("a.txt").unwrap(), "AAAA");
    assert_eq!(store.get("b.txt").unwrap(), "BBBB");
    assert_eq!(store.get("secret.bin").unwrap(), "----");
    assert_eq!(store.path_at(0), "a.txt");
    assert_eq!(store.path_at(2), "secret.bin");
}
