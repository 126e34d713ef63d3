use gthr::patterns::{apply_patterns, glob_to_regex, path_matches_pattern};
use gthr::state::SelectionState;
use gthr::tree::DirectoryTree;

#[test]
fn match_all_pattern() {
    assert!(path_matches_pattern("src/main.rs", "**/*"));
    assert!(path_matches_pattern("", "**/*"));
    assert!(path_matches_pattern("a/b/c/d", "**/*"));
}

#[test]
fn suffix_pattern() {
    assert!(path_matches_pattern("src/main.rs", "*.rs"));
    assert!(!path_matches_pattern("src/main.rs.bak", "*.rs"));
}

#[test]
fn prefix_pattern() {
    assert!(path_matches_pattern("src/main.rs", "src/*"));
    assert!(!path_matches_pattern("tests/main.rs", "src/*"));
}

#[test]
fn wildcard_translation() {
    assert_eq!(glob_to_regex("a.b*?**"), "a\\.b[^/]*..*");
    assert_eq!(glob_to_regex("plain"), "plain");
}

#[test]
fn wildcard_patterns_use_regex() {
    assert!(path_matches_pattern("src/main.rs", "src/?ain.rs"));
    assert!(!path_matches_pattern("src/a/main.rs", "src/?ain.rs"));
    assert!(path_matches_pattern("src/a/b/x.rs", "src/**/x.rs"));
    assert!(path_matches_pattern("src/mod.rs", "s*c/mod.rs"));
    assert!(!path_matches_pattern("sx/y/c/mod.rs", "s*c/mod.rs"));
    assert!(!path_matches_pattern("srcXrs", "src.rs"));
}

#[test]
fn malformed_pattern_falls_back_to_equality() {
    assert!(path_matches_pattern("a(b", "a(b"));
    assert!(!path_matches_pattern("ab", "a(b"));
}

fn bin_tree() -> DirectoryTree {
    let mut tree = DirectoryTree::new("/r".to_string());
    tree.add_node("/r/a.txt".to_string(), false, "/r", b"a");
    tree.add_node("/r/b.bin".to_string(), false, "/r", &[0u8]);
    tree.add_node("/r/sub".to_string(), true, "/r", b"");
    tree.add_node("/r/sub/c.rs".to_string(), false, "/r/sub", b"c");
    tree.add_node("/r/sub/d.bin".to_string(), false, "/r/sub", &[0u8]);
    tree.add_node("/r/only".to_string(), true, "/r", b"");
    tree.add_node("/r/only/e.md".to_string(), false, "/r/only", b"e");
    tree
}

#[test]
fn exclusion_only_patterns() {
    let mut tree = bin_tree();
    apply_patterns(&mut tree, &[], &["*.bin".to_string()]);
    assert_eq!(tree.nodes[1].state, SelectionState::Included);
    assert_eq!(tree.nodes[2].state, SelectionState::Excluded);
    assert_eq!(tree.nodes[4].state, SelectionState::Included);
    assert_eq!(tree.nodes[5].state, SelectionState::Excluded);
    assert_eq!(tree.nodes[7].state, SelectionState::Included);
    assert_eq!(tree.nodes[6].state, SelectionState::Included);
    assert_eq!(tree.nodes[3].state, SelectionState::Partial);
    assert_eq!(tree.nodes[0].state, SelectionState::Partial);
}

#[test]
fn inclusion_patterns_select_matches() {
    let mut tree = bin_tree();
    apply_patterns(&mut tree, &["*.rs".to_string(), "e.md".to_string()], &[]);
    assert_eq!(tree.nodes[1].state, SelectionState::Excluded);
    assert_eq!(tree.nodes[4].state, SelectionState::Included);
    assert_eq!(tree.nodes[7].state, SelectionState::Included);
    assert_eq!(tree.nodes[6].state, SelectionState::Included);
}

#[test]
fn exclusion_wins_over_inclusion() {
    let mut tree = bin_tree();
    apply_patterns(&mut tree, &["**/*".to_string()], &["sub/*".to_string()]);
    assert_eq!(tree.nodes[1].state, SelectionState::Included);
    assert_eq!(tree.nodes[4].state, SelectionState::Excluded);
    assert_eq!(tree.nodes[5].state, SelectionState::Excluded);
    assert_eq!(tree.nodes[3].state, SelectionState::Excluded);
}
