use gthr::filter::{filter_tree_nodes, get_node_display_path, FilteredResults};
use gthr::matcher::{search_items, FuzzySearch, MatchResult};
use gthr::tree::DirectoryTree;

fn strings(items: &[&str]) -> Vec<String> {
    items.iter().map(|s| s.to_string()).collect()
}

#[test]
fn test_fuzzy_search() {
    let fuzzy = FuzzySearch::new();

    let result = fuzzy.search("rs", "main.rs");
    assert!(result.is_some());

    let (score, indices) = result.unwrap();
    assert!(score > 0);
    assert_eq!(indices, vec![5, 6]);
}

#[test]
fn test_search_items() {
    let items = strings(&["main.rs", "lib.rs", "config.toml", "README.md"]);
    let results = search_items(&items, "rs");

    assert_eq!(results.len(), 2);
    assert!(results[0].score >= results[1].score);
}

#[test]
fn search_items_empty_query_is_identity() {
    let items = strings(&["b", "a", "c"]);
    let results = search_items(&items, "");
    assert_eq!(results.len(), 3);
    for (k, m) in results.iter().enumerate() {
        assert_eq!(m.item_index, k);
        assert_eq!(m.score, 0);
        assert!(m.indices.is_empty());
    }
}

#[test]
fn search_items_orders_by_score_then_input() {
    let items = strings(&["xaxbx", "ab", "zzz", "ab", "a_b"]);
    let results = search_items(&items, "ab");
    let idx: Vec<usize> = results.iter().map(|m| m.item_index).collect();
    assert!(!idx.contains(&2));
    assert_eq!(results.len(), 4);
    for w in results.windows(2) {
        assert!(w[0].score > w[1].score || (w[0].score == w[1].score && w[0].item_index < w[1].item_index));
    }
    let first = idx.iter().position(|&i| i == 1).unwrap();
    let second = idx.iter().position(|&i| i == 3).unwrap();
    assert_eq!(second, first + 1);
}

#[test]
fn match_result_new_keeps_fields() {
    let m = MatchResult::new(7, vec![1, 2], 3);
    assert_eq!(m.score, 7);
    assert_eq!(m.indices, vec![1, 2]);
    assert_eq!(m.item_index, 3);
}

#[test]
fn test_filter_empty_query() {
    let tree = DirectoryTree::new("/tmp/project".to_string());

    let results = filter_tree_nodes(&tree, "");
    assert_eq!(results.len(), 1);
}

fn mixed_tree() -> DirectoryTree {
    let mut tree = DirectoryTree::new("/p".to_string());
    tree.add_node("/p/src".to_string(), true, "/p", b"");
    tree.add_node("/p/src/main.rs".to_string(), false, "/p/src", b"fn main() {}");
    tree.add_node("/p/blob".to_string(), false, "/p", &[0u8, 1, 2]);
    tree.add_node("/p/README.md".to_string(), false, "/p", b"# Title");
    tree
}

#[test]
fn empty_query_lists_searchable_nodes() {
    let tree = mixed_tree();
    let results = filter_tree_nodes(&tree, "");
    assert_eq!(results.visible_items, vec![0, 1, 2, 4]);
    assert!(results.matches.iter().all(|m| m.score == 0));
    assert!(!results.is_empty());
}

#[test]
fn query_matches_relative_paths() {
    let tree = mixed_tree();
    let results = filter_tree_nodes(&tree, "main");
    assert_eq!(results.visible_items, vec![2]);
    let none = filter_tree_nodes(&tree, "qqq");
    assert!(none.is_empty());
    assert_eq!(none.len(), 0);
    let blob = filter_tree_nodes(&tree, "blob");
    assert!(blob.visible_items.is_empty());
}

#[test]
fn display_paths() {
    let tree = mixed_tree();
    assert_eq!(get_node_display_path(&tree, 0), "");
    assert_eq!(get_node_display_path(&tree, 2), "src/main.rs");
    assert_eq!(get_node_display_path(&tree, 42), "");
}

#[test]
fn filtered_results_new_is_empty() {
    let r = FilteredResults::new();
    assert!(r.is_empty());
    assert_eq!(r.len(), 0);
}

#[test]
fn score_without_positions() {
    let fuzzy = FuzzySearch::new();
    assert_eq!(fuzzy.search_score("", "anything"), Some(0));
    assert!(fuzzy.search_score("zz", "main.rs").is_none());
    let with_positions = fuzzy.search("mrs", "main.rs").unwrap().0;
    assert!(with_positions > 0);
    assert!(fuzzy.search_score("mrs", "main.rs").unwrap() > 0);
}
