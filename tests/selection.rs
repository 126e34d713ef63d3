use gthr::state::SelectionState;
use gthr::tree::DirectoryTree;

const BINARY: &[u8] = &[0x7f, 0x00, 0x01, 0x02, 0x00, 0x03];

fn sample_tree() -> DirectoryTree {
    let mut tree = DirectoryTree::new("/".to_string());
    assert_eq!(tree.add_node("/a.txt".to_string(), false, "/", b"hello"), Some(1));
    assert_eq!(tree.add_node("/b.bin".to_string(), false, "/", BINARY), Some(2));
    assert_eq!(tree.add_node("/sub".to_string(), true, "/", b""), Some(3));
    assert_eq!(tree.add_node("/sub/c.txt".to_string(), false, "/sub", b"c"), Some(4));
    tree
}

fn states(tree: &DirectoryTree) -> Vec<SelectionState> {
    tree.nodes.iter().map(|n| n.state).collect()
}

#[test]
fn toggle_maps_each_state() {
    assert_eq!(SelectionState::Included.toggle(), SelectionState::Excluded);
    assert_eq!(SelectionState::Excluded.toggle(), SelectionState::Included);
    assert_eq!(SelectionState::Partial.toggle(), SelectionState::Included);
}

#[test]
fn state_predicates() {
    assert!(SelectionState::Included.is_included());
    assert!(SelectionState::Partial.is_included());
    assert!(!SelectionState::Excluded.is_included());
    assert!(SelectionState::Excluded.is_excluded());
    assert!(SelectionState::Partial.is_partial());
    assert!(!SelectionState::Included.is_partial());
    assert_eq!(SelectionState::default(), SelectionState::Excluded);
}

#[test]
fn new_tree_has_excluded_root() {
    let tree = DirectoryTree::new("/work/project".to_string());
    assert_eq!(tree.len(), 1);
    let root = tree.get_node(0).unwrap();
    assert_eq!(root.name, "project");
    assert!(root.is_directory);
    assert_eq!(root.state, SelectionState::Excluded);
    assert!(tree.get_node(1).is_none());
}

#[test]
fn add_node_is_idempotent_and_needs_parent() {
    let mut tree = sample_tree();
    assert_eq!(tree.add_node("/sub/c.txt".to_string(), false, "/sub", b"c"), Some(4));
    assert_eq!(tree.len(), 5);
    assert_eq!(tree.add_node("/missing/d.txt".to_string(), false, "/missing", b"d"), None);
    assert_eq!(tree.len(), 5);
    assert_eq!(tree.nodes[3].children, vec![4]);
    assert_eq!(tree.nodes[0].children, vec![1, 2, 3]);
    assert_eq!(tree.nodes[4].parent, Some(3));
    assert_eq!(tree.nodes[4].name, "c.txt");
}

#[test]
fn text_flag_set_on_insertion() {
    let tree = sample_tree();
    assert!(tree.nodes[1].is_text_file);
    assert!(!tree.nodes[2].is_text_file);
    assert!(!tree.nodes[3].is_text_file);
    assert!(tree.nodes[4].is_text_file);
}

#[test]
fn end_to_end_included_files_skip_binary() {
    let mut tree = sample_tree();
    tree.set_state(0, SelectionState::Included);
    assert!(tree.nodes.iter().all(|n| n.state == SelectionState::Included));
    let files: Vec<String> = tree.get_all_included_files().iter().map(|n| n.path.clone()).collect();
    assert_eq!(files, vec!["/a.txt".to_string(), "/sub/c.txt".to_string()]);
}

#[test]
fn directory_included_forces_descendants() {
    let mut tree = sample_tree();
    tree.add_node("/sub/deep".to_string(), true, "/sub", b"");
    tree.add_node("/sub/deep/e.txt".to_string(), false, "/sub/deep", b"e");
    tree.set_state(3, SelectionState::Included);
    for i in [3, 4, 5, 6] {
        assert_eq!(tree.nodes[i].state, SelectionState::Included);
    }
    assert_eq!(tree.nodes[1].state, SelectionState::Excluded);
    assert_eq!(tree.nodes[0].state, SelectionState::Partial);
}

#[test]
fn set_state_twice_is_identical() {
    let mut tree = sample_tree();
    tree.set_state(3, SelectionState::Included);
    let once = states(&tree);
    tree.set_state(3, SelectionState::Included);
    assert_eq!(states(&tree), once);
    tree.set_state(1, SelectionState::Partial);
    let once = states(&tree);
    tree.set_state(1, SelectionState::Partial);
    assert_eq!(states(&tree), once);
}

#[test]
fn dissenting_file_makes_ancestors_partial() {
    let mut tree = DirectoryTree::new("/r".to_string());
    tree.add_node("/r/d".to_string(), true, "/r", b"");
    tree.add_node("/r/d/x.txt".to_string(), false, "/r/d", b"x");
    tree.add_node("/r/d/y.txt".to_string(), false, "/r/d", b"y");
    tree.add_node("/r/d/z.txt".to_string(), false, "/r/d", b"z");
    tree.set_state(0, SelectionState::Included);
    let before = states(&tree);
    tree.toggle_state(3);
    assert_eq!(tree.nodes[3].state, SelectionState::Excluded);
    assert_eq!(tree.nodes[1].state, SelectionState::Partial);
    assert_eq!(tree.nodes[0].state, SelectionState::Partial);
    tree.toggle_state(3);
    assert_eq!(states(&tree), before);
    assert_eq!(tree.nodes[0].state, SelectionState::Included);
}

#[test]
fn aggregation_follows_descendant_files() {
    let mut tree = sample_tree();
    tree.set_state(4, SelectionState::Included);
    assert_eq!(tree.nodes[3].state, SelectionState::Included);
    assert_eq!(tree.nodes[0].state, SelectionState::Partial);
    tree.set_state(1, SelectionState::Included);
    tree.set_state(2, SelectionState::Included);
    assert_eq!(tree.nodes[0].state, SelectionState::Included);
    tree.set_state(0, SelectionState::Excluded);
    assert!(tree.nodes.iter().all(|n| n.state == SelectionState::Excluded));
}

#[test]
fn toggling_partial_resolves_to_included() {
    let mut tree = sample_tree();
    tree.set_state(1, SelectionState::Included);
    assert_eq!(tree.nodes[0].state, SelectionState::Partial);
    tree.toggle_state(0);
    assert!(tree.nodes.iter().all(|n| n.state == SelectionState::Included));
}

#[test]
fn partial_is_not_propagated_down() {
    let mut tree = sample_tree();
    tree.set_state(3, SelectionState::Partial);
    assert_eq!(tree.nodes[3].state, SelectionState::Partial);
    assert_eq!(tree.nodes[4].state, SelectionState::Excluded);
    assert_eq!(tree.nodes[0].state, SelectionState::Partial);
}

#[test]
fn out_of_range_index_changes_nothing() {
    let mut tree = sample_tree();
    let before = states(&tree);
    tree.set_state(99, SelectionState::Included);
    tree.toggle_state(99);
    assert_eq!(states(&tree), before);
    tree.set_size(99, Some(3));
    assert!(tree.get_node(99).is_none());
}

#[test]
fn set_size_records_size() {
    let mut tree = sample_tree();
    tree.set_size(1, Some(5));
    assert_eq!(tree.nodes[1].size, Some(5));
    assert_eq!(tree.nodes[4].size, None);
}

#[test]
fn path_index_survives_growth() {
    let mut tree = DirectoryTree::new("/big".to_string());
    for d in 0..20 {
        let dir = format!("/big/d{}", d);
        assert_eq!(tree.add_node(dir.clone(), true, "/big", b""), Some(1 + d * 26));
        for f in 0..25 {
            let file = format!("{}/f{}.txt", dir, f);
            assert_eq!(tree.add_node(file, false, &dir, b"x"), Some(2 + d * 26 + f));
        }
    }
    assert_eq!(tree.len(), 521);
    assert!(tree.path_buckets.len() >= 256);
    assert_eq!(tree.add_node("/big/d7/f3.txt".to_string(), false, "/big/d7", b"x"), Some(2 + 7 * 26 + 3));
    assert_eq!(tree.add_node("/big/d19".to_string(), true, "/big", b""), Some(1 + 19 * 26));
    assert_eq!(tree.add_node("/big/d99/x.txt".to_string(), false, "/big/d99", b"x"), None);
    assert_eq!(tree.len(), 521);
    tree.set_state(0, SelectionState::Included);
    assert_eq!(tree.get_all_included_files().len(), 500);
}

#[test]
fn get_node_mut_gives_access() {
    let mut tree = sample_tree();
    if let Some(node) = tree.get_node_mut(4) {
        node.size = Some(12);
    }
    assert_eq!(tree.nodes[4].size, Some(12));
    assert!(tree.get_node_mut(5).is_none());
}
