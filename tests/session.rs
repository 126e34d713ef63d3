use gthr::output::{language_hint, save_file_name, OutputFormatter, OutputWriter};
use gthr::state::SelectionState;
use gthr::traversal::DirectoryTraverser;
use gthr::tree::DirectoryTree;
use gthr::ui::{handle_key_event, App, AppAction, AppMode, KeyInput};

fn tree_with(n: usize) -> DirectoryTree {
    let mut tree = DirectoryTree::new("/r".to_string());
    for i in 0..n {
        let p = format!("/r/f{}.txt", i);
        tree.add_node(p, false, "/r", b"x");
    }
    tree
}

#[test]
fn hidden_entries() {
    let t = DirectoryTraverser::new(true, false, 100, false);
    assert!(!t.should_include_entry_by_path("/r/.hidden"));
    assert!(t.should_include_entry_by_path("/r/.gitignore"));
    assert!(t.should_include_entry_by_path("/r/.env.example"));
    assert!(t.should_include_entry_by_path("/r/visible.txt"));
    let shown = DirectoryTraverser::new(true, true, 100, false);
    assert!(shown.should_include_entry_by_path("/r/.hidden"));
}

#[test]
fn add_entry_decisions() {
    let t = DirectoryTraverser::new(true, false, 100, true);
    assert_eq!(t.initial_state(), SelectionState::Included);
    let mut tree = DirectoryTree::new("/r".to_string());
    tree.set_state(0, t.initial_state());
    assert_eq!(t.add_entry(&mut tree, "/r", "/r".to_string(), true, "/r", None, b""), None);
    assert_eq!(t.add_entry(&mut tree, "/r", "/r/.x".to_string(), false, "/r", Some(1), b"x"), None);
    assert_eq!(t.add_entry(&mut tree, "/r", "/r/big.txt".to_string(), false, "/r", Some(101), b"x"), None);
    assert_eq!(t.add_entry(&mut tree, "/r", "/r/ok.txt".to_string(), false, "/r", Some(100), b"x"), Some(1));
    assert_eq!(t.add_entry(&mut tree, "/r", "/r/d".to_string(), true, "/r", None, b""), Some(2));
    assert_eq!(t.add_entry(&mut tree, "/r", "/r/d/y.txt".to_string(), false, "/r/d", Some(3), b"y"), Some(3));
    assert_eq!(tree.len(), 4);
    assert_eq!(tree.nodes[1].size, Some(100));
    assert!(tree.nodes.iter().all(|n| n.state == SelectionState::Included));
    let excl = DirectoryTraverser::new(true, false, 100, false);
    assert_eq!(excl.initial_state(), SelectionState::Excluded);
    assert_eq!(excl.add_entry(&mut tree, "/r", "/r/z.txt".to_string(), false, "/r", None, b"z"), Some(4));
    assert_eq!(tree.nodes[4].state, SelectionState::Excluded);
    assert_eq!(tree.nodes[0].state, SelectionState::Partial);
}

#[test]
fn formatter_builders() {
    let f = OutputFormatter::new();
    assert!(f.include_metadata && !f.include_line_numbers);
    let f = f.with_metadata(false).with_line_numbers(true);
    assert!(!f.include_metadata && f.include_line_numbers);
    let w = OutputWriter::new();
    assert!(w.formatter.include_metadata);
    let w = w.with_formatter(OutputFormatter::new().with_metadata(false));
    assert!(!w.formatter.include_metadata);
}

#[test]
fn navigation_and_scrolling() {
    let mut app = App::new(tree_with(30));
    assert_eq!(app.filtered_results.len(), 31);
    app.move_up();
    assert_eq!(app.selected_index, 0);
    app.move_down();
    assert_eq!(app.selected_index, 1);
    app.page_down();
    assert_eq!(app.selected_index, 20);
    assert_eq!(app.scroll_offset, 1);
    app.move_to_bottom();
    assert_eq!(app.selected_index, 30);
    assert_eq!(app.scroll_offset, 11);
    app.move_down();
    assert_eq!(app.selected_index, 30);
    app.page_up();
    assert_eq!(app.selected_index, 11);
    assert_eq!(app.scroll_offset, 11);
    app.move_to_top();
    assert_eq!(app.selected_index, 0);
    assert_eq!(app.scroll_offset, 0);
    app.page_up();
    assert_eq!(app.selected_index, 0);
}

#[test]
fn search_editing_and_escape() {
    let mut app = App::new(tree_with(12));
    app.move_to_bottom();
    app.add_search_char('f');
    app.add_search_char('1');
    assert_eq!(app.search_query, "f1");
    assert_eq!(app.filtered_results.len(), 3);
    assert!(app.selected_index < 3);
    app.search_backspace();
    assert_eq!(app.search_query, "f");
    app.set_mode(AppMode::Help);
    app.handle_escape();
    assert_eq!(app.mode, AppMode::Main);
    assert_eq!(app.search_query, "f");
    app.handle_escape();
    assert_eq!(app.search_query, "");
    assert!(!app.should_quit);
    app.handle_escape();
    assert!(app.should_quit);
}

#[test]
fn selection_commands_and_stats() {
    let mut app = App::new(tree_with(3));
    app.move_down();
    assert_eq!(app.get_selected_tree_index(), Some(1));
    app.toggle_selection();
    assert_eq!(app.tree.nodes[1].state, SelectionState::Included);
    assert_eq!(app.tree.nodes[0].state, SelectionState::Partial);
    app.tree.set_size(1, Some(10));
    let stats = app.get_stats();
    assert_eq!(stats.total_files, 3);
    assert_eq!(stats.included_files, 1);
    assert_eq!(stats.total_size, 10);
    assert_eq!(stats.filtered_count, 4);
    app.select_all();
    assert!(app.tree.nodes.iter().all(|n| n.state == SelectionState::Included));
    app.select_none();
    assert!(app.tree.nodes.iter().all(|n| n.state == SelectionState::Excluded));
    app.invert_selection();
    assert_eq!(app.tree.nodes[0].state, SelectionState::Excluded);
    app.quit();
    assert!(app.should_quit);
}

#[test]
fn key_bindings() {
    assert_eq!(handle_key_event(KeyInput::Char('e'), true, false), Some(AppAction::Export));
    assert_eq!(handle_key_event(KeyInput::Char('h'), true, false), Some(AppAction::ShowHelp));
    assert_eq!(handle_key_event(KeyInput::Char('j'), true, false), Some(AppAction::MoveDown));
    assert_eq!(handle_key_event(KeyInput::Char('k'), true, false), Some(AppAction::MoveUp));
    assert_eq!(handle_key_event(KeyInput::Char('x'), true, false), None);
    assert_eq!(handle_key_event(KeyInput::Enter, true, false), None);
    assert_eq!(handle_key_event(KeyInput::Char('x'), false, true), Some(AppAction::SearchChar('x')));
    assert_eq!(handle_key_event(KeyInput::Char('X'), false, false), None);
    assert_eq!(handle_key_event(KeyInput::Esc, false, true), Some(AppAction::Escape));
    assert_eq!(handle_key_event(KeyInput::Enter, false, true), Some(AppAction::ToggleSelection));
    assert_eq!(handle_key_event(KeyInput::Left, false, true), Some(AppAction::MoveUp));
    assert_eq!(handle_key_event(KeyInput::Right, false, true), Some(AppAction::MoveDown));
    assert_eq!(handle_key_event(KeyInput::End, false, true), Some(AppAction::MoveToBottom));
    assert_eq!(handle_key_event(KeyInput::Other, false, true), None);
}

#[test]
fn fence_languages() {
    assert_eq!(language_hint("main.rs"), "rust");
    assert_eq!(language_hint("LIB.RS"), "rust");
    assert_eq!(language_hint("x.hpp"), "cpp");
    assert_eq!(language_hint("notes.txt"), "");
    assert_eq!(language_hint("Makefile"), "");
}

#[test]
fn save_names() {
    assert_eq!(save_file_name("", "root_ingest.md".to_string()), "root_ingest.md");
    assert_eq!(save_file_name("out", "d.md".to_string()), "out.md");
    assert_eq!(save_file_name("out.txt", "d.md".to_string()), "out.txt");
}
