use vstd::prelude::*;
use crate::filter::{filter_post, filter_tree_nodes, FilteredResults};
use crate::state::SelectionState;
use crate::theorems::{lemma_uniform_subtree_kept, uniform_below};
use crate::tree::{files_below, parents, DirectoryTree, FileNode};

verus! {

/// Relies on `String::push`: appends one character.
#[verifier::external_body]
fn push_char(s: &mut String, c: char)
    ensures
        final(s)@ == old(s)@.push(c),
{
    s.push(c);
}

/// Relies on `String::pop`: removes the last character, if any.
#[verifier::external_body]
fn pop_char(s: &mut String)
    ensures
        old(s)@.len() > 0 ==> final(s)@ == old(s)@.drop_last(),
        old(s)@.len() == 0 ==> final(s)@.len() == 0,
{
    s.pop();
}

#[derive(Debug, Clone, Copy, PartialEq, Eq, Structural)]
pub enum AppMode {
    Main,
    Help,
}

/// What a key press asks of the interface.
#[derive(Debug, Clone, Copy, PartialEq, Eq, Structural)]
pub enum AppAction {
    Escape,
    ToggleSelection,
    MoveUp,
    MoveDown,
    PageUp,
    PageDown,
    MoveToTop,
    MoveToBottom,
    Export,
    ShowHelp,
    SearchChar(char),
    SearchBackspace,
}

/// A key as the interface reads it.
#[derive(Debug, Clone, Copy, PartialEq, Eq, Structural)]
pub enum KeyInput {
    Char(char),
    Esc,
    Enter,
    Backspace,
    Up,
    Down,
    Left,
    Right,
    PageUp,
    PageDown,
    Home,
    End,
    Other,
}

/// Action bound to a key: with Control, `e` exports, `h` shows help, `j` and
/// `k` move; other Control combinations do nothing. Without Control, the
/// named keys navigate, Escape and Enter act, and a character typed with no
/// modifier extends the search.
pub open spec fn key_action(key: KeyInput, control: bool, no_modifiers: bool) -> Option<AppAction> {
    if control {
        match key {
            KeyInput::Char('e') => Some(AppAction::Export),
            KeyInput::Char('h') => Some(AppAction::ShowHelp),
            KeyInput::Char('j') => Some(AppAction::MoveDown),
            KeyInput::Char('k') => Some(AppAction::MoveUp),
            _ => None,
        }
    } else {
        match key {
            KeyInput::Esc => Some(AppAction::Escape),
            KeyInput::Enter => Some(AppAction::ToggleSelection),
            KeyInput::Backspace => Some(AppAction::SearchBackspace),
            KeyInput::Up | KeyInput::Left => Some(AppAction::MoveUp),
            KeyInput::Down | KeyInput::Right => Some(AppAction::MoveDown),
            KeyInput::PageUp => Some(AppAction::PageUp),
            KeyInput::PageDown => Some(AppAction::PageDown),
            KeyInput::Home => Some(AppAction::MoveToTop),
            KeyInput::End => Some(AppAction::MoveToBottom),
            KeyInput::Char(c) => if no_modifiers {
                Some(AppAction::SearchChar(c))
            } else {
                None
            },
            KeyInput::Other => None,
        }
    }
}

/// The action for a key press; `control` tells whether Control was held and
/// `no_modifiers` whether no modifier at all was.
pub fn handle_key_event(key: KeyInput, control: bool, no_modifiers: bool) -> (r: Option<AppAction>)
    ensures
        r == key_action(key, control, no_modifiers),
{
    if control {
        return match key {
            KeyInput::Char('e') => Some(AppAction::Export),
            KeyInput::Char('h') => Some(AppAction::ShowHelp),
            KeyInput::Char('j') => Some(AppAction::MoveDown),
            KeyInput::Char('k') => Some(AppAction::MoveUp),
            _ => None,
        };
    }
    match key {
        KeyInput::Esc => Some(AppAction::Escape),
        KeyInput::Enter => Some(AppAction::ToggleSelection),
        KeyInput::Backspace => Some(AppAction::SearchBackspace),
        KeyInput::Up | KeyInput::Left => Some(AppAction::MoveUp),
        KeyInput::Down | KeyInput::Right => Some(AppAction::MoveDown),
        KeyInput::PageUp => Some(AppAction::PageUp),
        KeyInput::PageDown => Some(AppAction::PageDown),
        KeyInput::Home => Some(AppAction::MoveToTop),
        KeyInput::End => Some(AppAction::MoveToBottom),
        KeyInput::Char(c) => if no_modifiers {
            Some(AppAction::SearchChar(c))
        } else {
            None
        },
        KeyInput::Other => None,
    }
}

/// Source of key events; the events themselves are read outside the library.
pub struct EventHandler {}

impl EventHandler {
    pub fn new() -> (r: Self) {
        EventHandler {}
    }
}

/// Counts shown in the status bar.
pub struct AppStats {
    pub total_files: usize,
    pub included_files: usize,
    pub total_size: u64,
    pub filtered_count: usize,
}

/// Interactive session state: the tree, the current query view, and the
/// cursor within it.
pub struct App {
    pub tree: DirectoryTree,
    pub filtered_results: FilteredResults,
    pub selected_index: usize,
    pub scroll_offset: usize,
    pub search_query: String,
    pub mode: AppMode,
    pub should_quit: bool,
    pub viewport_height: usize,
}

/// First visible row after moving the cursor to `sel`: the view scrolls just
/// enough to show the cursor.
pub open spec fn scroll_for(sel: int, scroll: int, height: int) -> int {
    if sel < scroll {
        sel
    } else if sel >= scroll + height {
        sel - (height - 1)
    } else {
        scroll
    }
}

/// Sum of the known sizes of the listed nodes.
pub open spec fn size_sum(nodes: Seq<FileNode>, idx: Seq<usize>) -> nat
    decreases idx.len(),
{
    if idx.len() == 0 {
        0
    } else {
        size_sum(nodes, idx.drop_last()) + match nodes[idx.last() as int].size {
            Some(s) => s as nat,
            None => 0,
        }
    }
}

/// Number of text files among the first `k` nodes.
pub open spec fn text_file_count(nodes: Seq<FileNode>, k: int) -> nat
    decreases k,
{
    if k <= 0 {
        0
    } else {
        text_file_count(nodes, k - 1) + if !nodes[k - 1].is_directory && nodes[k - 1].is_text_file {
            1nat
        } else {
            0nat
        }
    }
}

impl App {
    pub open spec fn wf(&self) -> bool {
        &&& self.tree.wf()
        &&& self.viewport_height >= 1
        &&& self.filtered_results.visible_items@.len() == self.filtered_results.matches@.len()
        &&& forall|k: int|
            0 <= k < self.filtered_results.visible_items@.len() ==> (#[trigger] self.filtered_results.visible_items@[k]
                as int) < self.tree.nodes@.len()
    }

    pub open spec fn count(&self) -> int {
        self.filtered_results.matches@.len() as int
    }

    /// A session over `tree`, showing every searchable node.
    pub fn new(tree: DirectoryTree) -> (r: Self)
        requires
            tree.wf(),
        ensures
            r.wf(),
            r.tree == tree,
            filter_post(tree.nodes@, Seq::empty(), r.filtered_results),
            r.selected_index == 0,
            r.scroll_offset == 0,
            r.search_query@.len() == 0,
            r.mode == AppMode::Main,
            !r.should_quit,
            r.viewport_height == 20,
    {
        let mut app = App {
            filtered_results: FilteredResults::new(),
            tree,
            selected_index: 0,
            scroll_offset: 0,
            search_query: String::new(),
            mode: AppMode::Main,
            should_quit: false,
            viewport_height: 20,
        };
        app.update_filtered_results();
        app
    }

    /// Re-runs the query, keeps the cursor inside the results, and scrolls to it.
    pub fn update_filtered_results(&mut self)
        requires
            old(self).tree.wf(),
            old(self).viewport_height >= 1,
        ensures
            final(self).wf(),
            final(self).tree == old(self).tree,
            final(self).search_query == old(self).search_query,
            final(self).mode == old(self).mode,
            final(self).should_quit == old(self).should_quit,
            final(self).viewport_height == old(self).viewport_height,
            filter_post(final(self).tree.nodes@, final(self).search_query@, final(self).filtered_results),
            final(self).selected_index == if old(self).selected_index >= final(self).count() && final(self).count() > 0 {
                final(self).count() - 1
            } else {
                old(self).selected_index as int
            },
            final(self).scroll_offset == scroll_for(
                final(self).selected_index as int,
                old(self).scroll_offset as int,
                old(self).viewport_height as int,
            ),
    {
        self.filtered_results = filter_tree_nodes(&self.tree, self.search_query.as_str());
        if self.selected_index >= self.filtered_results.len() && !self.filtered_results.is_empty() {
            self.selected_index = self.filtered_results.len() - 1;
        }
        self.update_scroll();
    }

    /// Scrolls just enough to show the cursor.
    fn update_scroll(&mut self)
        requires
            old(self).viewport_height >= 1,
        ensures
            final(self).scroll_offset == scroll_for(
                old(self).selected_index as int,
                old(self).scroll_offset as int,
                old(self).viewport_height as int,
            ),
            final(self).tree == old(self).tree,
            final(self).filtered_results == old(self).filtered_results,
            final(self).selected_index == old(self).selected_index,
            final(self).search_query == old(self).search_query,
            final(self).mode == old(self).mode,
            final(self).should_quit == old(self).should_quit,
            final(self).viewport_height == old(self).viewport_height,
    {
        let viewport_height = self.viewport_height;
        if self.selected_index < self.scroll_offset {
            self.scroll_offset = self.selected_index;
        } else if self.selected_index - self.scroll_offset >= viewport_height {
            self.scroll_offset = self.selected_index - (viewport_height - 1);
        }
    }

    pub fn move_up(&mut self)
        requires
            old(self).wf(),
        ensures
            final(self).wf(),
            final(self).tree == old(self).tree,
            final(self).filtered_results == old(self).filtered_results,
            old(self).selected_index > 0 ==> final(self).selected_index == old(self).selected_index - 1
                && final(self).scroll_offset == scroll_for(
                final(self).selected_index as int,
                old(self).scroll_offset as int,
                old(self).viewport_height as int,
            ),
            old(self).selected_index == 0 ==> final(self).selected_index == 0 && final(self).scroll_offset
                == old(self).scroll_offset,
    {
        if self.selected_index > 0 {
            self.selected_index = self.selected_index - 1;
            self.update_scroll();
        }
    }

    pub fn move_down(&mut self)
        requires
            old(self).wf(),
        ensures
            final(self).wf(),
            final(self).tree == old(self).tree,
            final(self).filtered_results == old(self).filtered_results,
            old(self).selected_index + 1 < old(self).count() ==> final(self).selected_index == old(self).selected_index
                + 1 && final(self).scroll_offset == scroll_for(
                final(self).selected_index as int,
                old(self).scroll_offset as int,
                old(self).viewport_height as int,
            ),
            old(self).selected_index + 1 >= old(self).count() ==> final(self).selected_index
                == old(self).selected_index && final(self).scroll_offset == old(self).scroll_offset,
    {
        if self.selected_index < self.filtered_results.len() && self.selected_index + 1 < self.filtered_results.len() {
            self.selected_index = self.selected_index + 1;
            self.update_scroll();
        }
    }

    /// Moves the cursor up by one page (the viewport height less one row).
    pub fn page_up(&mut self)
        requires
            old(self).wf(),
        ensures
            final(self).wf(),
            final(self).tree == old(self).tree,
            final(self).filtered_results == old(self).filtered_results,
            final(self).selected_index == if old(self).selected_index >= old(self).viewport_height - 1 {
                old(self).selected_index - (old(self).viewport_height - 1)
            } else {
                0
            },
            final(self).scroll_offset == scroll_for(
                final(self).selected_index as int,
                old(self).scroll_offset as int,
                old(self).viewport_height as int,
            ),
    {
        let page_size = self.viewport_height - 1;
        self.selected_index = if self.selected_index >= page_size {
            self.selected_index - page_size
        } else {
            0
        };
        self.update_scroll();
    }

    /// Moves the cursor down by one page, stopping at the last result.
    pub fn page_down(&mut self)
        requires
            old(self).wf(),
        ensures
            final(self).wf(),
            final(self).tree == old(self).tree,
            final(self).filtered_results == old(self).filtered_results,
            ({
                let last = if old(self).count() > 0 {
                    old(self).count() - 1
                } else {
                    0
                };
                let target = old(self).selected_index + (old(self).viewport_height - 1);
                final(self).selected_index == if target < last {
                    target
                } else {
                    last
                }
            }),
            final(self).scroll_offset == scroll_for(
                final(self).selected_index as int,
                old(self).scroll_offset as int,
                old(self).viewport_height as int,
            ),
    {
        let page_size = self.viewport_height - 1;
        let n = self.filtered_results.len();
        let last = if n > 0 {
            n - 1
        } else {
            0
        };
        self.selected_index = if self.selected_index >= last {
            last
        } else if page_size >= last - self.selected_index {
            last
        } else {
            self.selected_index + page_size
        };
        self.update_scroll();
    }

    pub fn move_to_top(&mut self)
        requires
            old(self).wf(),
        ensures
            final(self).wf(),
            final(self).tree == old(self).tree,
            final(self).filtered_results == old(self).filtered_results,
            final(self).selected_index == 0,
            final(self).scroll_offset == scroll_for(0, old(self).scroll_offset as int, old(self).viewport_height as int),
    {
        self.selected_index = 0;
        self.update_scroll();
    }

    pub fn move_to_bottom(&mut self)
        requires
            old(self).wf(),
        ensures
            final(self).wf(),
            final(self).tree == old(self).tree,
            final(self).filtered_results == old(self).filtered_results,
            old(self).count() > 0 ==> final(self).selected_index == old(self).count() - 1
                && final(self).scroll_offset == scroll_for(
                final(self).selected_index as int,
                old(self).scroll_offset as int,
                old(self).viewport_height as int,
            ),
            old(self).count() == 0 ==> final(self).selected_index == old(self).selected_index
                && final(self).scroll_offset == old(self).scroll_offset,
    {
        if !self.filtered_results.is_empty() {
            self.selected_index = self.filtered_results.len() - 1;
            self.update_scroll();
        }
    }

    /// Arena index of the node under the cursor.
    pub fn get_selected_tree_index(&self) -> (r: Option<usize>)
        ensures
            r == if (self.selected_index as int) < self.filtered_results.visible_items@.len() {
                Some(self.filtered_results.visible_items@[self.selected_index as int])
            } else {
                None::<usize>
            },
    {
        if self.selected_index < self.filtered_results.visible_items.len() {
            Some(self.filtered_results.visible_items[self.selected_index])
        } else {
            None
        }
    }

    /// Toggles the node under the cursor.
    pub fn toggle_selection(&mut self)
        requires
            old(self).wf(),
        ensures
            final(self).wf(),
            final(self).tree.nodes@.len() == old(self).tree.nodes@.len(),
            final(self).filtered_results == old(self).filtered_results,
            match old(self).get_selected_index_spec() {
                Some(t) => crate::tree::set_state_post(
                    old(self).tree.nodes@,
                    final(self).tree.nodes@,
                    t as int,
                    crate::state::toggled(old(self).tree.nodes@[t as int].state),
                ),
                None => final(self).tree.nodes@ == old(self).tree.nodes@,
            },
            old(self).tree.consistent() ==> final(self).tree.consistent(),
    {
        match self.get_selected_tree_index() {
            Some(t) => {
                self.tree.toggle_state(t);
            },
            None => {},
        }
    }

    pub open spec fn get_selected_index_spec(&self) -> Option<usize> {
        if (self.selected_index as int) < self.filtered_results.visible_items@.len() {
            Some(self.filtered_results.visible_items@[self.selected_index as int])
        } else {
            None
        }
    }

    /// Sets every listed node to `state`, in list order.
    fn set_all_visible(&mut self, state: SelectionState)
        requires
            old(self).wf(),
            state != SelectionState::Partial,
        ensures
            final(self).wf(),
            final(self).tree.nodes@.len() == old(self).tree.nodes@.len(),
            crate::tree::same_but_state(old(self).tree.nodes@, final(self).tree.nodes@),
            final(self).filtered_results == old(self).filtered_results,
            old(self).tree.consistent() ==> final(self).tree.consistent(),
            forall|k: int|
                0 <= k < final(self).filtered_results.visible_items@.len() ==> uniform_below(
                    final(self).tree.nodes@,
                    #[trigger] final(self).filtered_results.visible_items@[k] as int,
                    state,
                ),
    {
        let n = self.filtered_results.visible_items.len();
        let mut k: usize = 0;
        while k < n
            invariant
                self.wf(),
                n == self.filtered_results.visible_items@.len(),
                self.filtered_results == old(self).filtered_results,
                self.viewport_height == old(self).viewport_height,
                self.tree.nodes@.len() == old(self).tree.nodes@.len(),
                crate::tree::same_but_state(old(self).tree.nodes@, self.tree.nodes@),
                k <= n,
                state != SelectionState::Partial,
                old(self).tree.consistent() ==> self.tree.consistent(),
                forall|j: int|
                    0 <= j < k ==> uniform_below(
                        self.tree.nodes@,
                        #[trigger] self.filtered_results.visible_items@[j] as int,
                        state,
                    ),
            decreases n - k,
        {
            let t = self.filtered_results.visible_items[k];
            let ghost before = self.tree.nodes@;
            self.tree.set_state(t, state);
            proof {
                crate::tree::lemma_same_shape(old(self).tree.nodes@, before);
                assert forall|j: int| 0 <= j < k + 1 implies uniform_below(
                    self.tree.nodes@,
                    #[trigger] self.filtered_results.visible_items@[j] as int,
                    state,
                ) by {
                    let v = self.filtered_results.visible_items@[j] as int;
                    if j < k {
                        lemma_uniform_subtree_kept(before, self.tree.nodes@, t as int, state, v);
                    } else {
                        assert(parents(self.tree.nodes@) =~= parents(before));
                    }
                }
                assert forall|j: int| 0 <= j < before.len() implies #[trigger] self.tree.nodes@[j].path == old(self).tree.nodes@[j].path by {
                    assert(before[j].path == old(self).tree.nodes@[j].path);
                }
            }
            k = k + 1;
        }
    }

    /// Includes every listed node, with its whole subtree.
    pub fn select_all(&mut self)
        requires
            old(self).wf(),
        ensures
            final(self).wf(),
            forall|k: int|
                0 <= k < final(self).filtered_results.visible_items@.len() ==> uniform_below(
                    final(self).tree.nodes@,
                    #[trigger] final(self).filtered_results.visible_items@[k] as int,
                    SelectionState::Included,
                ),
            crate::tree::same_but_state(old(self).tree.nodes@, final(self).tree.nodes@),
            final(self).filtered_results == old(self).filtered_results,
            old(self).tree.consistent() ==> final(self).tree.consistent(),
    {
        self.set_all_visible(SelectionState::Included);
    }

    /// Excludes every listed node, with its whole subtree.
    pub fn select_none(&mut self)
        requires
            old(self).wf(),
        ensures
            final(self).wf(),
            forall|k: int|
                0 <= k < final(self).filtered_results.visible_items@.len() ==> uniform_below(
                    final(self).tree.nodes@,
                    #[trigger] final(self).filtered_results.visible_items@[k] as int,
                    SelectionState::Excluded,
                ),
            crate::tree::same_but_state(old(self).tree.nodes@, final(self).tree.nodes@),
            final(self).filtered_results == old(self).filtered_results,
            old(self).tree.consistent() ==> final(self).tree.consistent(),
    {
        self.set_all_visible(SelectionState::Excluded);
    }

    /// Toggles every listed node, in list order.
    pub fn invert_selection(&mut self)
        requires
            old(self).wf(),
        ensures
            final(self).wf(),
            crate::tree::same_but_state(old(self).tree.nodes@, final(self).tree.nodes@),
            final(self).filtered_results == old(self).filtered_results,
            old(self).tree.consistent() ==> final(self).tree.consistent(),
    {
        let n = self.filtered_results.visible_items.len();
        let mut k: usize = 0;
        while k < n
            invariant
                self.wf(),
                n == self.filtered_results.visible_items@.len(),
                self.filtered_results == old(self).filtered_results,
                crate::tree::same_but_state(old(self).tree.nodes@, self.tree.nodes@),
                k <= n,
                old(self).tree.consistent() ==> self.tree.consistent(),
            decreases n - k,
        {
            let t = self.filtered_results.visible_items[k];
            let ghost before = self.tree.nodes@;
            self.tree.toggle_state(t);
            proof {
                assert forall|j: int| 0 <= j < before.len() implies #[trigger] self.tree.nodes@[j].path == old(self).tree.nodes@[j].path by {
                    assert(before[j].path == old(self).tree.nodes@[j].path);
                }
            }
            k = k + 1;
        }
    }

    /// Appends a character to the query and re-runs it.
    pub fn add_search_char(&mut self, c: char)
        requires
            old(self).wf(),
        ensures
            final(self).wf(),
            final(self).tree == old(self).tree,
            final(self).search_query@ == old(self).search_query@.push(c),
            filter_post(final(self).tree.nodes@, final(self).search_query@, final(self).filtered_results),
    {
        push_char(&mut self.search_query, c);
        self.update_filtered_results();
    }

    /// Drops the last character of the query and re-runs it.
    pub fn search_backspace(&mut self)
        requires
            old(self).wf(),
        ensures
            final(self).wf(),
            final(self).tree == old(self).tree,
            old(self).search_query@.len() > 0 ==> final(self).search_query@ == old(self).search_query@.drop_last(),
            old(self).search_query@.len() == 0 ==> final(self).search_query@.len() == 0,
            filter_post(final(self).tree.nodes@, final(self).search_query@, final(self).filtered_results),
    {
        pop_char(&mut self.search_query);
        self.update_filtered_results();
    }

    /// Empties the query and shows every searchable node again.
    pub fn clear_search(&mut self)
        requires
            old(self).wf(),
        ensures
            final(self).wf(),
            final(self).tree == old(self).tree,
            final(self).search_query@.len() == 0,
            final(self).should_quit == old(self).should_quit,
            final(self).mode == old(self).mode,
            filter_post(final(self).tree.nodes@, Seq::empty(), final(self).filtered_results),
    {
        self.search_query = String::new();
        self.update_filtered_results();
    }

    pub fn set_mode(&mut self, mode: AppMode)
        ensures
            final(self).mode == mode,
            final(self).tree == old(self).tree,
            final(self).filtered_results == old(self).filtered_results,
            final(self).selected_index == old(self).selected_index,
            final(self).scroll_offset == old(self).scroll_offset,
            final(self).search_query == old(self).search_query,
            final(self).should_quit == old(self).should_quit,
            final(self).viewport_height == old(self).viewport_height,
    {
        self.mode = mode;
    }

    pub fn quit(&mut self)
        ensures
            final(self).should_quit,
            final(self).tree == old(self).tree,
            final(self).filtered_results == old(self).filtered_results,
            final(self).selected_index == old(self).selected_index,
            final(self).scroll_offset == old(self).scroll_offset,
            final(self).search_query == old(self).search_query,
            final(self).mode == old(self).mode,
            final(self).viewport_height == old(self).viewport_height,
    {
        self.should_quit = true;
    }

    /// Escape leaves the help screen, else clears a non-empty query, else quits.
    pub fn handle_escape(&mut self)
        requires
            old(self).wf(),
        ensures
            final(self).wf(),
            final(self).tree == old(self).tree,
            old(self).mode == AppMode::Help ==> final(self).mode == AppMode::Main && !final(self).should_quit
                == !old(self).should_quit && final(self).search_query == old(self).search_query,
            old(self).mode != AppMode::Help && old(self).search_query@.len() > 0 ==> final(self).search_query@.len() == 0
                && final(self).should_quit == old(self).should_quit && filter_post(
                final(self).tree.nodes@,
                Seq::empty(),
                final(self).filtered_results,
            ),
            old(self).mode != AppMode::Help && old(self).search_query@.len() == 0 ==> final(self).should_quit
                && final(self).search_query == old(self).search_query,
    {
        if self.mode == AppMode::Help {
            self.mode = AppMode::Main;
        } else if self.search_query.as_str().unicode_len() > 0 {
            self.clear_search();
        } else {
            self.quit();
        }
    }

    /// Counts for the status bar: text files in the tree, selected files and
    /// their total known size (saturating at the largest `u64`), and results.
    pub fn get_stats(&self) -> (r: AppStats)
        requires
            self.wf(),
        ensures
            r.total_files == text_file_count(self.tree.nodes@, self.tree.nodes@.len() as int),
            r.included_files == files_below(self.tree.nodes@, 0).len(),
            r.total_size as nat == if size_sum(self.tree.nodes@, files_below(self.tree.nodes@, 0)) > u64::MAX {
                u64::MAX as nat
            } else {
                size_sum(self.tree.nodes@, files_below(self.tree.nodes@, 0))
            },
            r.filtered_count == self.count(),
    {
        let ghost nodes = self.tree.nodes@;
        let mut total_files: usize = 0;
        let mut i: usize = 0;
        while i < self.tree.nodes.len()
            invariant
                nodes == self.tree.nodes@,
                i <= nodes.len(),
                total_files == text_file_count(nodes, i as int),
                total_files <= i,
            decreases nodes.len() - i,
        {
            if !self.tree.nodes[i].is_directory && self.tree.nodes[i].is_text_file {
                total_files = total_files + 1;
            }
            i = i + 1;
        }
        let files = self.tree.get_all_included_files();
        let ghost idx = files_below(nodes, 0);
        let mut total_size: u64 = 0;
        let mut k: usize = 0;
        while k < files.len()
            invariant
                nodes == self.tree.nodes@,
                files@.len() == idx.len(),
                forall|j: int| 0 <= j < files@.len() ==> *(#[trigger] files@[j]) == nodes[idx[j] as int],
                k <= files@.len(),
                total_size as nat == if size_sum(nodes, idx.take(k as int)) > u64::MAX {
                    u64::MAX as nat
                } else {
                    size_sum(nodes, idx.take(k as int))
                },
            decreases files@.len() - k,
        {
            proof {
                assert(idx.take(k + 1 as int).drop_last() =~= idx.take(k as int));
                assert(idx.take(k + 1 as int).last() == idx[k as int]);
            }
            match files[k].size {
                Some(s) => {
                    total_size = if s > u64::MAX - total_size {
                        u64::MAX
                    } else {
                        total_size + s
                    };
                },
                None => {},
            }
            k = k + 1;
        }
        proof {
            assert(idx.take(files@.len() as int) =~= idx);
        }
        AppStats {
            total_files,
            included_files: files.len(),
            total_size,
            filtered_count: self.filtered_results.len(),
        }
    }
}

} // verus!
