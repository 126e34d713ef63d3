use vstd::prelude::*;
use crate::paths::{file_name, name_of, str_eq};
use crate::state::SelectionState;
use crate::tree::{
    child_states, consistent_at, consistent_nodes, has_path, in_subtree, lemma_insert_off_path, parents,
    DirectoryTree,
};

verus! {

/// Settings of a directory walk and the decisions taken on each entry that
/// the walk reports.
pub struct DirectoryTraverser {
    pub respect_gitignore: bool,
    pub show_hidden: bool,
    pub max_file_size: u64,
    pub include_all: bool,
}

/// A dot-file or dot-directory, other than `.` and `..` and the common
/// configuration files `.gitignore`, `.gitattributes`, `.editorconfig`,
/// `.env` and `.env.example`.
pub open spec fn hidden_name(name: Seq<char>) -> bool {
    &&& name.len() > 0
    &&& name[0] == '.'
    &&& name != "."@
    &&& name != ".."@
    &&& !(name == ".gitignore"@ || name == ".gitattributes"@ || name == ".editorconfig"@ || name == ".env"@
        || name == ".env.example"@)
}

impl DirectoryTraverser {
    pub fn new(respect_gitignore: bool, show_hidden: bool, max_file_size: u64, include_all: bool) -> (r: Self)
        ensures
            r.respect_gitignore == respect_gitignore,
            r.show_hidden == show_hidden,
            r.max_file_size == max_file_size,
            r.include_all == include_all,
    {
        DirectoryTraverser { respect_gitignore, show_hidden, max_file_size, include_all }
    }

    pub open spec fn initial(&self) -> SelectionState {
        if self.include_all {
            SelectionState::Included
        } else {
            SelectionState::Excluded
        }
    }

    /// The state every node starts in: Included when everything is
    /// pre-selected, else Excluded.
    pub fn initial_state(&self) -> (r: SelectionState)
        ensures
            r == self.initial(),
    {
        if self.include_all {
            SelectionState::Included
        } else {
            SelectionState::Excluded
        }
    }

    /// Whether an entry is kept: hidden entries are dropped unless hidden
    /// entries are shown.
    pub fn should_include_entry_by_path(&self, path: &str) -> (r: bool)
        ensures
            r == (self.show_hidden || !hidden_name(name_of(path@))),
    {
        if self.show_hidden {
            return true;
        }
        let name = file_name(path);
        let n = name.as_str();
        if n.unicode_len() > 0 && n.get_char(0) == '.' && !str_eq(n, ".") && !str_eq(n, "..") {
            if !(str_eq(n, ".gitignore") || str_eq(n, ".gitattributes") || str_eq(n, ".editorconfig") || str_eq(
                n,
                ".env",
            ) || str_eq(n, ".env.example")) {
                return false;
            }
        }
        true
    }

    pub open spec fn skips(&self, root_path: Seq<char>, path: Seq<char>, is_directory: bool, size: Option<u64>) -> bool {
        ||| path == root_path
        ||| !(self.show_hidden || !hidden_name(name_of(path)))
        ||| (!is_directory && size is Some && size->0 > self.max_file_size)
    }

    /// Takes one entry reported by the walk: skips the root itself, hidden
    /// entries and files over the size limit; otherwise inserts it under
    /// `parent_path`, records a file's measured size, and sets it to the
    /// initial state.
    pub fn add_entry(
        &self,
        tree: &mut DirectoryTree,
        root_path: &str,
        path: String,
        is_directory: bool,
        parent_path: &str,
        size: Option<u64>,
        sample: &[u8],
    ) -> (r: Option<usize>)
        requires
            old(tree).wf(),
            old(tree).nodes@.len() + 1 < usize::MAX,
        ensures
            final(tree).wf(),
            final(tree).root_index == old(tree).root_index,
            self.skips(root_path@, path@, is_directory, size) ==> r is None && final(tree).nodes@ == old(
                tree,
            ).nodes@,
            !self.skips(root_path@, path@, is_directory, size) ==> {
                &&& r is None <==> (!has_path(old(tree).nodes@, path@) && !has_path(old(tree).nodes@, parent_path@))
                &&& r is None ==> final(tree).nodes@ == old(tree).nodes@
            },
            r matches Some(i) ==> {
                &&& (i as int) < final(tree).nodes@.len()
                &&& final(tree).nodes@[i as int].path@ == path@
                &&& final(tree).nodes@[i as int].state == self.initial()
                &&& (!is_directory && size is Some ==> final(tree).nodes@[i as int].size == size)
            },
            old(tree).consistent() ==> final(tree).consistent(),
    {
        if str_eq(path.as_str(), root_path) {
            return None;
        }
        if !self.should_include_entry_by_path(path.as_str()) {
            return None;
        }
        if !is_directory {
            match size {
                Some(s) => {
                    if s > self.max_file_size {
                        return None;
                    }
                },
                None => {},
            }
        }
        let ghost n0 = tree.nodes@;
        let ghost pv = path@;
        let added = tree.add_node(path, is_directory, parent_path, sample);
        match added {
            Some(i) => {
                let ghost n1 = tree.nodes@;
                proof {
                    if !has_path(n0, pv) && consistent_nodes(n0) {
                        let p = n1[i as int].parent->0 as int;
                        lemma_insert_off_path(n0, n1, i as int, p);
                    }
                }
                if !is_directory {
                    match size {
                        Some(s) => {
                            tree.set_size(i, Some(s));
                        },
                        None => {},
                    }
                }
                let ghost n2 = tree.nodes@;
                proof {
                    if !has_path(n0, pv) && consistent_nodes(n0) {
                        assert(parents(n2) =~= parents(n1));
                        assert forall|j: int|
                            0 <= j < n2.len() && !(in_subtree(parents(n2), i as int, j) && j != i) implies #[trigger] consistent_at(n2, j) by {
                            assert(consistent_at(n1, j));
                            assert(child_states(n2, j) =~= child_states(n1, j));
                        }
                    }
                }
                let st = self.initial_state();
                tree.set_state(i, st);
                Some(i)
            },
            None => None,
        }
    }
}

} // verus!
