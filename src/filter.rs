use vstd::prelude::*;
use crate::matcher::{identity_matches, ranked_matches, search_items, search_result, views, MatchResult};
use crate::paths::{display_of, display_path};
use crate::tree::{DirectoryTree, FileNode};

verus! {

/// Result of a query: the matches, and for each the arena index of its node.
pub struct FilteredResults {
    pub matches: Vec<MatchResult>,
    pub visible_items: Vec<usize>,
}

impl FilteredResults {
    pub fn new() -> (r: Self)
        ensures
            r.matches@.len() == 0,
            r.visible_items@.len() == 0,
    {
        FilteredResults { matches: Vec::new(), visible_items: Vec::new() }
    }

    pub fn is_empty(&self) -> (r: bool)
        ensures
            r == (self.matches@.len() == 0),
    {
        self.matches.len() == 0
    }

    pub fn len(&self) -> (r: usize)
        ensures
            r == self.matches@.len(),
    {
        self.matches.len()
    }
}

/// Nodes open to search: directories and text files.
pub open spec fn searchable(n: FileNode) -> bool {
    n.is_directory || n.is_text_file
}

/// Indices of the searchable nodes among the first `k`, in arena order.
pub open spec fn searchable_upto(nodes: Seq<FileNode>, k: int) -> Seq<usize>
    decreases k,
{
    if k <= 0 {
        Seq::empty()
    } else {
        searchable_upto(nodes, k - 1) + if searchable(nodes[k - 1]) {
            seq![(k - 1) as usize]
        } else {
            Seq::empty()
        }
    }
}

pub open spec fn searchable_nodes(nodes: Seq<FileNode>) -> Seq<usize> {
    searchable_upto(nodes, nodes.len() as int)
}

/// The text that the query is matched against for each listed node.
pub open spec fn display_texts(nodes: Seq<FileNode>, idx: Seq<usize>) -> Seq<Seq<char>> {
    idx.map_values(|i: usize| display_of(nodes[0].path@, nodes[i as int].path@))
}

/// What `filter_tree_nodes` returns: the search over the display texts of
/// the searchable nodes, with each match mapped back to its arena index.
pub open spec fn filter_post(nodes: Seq<FileNode>, q: Seq<char>, r: FilteredResults) -> bool {
    let idx = searchable_nodes(nodes);
    &&& search_result(display_texts(nodes, idx), q, r.matches@)
    &&& r.visible_items@.len() == r.matches@.len()
    &&& forall|k: int|
        0 <= k < r.matches@.len() ==> (#[trigger] r.visible_items@[k]) == idx[r.matches@[k].item_index as int]
}

proof fn lemma_searchable_range(nodes: Seq<FileNode>, k: int)
    requires
        0 <= k <= nodes.len(),
        nodes.len() < usize::MAX,
    ensures
        forall|j: int|
            0 <= j < searchable_upto(nodes, k).len() ==> (#[trigger] searchable_upto(nodes, k)[j] as int) < k,
    decreases k,
{
    if k > 0 {
        lemma_searchable_range(nodes, k - 1);
        let prev = searchable_upto(nodes, k - 1);
        assert forall|j: int|
            0 <= j < searchable_upto(nodes, k).len() implies (#[trigger] searchable_upto(nodes, k)[j] as int) < k by {
            if j < prev.len() {
                assert(searchable_upto(nodes, k)[j] == prev[j]);
            }
        }
    }
}

/// Narrows the tree to the searchable nodes whose display path matches `query`.
pub fn filter_tree_nodes(tree: &DirectoryTree, query: &str) -> (r: FilteredResults)
    requires
        tree.wf(),
    ensures
        filter_post(tree.nodes@, query@, r),
        forall|k: int| 0 <= k < r.visible_items@.len() ==> (#[trigger] r.visible_items@[k] as int) < tree.nodes@.len(),
{
    let ghost nodes = tree.nodes@;
    let root_path = tree.nodes[tree.root_index].path.as_str();
    let mut idx: Vec<usize> = Vec::new();
    let mut texts: Vec<String> = Vec::new();
    let mut i: usize = 0;
    while i < tree.nodes.len()
        invariant
            tree.wf(),
            nodes == tree.nodes@,
            root_path@ == nodes[0].path@,
            i <= nodes.len(),
            idx@ == searchable_upto(nodes, i as int),
            idx@.len() == texts@.len(),
            views(texts@) == display_texts(nodes, idx@),
        decreases nodes.len() - i,
    {
        let node = &tree.nodes[i];
        if node.is_directory || node.is_text_file {
            let t = display_path(root_path, node.path.as_str());
            let ghost old_texts = texts@;
            let ghost old_idx = idx@;
            idx.push(i);
            texts.push(t);
            proof {
                assert(views(old_texts) == display_texts(nodes, old_idx));
                assert forall|j: int| 0 <= j < texts@.len() implies #[trigger] views(texts@)[j] == display_texts(nodes, idx@)[j] by {
                    if j < old_texts.len() {
                        assert(views(old_texts)[j] == display_texts(nodes, old_idx)[j]);
                        assert(texts@[j] == old_texts[j]);
                        assert(idx@[j] == old_idx[j]);
                    } else {
                        assert(texts@[j] == t);
                        assert(idx@[j] == i);
                    }
                }
                assert(views(texts@) =~= display_texts(nodes, idx@));
            }
        }
        i = i + 1;
    }
    let matches = search_items(texts.as_slice(), query);
    proof {
        lemma_searchable_range(nodes, nodes.len() as int);
        assert(views(texts@).len() == idx@.len());
        if query@.len() == 0 {
            assert(identity_matches(views(texts@).len() as int, matches@));
        } else {
            assert(ranked_matches(views(texts@), query@, matches@));
        }
    }
    let mut visible: Vec<usize> = Vec::new();
    let mut k: usize = 0;
    while k < matches.len()
        invariant
            k <= matches@.len(),
            idx@ == searchable_nodes(nodes),
            forall|j: int| 0 <= j < idx@.len() ==> (#[trigger] idx@[j] as int) < nodes.len(),
            forall|j: int| 0 <= j < matches@.len() ==> (#[trigger] matches@[j]).item_index < idx@.len(),
            visible@.len() == k,
            forall|j: int| 0 <= j < k ==> (#[trigger] visible@[j]) == idx@[matches@[j].item_index as int],
        decreases matches@.len() - k,
    {
        visible.push(idx[matches[k].item_index]);
        k = k + 1;
    }
    FilteredResults { matches, visible_items: visible }
}

/// Path of node `node_index` relative to the root (its name when it does not
/// lie under the root); empty for an index outside the arena.
pub fn get_node_display_path(tree: &DirectoryTree, node_index: usize) -> (r: String)
    requires
        tree.wf(),
    ensures
        node_index < tree.nodes@.len() ==> r@ == display_of(tree.nodes@[0].path@, tree.nodes@[node_index as int].path@),
        node_index >= tree.nodes@.len() ==> r@.len() == 0,
{
    match tree.get_node(node_index) {
        Some(node) => display_path(tree.nodes[tree.root_index].path.as_str(), node.path.as_str()),
        None => String::new(),
    }
}

} // verus!
