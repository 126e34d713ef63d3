use vstd::prelude::*;
use crate::classify::{likely_text, sample_of, text_by_content, SAMPLE_SIZE};
use crate::filter::{filter_post, searchable_nodes, FilteredResults};
use crate::matcher::identity_matches;
use crate::paths::relative_of;
use crate::patterns::{any_match, is_suffix, pattern_matches, pattern_state};
use crate::state::{toggled, SelectionState};
use crate::tree::{
    aggregate, child_states, consistent_nodes, in_subtree, lemma_ancestor_has_children,
    lemma_parent_in_subtree, lemma_subtree_le, lemma_subtree_trans, parents, set_state_post,
    tree_shape, FileNode,
};

verus! {

/// Node `j` has no children.
pub open spec fn is_leaf(nodes: Seq<FileNode>, j: int) -> bool {
    nodes[j].children@.len() == 0
}

/// Every leaf below node `i` holds state `s`.
pub open spec fn leaves_below_all(nodes: Seq<FileNode>, i: int, s: SelectionState) -> bool {
    forall|j: int|
        0 <= j < nodes.len() && #[trigger] in_subtree(parents(nodes), j, i) && is_leaf(nodes, j) ==> nodes[j].state == s
}

pub proof fn lemma_aggregate_uniform(cs: Seq<SelectionState>)
    requires
        cs.len() > 0,
    ensures
        aggregate(cs) == SelectionState::Included <==> forall|x: int| 0 <= x < cs.len() ==> #[trigger] cs[x] == SelectionState::Included,
        aggregate(cs) == SelectionState::Excluded <==> forall|x: int| 0 <= x < cs.len() ==> #[trigger] cs[x] == SelectionState::Excluded,
{
    reveal(aggregate);
    if forall|x: int| 0 <= x < cs.len() ==> #[trigger] cs[x] == SelectionState::Included {
        assert(cs[0] == SelectionState::Included);
    } else {
        let x = choose|x: int| 0 <= x < cs.len() && #[trigger] cs[x] != SelectionState::Included;
        assert(cs.contains(cs[x]));
    }
    if forall|x: int| 0 <= x < cs.len() ==> #[trigger] cs[x] == SelectionState::Excluded {
        assert(cs[0] == SelectionState::Excluded);
    } else {
        let x = choose|x: int| 0 <= x < cs.len() && #[trigger] cs[x] != SelectionState::Excluded;
        assert(cs.contains(cs[x]));
    }
}

/// A node strictly below `a` lies below one of `a`'s children.
pub proof fn lemma_child_on_path(nodes: Seq<FileNode>, m: int, a: int) -> (x: int)
    requires
        tree_shape(nodes),
        0 <= m < nodes.len(),
        in_subtree(parents(nodes), m, a),
        m != a,
    ensures
        0 <= x < nodes[a].children@.len(),
        in_subtree(parents(nodes), m, nodes[a].children@[x] as int),
    decreases m,
{
    let par = parents(nodes);
    assert(par[m] == nodes[m].parent);
    let p = par[m]->0 as int;
    if p == a {
        assert(nodes[nodes[m].parent->0 as int].children@.contains(m as usize));
        let x = choose|x: int| 0 <= x < nodes[a].children@.len() && nodes[a].children@[x] == m as usize;
        x
    } else {
        let x = lemma_child_on_path(nodes, p, a);
        lemma_parent_in_subtree(par, m);
        lemma_subtree_trans(par, m, p, nodes[a].children@[x] as int);
        x
    }
}

/// In a consistent tree a node is Included exactly when every leaf below it is
/// Included, and Excluded exactly when every leaf below it is Excluded; it is
/// Partial otherwise.
pub proof fn lemma_state_from_leaves(nodes: Seq<FileNode>, i: int)
    requires
        tree_shape(nodes),
        consistent_nodes(nodes),
        0 <= i < nodes.len(),
    ensures
        nodes[i].state == SelectionState::Included <==> leaves_below_all(nodes, i, SelectionState::Included),
        nodes[i].state == SelectionState::Excluded <==> leaves_below_all(nodes, i, SelectionState::Excluded),
    decreases nodes.len() - i,
{
    let par = parents(nodes);
    let ch = nodes[i].children@;
    if ch.len() == 0 {
        assert forall|j: int| 0 <= j < nodes.len() && #[trigger] in_subtree(par, j, i) && is_leaf(nodes, j) implies j == i by {
            if j != i {
                lemma_ancestor_has_children(nodes, j, i);
            }
        }
        assert(in_subtree(par, i, i));
    } else {
        let cs = child_states(nodes, i);
        assert(nodes[i].state == aggregate(cs));
        lemma_aggregate_uniform(cs);
        assert forall|x: int| 0 <= x < ch.len() implies {
            &&& i < (#[trigger] ch[x]) as int
            &&& (ch[x] as int) < nodes.len()
            &&& in_subtree(par, ch[x] as int, i)
            &&& (cs[x] == SelectionState::Included <==> leaves_below_all(nodes, ch[x] as int, SelectionState::Included))
            &&& (cs[x] == SelectionState::Excluded <==> leaves_below_all(nodes, ch[x] as int, SelectionState::Excluded))
        } by {
            let c = ch[x] as int;
            assert(nodes[c].parent == Some(i as usize));
            if c == 0 {
                assert(nodes[0].parent is None);
            }
            assert(par[c] == nodes[c].parent);
            lemma_parent_in_subtree(par, c);
            lemma_state_from_leaves(nodes, c);
        }
        lemma_leaves_split(nodes, i, SelectionState::Included);
        lemma_leaves_split(nodes, i, SelectionState::Excluded);
    }
}

/// The leaves below a node with children are the leaves below its children.
proof fn lemma_leaves_split(nodes: Seq<FileNode>, i: int, s: SelectionState)
    requires
        tree_shape(nodes),
        0 <= i < nodes.len(),
        nodes[i].children@.len() > 0,
        forall|x: int|
            0 <= x < nodes[i].children@.len() ==> (#[trigger] nodes[i].children@[x] as int) < nodes.len()
                && in_subtree(parents(nodes), nodes[i].children@[x] as int, i),
    ensures
        leaves_below_all(nodes, i, s) <==> forall|x: int|
            0 <= x < nodes[i].children@.len() ==> leaves_below_all(nodes, #[trigger] nodes[i].children@[x] as int, s),
{
    let par = parents(nodes);
    let ch = nodes[i].children@;
    if leaves_below_all(nodes, i, s) {
        assert forall|x: int| 0 <= x < ch.len() implies leaves_below_all(nodes, #[trigger] ch[x] as int, s) by {
            assert forall|j: int|
                0 <= j < nodes.len() && #[trigger] in_subtree(par, j, ch[x] as int) && is_leaf(nodes, j) implies nodes[j].state == s by {
                lemma_subtree_trans(par, j, ch[x] as int, i);
            }
        }
    }
    if forall|x: int| 0 <= x < ch.len() ==> leaves_below_all(nodes, #[trigger] ch[x] as int, s) {
        assert forall|j: int|
            0 <= j < nodes.len() && #[trigger] in_subtree(par, j, i) && is_leaf(nodes, j) implies nodes[j].state == s by {
            if j == i {
            } else {
                let x = lemma_child_on_path(nodes, j, i);
                assert(leaves_below_all(nodes, ch[x] as int, s));
            }
        }
    }
}

/// Some leaf lies below node `i`.
proof fn lemma_leaf_below(nodes: Seq<FileNode>, i: int) -> (j: int)
    requires
        tree_shape(nodes),
        0 <= i < nodes.len(),
    ensures
        0 <= j < nodes.len(),
        in_subtree(parents(nodes), j, i),
        is_leaf(nodes, j),
    decreases nodes.len() - i,
{
    let par = parents(nodes);
    if nodes[i].children@.len() == 0 {
        i
    } else {
        let c = nodes[i].children@[0] as int;
        assert(nodes[c].parent == Some(i as usize));
        if c == 0 {
            assert(nodes[0].parent is None);
        }
        assert(par[c] == nodes[c].parent);
        lemma_parent_in_subtree(par, c);
        let j = lemma_leaf_below(nodes, c);
        lemma_subtree_trans(par, j, c, i);
        j
    }
}

/// Every file below node `i` holds state `s`.
pub open spec fn files_below_all(nodes: Seq<FileNode>, i: int, s: SelectionState) -> bool {
    forall|j: int|
        0 <= j < nodes.len() && #[trigger] in_subtree(parents(nodes), j, i) && !nodes[j].is_directory ==> nodes[j].state == s
}

/// Some file lies below node `i`.
pub open spec fn has_file_below(nodes: Seq<FileNode>, i: int) -> bool {
    exists|j: int| 0 <= j < nodes.len() && #[trigger] in_subtree(parents(nodes), j, i) && !nodes[j].is_directory
}

/// In a consistent tree whose childless nodes are all files (no empty
/// directory), a directory is Included exactly when it has a file below it and
/// every file below it is Included, Excluded exactly when no file below it is
/// Included, and Partial otherwise.
pub proof fn lemma_directory_state(nodes: Seq<FileNode>, i: int)
    requires
        tree_shape(nodes),
        consistent_nodes(nodes),
        0 <= i < nodes.len(),
        forall|j: int| 0 <= j < nodes.len() && #[trigger] nodes[j].children@.len() == 0 ==> !nodes[j].is_directory,
    ensures
        nodes[i].state == SelectionState::Included <==> has_file_below(nodes, i) && files_below_all(
            nodes,
            i,
            SelectionState::Included,
        ),
        nodes[i].state == SelectionState::Excluded <==> files_below_all(nodes, i, SelectionState::Excluded),
        nodes[i].state == SelectionState::Partial <==> !(has_file_below(nodes, i) && files_below_all(
            nodes,
            i,
            SelectionState::Included,
        )) && !files_below_all(nodes, i, SelectionState::Excluded),
{
    let par = parents(nodes);
    lemma_state_from_leaves(nodes, i);
    let l = lemma_leaf_below(nodes, i);
    assert(!nodes[l].is_directory);
    // every leaf is a file, and a file with children holds what its leaves hold
    assert forall|s: SelectionState| s != SelectionState::Partial implies (leaves_below_all(nodes, i, s)
        <==> files_below_all(nodes, i, s)) by {
        if leaves_below_all(nodes, i, s) {
            assert forall|j: int|
                0 <= j < nodes.len() && #[trigger] in_subtree(par, j, i) && !nodes[j].is_directory implies nodes[j].state
                == s by {
                if nodes[j].children@.len() > 0 {
                    assert forall|m: int|
                        0 <= m < nodes.len() && #[trigger] in_subtree(par, m, j) && is_leaf(nodes, m) implies nodes[m].state
                        == s by {
                        lemma_subtree_trans(par, m, j, i);
                    }
                    lemma_state_from_leaves(nodes, j);
                }
            }
        }
        if files_below_all(nodes, i, s) {
            assert forall|j: int|
                0 <= j < nodes.len() && #[trigger] in_subtree(par, j, i) && is_leaf(nodes, j) implies nodes[j].state
                == s by {
                assert(!nodes[j].is_directory);
            }
        }
    }
    assert(has_file_below(nodes, i));
    assert(nodes[i].state == SelectionState::Included || nodes[i].state == SelectionState::Excluded || nodes[i].state
        == SelectionState::Partial);
    if files_below_all(nodes, i, SelectionState::Included) && files_below_all(nodes, i, SelectionState::Excluded) {
        assert(nodes[l].state == SelectionState::Included);
    }
}

/// Setting the same state twice leaves the nodes as the first call left them.
pub proof fn lemma_set_state_idempotent(
    n0: Seq<FileNode>,
    n1: Seq<FileNode>,
    n2: Seq<FileNode>,
    idx: int,
    s: SelectionState,
)
    requires
        tree_shape(n0),
        0 <= idx < n0.len(),
        set_state_post(n0, n1, idx, s),
        set_state_post(n1, n2, idx, s),
    ensures
        n2 == n1,
{
    assert(parents(n1) =~= parents(n0));
    assert forall|i: int| 0 <= i < n0.len() implies #[trigger] n2[i] == n1[i] by {
        lemma_idempotent_at(n0, n1, n2, idx, s, i);
    }
    assert(n2 =~= n1);
}

proof fn lemma_idempotent_at(
    n0: Seq<FileNode>,
    n1: Seq<FileNode>,
    n2: Seq<FileNode>,
    idx: int,
    s: SelectionState,
    i: int,
)
    requires
        tree_shape(n0),
        0 <= idx < n0.len(),
        0 <= i < n0.len(),
        set_state_post(n0, n1, idx, s),
        set_state_post(n1, n2, idx, s),
    ensures
        n2[i].state == n1[i].state,
        n2[i] == n1[i],
    decreases n0.len() - i,
{
    let par = parents(n0);
    assert(parents(n1) =~= par);
    if i != idx && !in_subtree(par, i, idx) && in_subtree(par, idx, i) {
        let ch = n0[i].children@;
        assert forall|x: int| 0 <= x < ch.len() implies #[trigger] child_states(n2, i)[x] == child_states(n1, i)[x] by {
            let c = ch[x] as int;
            assert(n0[c].parent == Some(i as usize));
            if c == 0 {
                assert(n0[0].parent is None);
            }
            assert(n1[i].children@ == ch && n2[i].children@ == ch);
            lemma_idempotent_at(n0, n1, n2, idx, s, c);
        }
        assert(child_states(n2, i) =~= child_states(n1, i));
    }
}

/// Setting Included on a node makes every node of its subtree Included.
pub proof fn lemma_included_forces_subtree(n0: Seq<FileNode>, n1: Seq<FileNode>, idx: int)
    requires
        0 <= idx < n0.len(),
        set_state_post(n0, n1, idx, SelectionState::Included),
    ensures
        forall|i: int|
            0 <= i < n0.len() && #[trigger] in_subtree(parents(n0), i, idx) ==> n1[i].state == SelectionState::Included,
{
    assert forall|i: int| 0 <= i < n0.len() && #[trigger] in_subtree(parents(n0), i, idx) implies n1[i].state
        == SelectionState::Included by {
        assert(n1[i].state == SelectionState::Included);
    }
}

/// The parent of a leaf whose siblings all share its state becomes Partial when
/// that leaf is toggled.
proof fn lemma_dissent_parent(n0: Seq<FileNode>, n1: Seq<FileNode>, f: int)
    requires
        tree_shape(n0),
        consistent_nodes(n0),
        0 <= f < n0.len(),
        is_leaf(n0, f),
        n0[f].parent is Some,
        n0[n0[f].parent->0 as int].children@.len() >= 2,
        forall|x: int|
            0 <= x < n0[n0[f].parent->0 as int].children@.len() ==> #[trigger] child_states(n0, n0[f].parent->0 as int)[x]
                == n0[f].state,
        set_state_post(n0, n1, f, toggled(n0[f].state)),
    ensures
        n1[n0[f].parent->0 as int].state == SelectionState::Partial,
{
    let par = parents(n0);
    let p = n0[f].parent->0 as int;
    let ch = n0[p].children@;
    let x_state = n0[f].state;
    let t = toggled(x_state);
    assert(x_state != SelectionState::Partial);
    assert(par[f] == n0[f].parent);
    assert(f != 0);
    lemma_parent_in_subtree(par, f);
    assert(in_subtree(par, f, p) && p != f);
    assert(n0[n0[f].parent->0 as int].children@.contains(f as usize));
    let xf = choose|xf: int| 0 <= xf < ch.len() && ch[xf] == f as usize;
    let xo = if xf == 0 { 1int } else { 0int };
    assert(ch[xo] != ch[xf]);
    let c = ch[xo] as int;
    assert(n0[c].parent == Some(p as usize));
    if c == 0 {
        assert(n0[0].parent is None);
    }
    assert(par[c] == n0[c].parent);
    if in_subtree(par, c, f) {
        lemma_ancestor_has_children(n0, c, f);
    }
    if in_subtree(par, f, c) {
        lemma_subtree_le(par, p, c);
    }
    assert(n1[c].state == n0[c].state);
    assert(child_states(n0, p)[xo] == x_state);
    let cs1 = child_states(n1, p);
    assert(n1[p].children@ == ch);
    assert(cs1[xo] == x_state);
    assert(cs1[xf] == t);
    reveal(aggregate);
    assert(cs1.contains(x_state) && cs1.contains(t));
}

/// Toggling a leaf whose siblings all share its state makes every ancestor of
/// it, up to the root, Partial.
pub proof fn lemma_dissenting_leaf(n0: Seq<FileNode>, n1: Seq<FileNode>, f: int)
    requires
        tree_shape(n0),
        consistent_nodes(n0),
        0 <= f < n0.len(),
        is_leaf(n0, f),
        n0[f].parent is Some,
        n0[n0[f].parent->0 as int].children@.len() >= 2,
        forall|x: int|
            0 <= x < n0[n0[f].parent->0 as int].children@.len() ==> #[trigger] child_states(n0, n0[f].parent->0 as int)[x]
                == n0[f].state,
        set_state_post(n0, n1, f, toggled(n0[f].state)),
    ensures
        forall|a: int| 0 <= a < n0.len() && #[trigger] in_subtree(parents(n0), f, a) && a != f ==> n1[a].state == SelectionState::Partial,
{
    assert forall|a: int| 0 <= a < n0.len() && #[trigger] in_subtree(parents(n0), f, a) && a != f implies n1[a].state
        == SelectionState::Partial by {
        lemma_dissent_at(n0, n1, f, a);
    }
}

proof fn lemma_dissent_at(n0: Seq<FileNode>, n1: Seq<FileNode>, f: int, a: int)
    requires
        tree_shape(n0),
        consistent_nodes(n0),
        0 <= f < n0.len(),
        0 <= a < n0.len(),
        is_leaf(n0, f),
        n0[f].parent is Some,
        n0[n0[f].parent->0 as int].children@.len() >= 2,
        forall|x: int|
            0 <= x < n0[n0[f].parent->0 as int].children@.len() ==> #[trigger] child_states(n0, n0[f].parent->0 as int)[x]
                == n0[f].state,
        set_state_post(n0, n1, f, toggled(n0[f].state)),
        in_subtree(parents(n0), f, a),
        a != f,
    ensures
        n1[a].state == SelectionState::Partial,
    decreases f - a,
{
    let par = parents(n0);
    lemma_subtree_le(par, f, a);
    let x = lemma_child_on_path(n0, f, a);
    let ch = n0[a].children@;
    let c = ch[x] as int;
    assert(n0[c].parent == Some(a as usize));
    if c == 0 {
        assert(n0[0].parent is None);
    }
    assert(par[c] == n0[c].parent);
    assert(par[f] == n0[f].parent);
    if c == f {
        lemma_dissent_parent(n0, n1, f);
    } else {
        lemma_subtree_le(par, f, c);
        lemma_dissent_at(n0, n1, f, c);
        assert(n1[a].children@ == ch);
        assert(child_states(n1, a)[x] == SelectionState::Partial);
        reveal(aggregate);
        assert(child_states(n1, a).contains(SelectionState::Partial));
    }
}

/// In a consistent tree, toggling a leaf twice gives every node back the state
/// it held before.
pub proof fn lemma_toggle_leaf_twice(n0: Seq<FileNode>, n1: Seq<FileNode>, n2: Seq<FileNode>, f: int)
    requires
        tree_shape(n0),
        consistent_nodes(n0),
        0 <= f < n0.len(),
        is_leaf(n0, f),
        set_state_post(n0, n1, f, toggled(n0[f].state)),
        set_state_post(n1, n2, f, toggled(n1[f].state)),
    ensures
        forall|i: int| 0 <= i < n0.len() ==> (#[trigger] n2[i]).state == n0[i].state,
{
    assert forall|i: int| 0 <= i < n0.len() implies (#[trigger] n2[i]).state == n0[i].state by {
        lemma_toggle_back_at(n0, n1, n2, f, i);
    }
}

proof fn lemma_toggle_back_at(n0: Seq<FileNode>, n1: Seq<FileNode>, n2: Seq<FileNode>, f: int, i: int)
    requires
        tree_shape(n0),
        consistent_nodes(n0),
        0 <= f < n0.len(),
        0 <= i < n0.len(),
        is_leaf(n0, f),
        set_state_post(n0, n1, f, toggled(n0[f].state)),
        set_state_post(n1, n2, f, toggled(n1[f].state)),
    ensures
        n2[i].state == n0[i].state,
    decreases n0.len() - i,
{
    let par = parents(n0);
    assert(parents(n1) =~= par);
    assert(n0[f].state != SelectionState::Partial);
    if i != f && in_subtree(par, i, f) {
        lemma_ancestor_has_children(n0, i, f);
    }
    if i != f && !in_subtree(par, i, f) && in_subtree(par, f, i) {
        let ch = n0[i].children@;
        lemma_ancestor_has_children(n0, f, i);
        assert forall|x: int| 0 <= x < ch.len() implies #[trigger] child_states(n2, i)[x] == child_states(n0, i)[x] by {
            let c = ch[x] as int;
            assert(n0[c].parent == Some(i as usize));
            if c == 0 {
                assert(n0[0].parent is None);
            }
            assert(n1[i].children@ == ch && n2[i].children@ == ch);
            lemma_toggle_back_at(n0, n1, n2, f, c);
        }
        assert(child_states(n2, i) =~= child_states(n0, i));
    }
}

/// With an empty query the filter lists exactly the searchable nodes
/// (directories and text files) in arena order, each with score 0.
pub proof fn lemma_empty_query_lists_searchable(nodes: Seq<FileNode>, r: FilteredResults)
    requires
        filter_post(nodes, Seq::empty(), r),
    ensures
        r.visible_items@ == searchable_nodes(nodes),
        forall|k: int| 0 <= k < r.matches@.len() ==> (#[trigger] r.matches@[k]).score == 0,
{
    let idx = searchable_nodes(nodes);
    assert(identity_matches(idx.len() as int, r.matches@));
    assert forall|k: int| 0 <= k < idx.len() implies #[trigger] r.visible_items@[k] == idx[k] by {
        assert(r.matches@[k].item_index == k);
    }
    assert(r.visible_items@ =~= idx);
}

/// A sample holding a NUL byte is not text.
pub proof fn lemma_nul_is_not_text(b: Seq<u8>)
    requires
        sample_of(b).contains(0u8),
    ensures
        !text_by_content(b),
{
}

/// An empty file is not text.
pub proof fn lemma_empty_is_not_text(b: Seq<u8>)
    requires
        b.len() == 0,
    ensures
        !text_by_content(b),
{
}

/// Only the leading `SAMPLE_SIZE` bytes decide the content verdict.
pub proof fn lemma_only_sample_inspected(b: Seq<u8>)
    requires
        b.len() >= SAMPLE_SIZE,
    ensures
        text_by_content(b) == text_by_content(b.take(SAMPLE_SIZE as int)),
{
    assert(sample_of(b.take(SAMPLE_SIZE as int)) =~= sample_of(b));
}

/// The pattern `**/*` matches every path.
pub proof fn lemma_match_everything(path: Seq<char>)
    ensures
        pattern_matches(path, seq!['*', '*', '/', '*']),
{
}

/// A pattern `*x`, where `x` does not end in `*` and the pattern is not
/// `**/*`, matches exactly the paths that end with `x`.
pub proof fn lemma_leading_star_is_suffix(path: Seq<char>, x: Seq<char>)
    requires
        x.len() > 0,
        x.last() != '*',
        seq!['*'] + x != seq!['*', '*', '/', '*'],
    ensures
        pattern_matches(path, seq!['*'] + x) == is_suffix(x, path),
{
    let p = seq!['*'] + x;
    assert(p.last() == x.last());
    assert(p.skip(1) =~= x);
}

/// With no inclusion patterns and the single exclusion pattern `*.bin`, a node
/// is Excluded exactly when its relative path or its name ends with `.bin`.
pub proof fn lemma_exclude_bin(nodes: Seq<FileNode>, i: int)
    ensures
        pattern_state(nodes, Seq::empty(), seq![seq!['*', '.', 'b', 'i', 'n']], i) == if is_suffix(
            seq!['.', 'b', 'i', 'n'],
            relative_of(nodes[0].path@, nodes[i].path@),
        ) || is_suffix(seq!['.', 'b', 'i', 'n'], nodes[i].name@) {
            SelectionState::Excluded
        } else {
            SelectionState::Included
        },
{
    let x = seq!['.', 'b', 'i', 'n'];
    let pat = seq!['*', '.', 'b', 'i', 'n'];
    assert(pat =~= seq!['*'] + x);
    assert(pat.len() != 4);
    assert(pat != seq!['*', '*', '/', '*']);
    let rel = relative_of(nodes[0].path@, nodes[i].path@);
    let name = nodes[i].name@;
    lemma_leading_star_is_suffix(rel, x);
    lemma_leading_star_is_suffix(name, x);
    let pats = seq![pat];
    assert(pats[0] == pat);
    if is_suffix(x, rel) || is_suffix(x, name) {
        assert(any_match(pats, rel, name));
    } else {
        assert(!any_match(pats, rel, name));
    }
}

/// Every node of the subtree of `v` holds `s`.
pub open spec fn uniform_below(nodes: Seq<FileNode>, v: int, s: SelectionState) -> bool {
    forall|x: int| 0 <= x < nodes.len() && #[trigger] in_subtree(parents(nodes), x, v) ==> nodes[x].state == s
}

/// Setting any node to a state other than Partial keeps every subtree that
/// held that state throughout in it.
pub proof fn lemma_uniform_subtree_kept(n0: Seq<FileNode>, n1: Seq<FileNode>, t: int, s: SelectionState, v: int)
    requires
        tree_shape(n0),
        0 <= t < n0.len(),
        0 <= v < n0.len(),
        s != SelectionState::Partial,
        set_state_post(n0, n1, t, s),
        uniform_below(n0, v, s),
    ensures
        uniform_below(n1, v, s),
{
    assert(parents(n1) =~= parents(n0));
    assert forall|x: int| 0 <= x < n1.len() && #[trigger] in_subtree(parents(n1), x, v) implies n1[x].state == s by {
        lemma_uniform_at(n0, n1, t, s, v, x);
    }
}

proof fn lemma_uniform_at(n0: Seq<FileNode>, n1: Seq<FileNode>, t: int, s: SelectionState, v: int, x: int)
    requires
        tree_shape(n0),
        0 <= t < n0.len(),
        0 <= v < n0.len(),
        0 <= x < n0.len(),
        s != SelectionState::Partial,
        set_state_post(n0, n1, t, s),
        uniform_below(n0, v, s),
        in_subtree(parents(n0), x, v),
    ensures
        n1[x].state == s,
    decreases n0.len() - x,
{
    let par = parents(n0);
    if x != t && !in_subtree(par, x, t) && in_subtree(par, t, x) {
        let ch = n0[x].children@;
        lemma_ancestor_has_children(n0, t, x);
        assert(n1[x].children@ == ch);
        assert forall|k: int| 0 <= k < ch.len() implies #[trigger] child_states(n1, x)[k] == s by {
            let c = ch[k] as int;
            assert(n0[c].parent == Some(x as usize));
            if c == 0 {
                assert(n0[0].parent is None);
            }
            assert(par[c] == n0[c].parent);
            lemma_parent_in_subtree(par, c);
            lemma_subtree_trans(par, c, x, v);
            lemma_uniform_at(n0, n1, t, s, v, c);
        }
        lemma_aggregate_uniform(child_states(n1, x));
    }
}

} // verus!
