use vstd::prelude::*;
use vstd::set_lib::*;
use vstd::string::*;
use vstd::utf8::encode_utf8;
use vstd::wrapping::u64_specs::{wrapping_add, wrapping_mul};
use crate::classify::{is_text_file, text_by_content, text_by_name};
use crate::paths::{file_name, name_of};
use crate::state::{toggled, SelectionState};

verus! {

/// One filesystem entry of the arena.
pub struct FileNode {
    pub path: String,
    pub name: String,
    pub is_directory: bool,
    pub size: Option<u64>,
    /// Arena indices of the children, in insertion order.
    pub children: Vec<usize>,
    pub parent: Option<usize>,
    pub state: SelectionState,
    pub is_text_file: bool,
}

impl FileNode {
    /// A node with no children, excluded, not yet measured nor classified.
    pub fn new(path: String, is_directory: bool, parent: Option<usize>) -> (r: Self)
        ensures
            r.path == path,
            r.name@ == name_of(path@),
            r.is_directory == is_directory,
            r.size is None,
            r.children@.len() == 0,
            r.parent == parent,
            r.state == SelectionState::Excluded,
            !r.is_text_file,
    {
        let name = file_name(path.as_str());
        FileNode {
            path,
            name,
            is_directory,
            size: None,
            children: Vec::new(),
            parent,
            state: SelectionState::Excluded,
            is_text_file: false,
        }
    }

    pub fn add_child(&mut self, child_index: usize)
        ensures
            final(self).children@ == old(self).children@.push(child_index),
            final(self).path == old(self).path,
            final(self).name == old(self).name,
            final(self).is_directory == old(self).is_directory,
            final(self).size == old(self).size,
            final(self).parent == old(self).parent,
            final(self).state == old(self).state,
            final(self).is_text_file == old(self).is_text_file,
    {
        self.children.push(child_index);
    }
}

/// The arena: nodes addressed by index, the root at index 0, and an index
/// from paths to nodes.
pub struct DirectoryTree {
    pub nodes: Vec<FileNode>,
    pub root_index: usize,
    /// Arena indices grouped by a hash of their path: node `i` sits in bucket
    /// `bucket_of(path of i, number of buckets)`.
    pub path_buckets: Vec<Vec<usize>>,
}

/// Multiplicative hash of a byte string.
pub open spec fn byte_hash(b: Seq<u8>) -> u64
    decreases b.len(),
{
    if b.len() == 0 {
        0
    } else {
        wrapping_add(wrapping_mul(byte_hash(b.drop_last()), 31), b.last() as u64)
    }
}

/// Bucket of a path among `count` buckets, from the hash of its UTF-8 bytes.
pub open spec fn bucket_of(p: Seq<char>, count: int) -> int {
    (byte_hash(encode_utf8(p)) as int) % count
}

/// Every node is listed in the bucket of its path, and buckets list arena
/// indices only.
pub open spec fn index_wf(n: Seq<FileNode>, buckets: Seq<Vec<usize>>) -> bool {
    &&& buckets.len() > 0
    &&& forall|i: int| 0 <= i < n.len() ==> #[trigger] buckets[bucket_of(n[i].path@, buckets.len() as int)]@.contains(i as usize)
    &&& forall|b: int, k: int| 0 <= b < buckets.len() && 0 <= k < buckets[b]@.len() ==> (#[trigger] buckets[b]@[k] as int) < n.len()
}

/// Hash of the UTF-8 bytes of `s`, as `byte_hash` defines it.
fn path_hash(s: &str) -> (r: u64)
    ensures
        r == byte_hash(encode_utf8(s@)),
{
    let bytes = s.as_bytes();
    let mut h: u64 = 0;
    let mut i: usize = 0;
    while i < bytes.len()
        invariant
            bytes@ == encode_utf8(s@),
            i <= bytes@.len(),
            h == byte_hash(bytes@.take(i as int)),
        decreases bytes@.len() - i,
    {
        proof {
            assert(bytes@.take(i + 1 as int).drop_last() =~= bytes@.take(i as int));
        }
        h = h.wrapping_mul(31).wrapping_add(bytes[i] as u64);
        i = i + 1;
    }
    proof {
        assert(bytes@.take(i as int) =~= bytes@);
    }
    h
}

/// The parent link of every node.
pub open spec fn parents(nodes: Seq<FileNode>) -> Seq<Option<usize>> {
    nodes.map_values(|n: FileNode| n.parent)
}

/// `m` lies in the subtree of `n`: `m` is `n` or `n` is reached from `m` by
/// following parent links.
pub open spec fn in_subtree(par: Seq<Option<usize>>, m: int, n: int) -> bool
    decreases m,
{
    if m == n {
        true
    } else if 0 <= m < par.len() && par[m] is Some && (par[m]->0 as int) < m {
        in_subtree(par, par[m]->0 as int, n)
    } else {
        false
    }
}

/// States of the children of node `i`, in child order.
pub open spec fn child_states(nodes: Seq<FileNode>, i: int) -> Seq<SelectionState> {
    nodes[i].children@.map_values(|c: usize| nodes[c as int].state)
}

/// A directory's state recomputed from its children: Partial when a child is
/// Partial or both Included and Excluded occur, else Included when one is
/// Included, else Excluded.
#[verifier::opaque]
pub open spec fn aggregate(s: Seq<SelectionState>) -> SelectionState {
    if s.contains(SelectionState::Partial) || (s.contains(SelectionState::Included) && s.contains(
        SelectionState::Excluded,
    )) {
        SelectionState::Partial
    } else if s.contains(SelectionState::Included) {
        SelectionState::Included
    } else {
        SelectionState::Excluded
    }
}

/// A node that the formatter receives: included, a file, and text.
pub open spec fn selected(n: FileNode) -> bool {
    (n.state == SelectionState::Included || n.state == SelectionState::Partial) && !n.is_directory
        && n.is_text_file
}

/// Indices of the selected nodes of the subtree of `i`, in pre-order.
pub open spec fn files_below(nodes: Seq<FileNode>, i: int) -> Seq<usize>
    decreases nodes.len() - i, 1int, 0int,
{
    if 0 <= i < nodes.len() {
        (if selected(nodes[i]) {
            seq![i as usize]
        } else {
            Seq::empty()
        }) + files_of_children(nodes, i, nodes[i].children@.len() as int)
    } else {
        Seq::empty()
    }
}

/// Selected nodes below the first `k` children of node `i`, in pre-order.
pub open spec fn files_of_children(nodes: Seq<FileNode>, i: int, k: int) -> Seq<usize>
    decreases nodes.len() - i, 0int, k,
{
    if 0 <= i < nodes.len() && 0 < k <= nodes[i].children@.len() {
        let c = nodes[i].children@[k - 1] as int;
        files_of_children(nodes, i, k - 1) + (if i < c < nodes.len() {
            files_below(nodes, c)
        } else {
            Seq::empty()
        })
    } else {
        Seq::empty()
    }
}

/// Parent and child links agree, every parent precedes its children (so the
/// links are acyclic), and child lists are strictly increasing.
pub open spec fn tree_shape(n: Seq<FileNode>) -> bool {
    &&& n.len() >= 1
    &&& n.len() < usize::MAX
    &&& n[0].parent is None
    &&& forall|i: int| 0 < i < n.len() ==> (#[trigger] n[i].parent) is Some && (n[i].parent->0 as int) < i
    &&& forall|i: int, k: int|
        0 <= i < n.len() && 0 <= k < n[i].children@.len() ==> (#[trigger] n[i].children@[k] as int) < n.len()
            && n[n[i].children@[k] as int].parent == Some(i as usize)
    &&& forall|i: int, a: int, b: int|
        0 <= i < n.len() && 0 <= a < b < n[i].children@.len() ==> #[trigger] n[i].children@[a]
            < #[trigger] n[i].children@[b]
    &&& forall|c: int|
        0 < c < n.len() ==> #[trigger] n[n[c].parent->0 as int].children@.contains(c as usize)
}

/// No two nodes share a path.
pub open spec fn unique_paths(n: Seq<FileNode>) -> bool {
    forall|i: int, j: int| 0 <= i < n.len() && 0 <= j < n.len() && i != j ==> #[trigger] n[i].path@ != #[trigger] n[j].path@
}

/// Some node has path `p`.
pub open spec fn has_path(n: Seq<FileNode>, p: Seq<char>) -> bool {
    exists|i: int| 0 <= i < n.len() && #[trigger] n[i].path@ == p
}

/// `b` has the paths, child lists and parent links of `a`.
pub open spec fn same_links(a: Seq<FileNode>, b: Seq<FileNode>) -> bool {
    &&& a.len() == b.len()
    &&& forall|i: int|
        0 <= i < a.len() ==> (#[trigger] b[i]).path == a[i].path && b[i].children == a[i].children
            && b[i].parent == a[i].parent
}

/// `b` differs from `a` in node states at most.
pub open spec fn same_but_state(a: Seq<FileNode>, b: Seq<FileNode>) -> bool {
    &&& a.len() == b.len()
    &&& forall|i: int|
        0 <= i < a.len() ==> {
            &&& (#[trigger] b[i]).path == a[i].path
            &&& b[i].name == a[i].name
            &&& b[i].is_directory == a[i].is_directory
            &&& b[i].size == a[i].size
            &&& b[i].children == a[i].children
            &&& b[i].parent == a[i].parent
            &&& b[i].is_text_file == a[i].is_text_file
        }
}

/// Node `i` holds the aggregate of its children's states, or, without
/// children, is not Partial.
pub open spec fn consistent_at(n: Seq<FileNode>, i: int) -> bool {
    &&& n[i].children@.len() > 0 ==> n[i].state == aggregate(child_states(n, i))
    &&& n[i].children@.len() == 0 ==> n[i].state != SelectionState::Partial
}

/// Every node but the strict ancestors of `idx` is consistent.
pub open spec fn consistent_off_path(n: Seq<FileNode>, idx: int) -> bool {
    forall|i: int|
        0 <= i < n.len() && !(in_subtree(parents(n), idx, i) && i != idx) ==> #[trigger] consistent_at(n, i)
}

/// Every node with children holds the aggregate of their states, and no
/// childless node is Partial.
pub open spec fn consistent_nodes(n: Seq<FileNode>) -> bool {
    forall|i: int|
        0 <= i < n.len() ==> {
            &&& (#[trigger] n[i]).children@.len() > 0 ==> n[i].state == aggregate(child_states(n, i))
            &&& n[i].children@.len() == 0 ==> n[i].state != SelectionState::Partial
        }
}

/// What `set_state(idx, s)` leaves: `idx` holds `s`; below it every node holds
/// `s` unless `s` is Partial; every ancestor holds the aggregate of its
/// children; all other nodes are untouched.
pub open spec fn set_state_post(
    old_nodes: Seq<FileNode>,
    new_nodes: Seq<FileNode>,
    idx: int,
    s: SelectionState,
) -> bool {
    let par = parents(old_nodes);
    &&& same_but_state(old_nodes, new_nodes)
    &&& forall|i: int|
        0 <= i < old_nodes.len() ==> (#[trigger] new_nodes[i]).state == if i == idx {
            s
        } else if in_subtree(par, i, idx) {
            if s != SelectionState::Partial {
                s
            } else {
                old_nodes[i].state
            }
        } else if in_subtree(par, idx, i) {
            aggregate(child_states(new_nodes, i))
        } else {
            old_nodes[i].state
        }
}

pub proof fn lemma_subtree_le(par: Seq<Option<usize>>, m: int, n: int)
    requires
        in_subtree(par, m, n),
    ensures
        n <= m,
    decreases m,
{
    if m != n {
        lemma_subtree_le(par, par[m]->0 as int, n);
    }
}

pub proof fn lemma_subtree_trans(par: Seq<Option<usize>>, a: int, b: int, c: int)
    requires
        in_subtree(par, a, b),
        in_subtree(par, b, c),
    ensures
        in_subtree(par, a, c),
    decreases a,
{
    if a != b {
        lemma_subtree_trans(par, par[a]->0 as int, b, c);
    }
}

/// Right after an insertion into a consistent tree, only the ancestors of the
/// new node may be stale.
pub proof fn lemma_insert_off_path(old_nodes: Seq<FileNode>, new_nodes: Seq<FileNode>, n: int, p: int)
    requires
        tree_shape(old_nodes),
        consistent_nodes(old_nodes),
        tree_shape(new_nodes),
        n == old_nodes.len(),
        new_nodes.len() == n + 1,
        0 <= p < n,
        new_nodes[n].parent == Some(p as usize),
        new_nodes[n].children@.len() == 0,
        new_nodes[n].state != SelectionState::Partial,
        new_nodes[p].children@ == old_nodes[p].children@.push(n as usize),
        new_nodes[p].state == old_nodes[p].state,
        forall|i: int| 0 <= i < n && i != p ==> #[trigger] new_nodes[i] == old_nodes[i],
    ensures
        consistent_off_path(new_nodes, n),
{
    let par = parents(new_nodes);
    assert(par[n] == new_nodes[n].parent);
    lemma_parent_in_subtree(par, n);
    assert forall|i: int| 0 <= i < new_nodes.len() && !(in_subtree(par, n, i) && i != n) implies #[trigger] consistent_at(new_nodes, i) by {
        if i < n {
            assert(i != p);
            assert(consistent_at(old_nodes, i));
            let ch = old_nodes[i].children@;
            assert forall|x: int| 0 <= x < ch.len() implies #[trigger] child_states(new_nodes, i)[x] == child_states(old_nodes, i)[x] by {
                let c = ch[x] as int;
                assert((ch[x] as int) < n);
                if c != p {
                    assert(new_nodes[c] == old_nodes[c]);
                }
            }
            assert(child_states(new_nodes, i) =~= child_states(old_nodes, i));
        }
    }
}

/// A strict ancestor of a node has at least one child.
pub proof fn lemma_ancestor_has_children(nodes: Seq<FileNode>, m: int, a: int)
    requires
        tree_shape(nodes),
        0 <= m < nodes.len(),
        in_subtree(parents(nodes), m, a),
        m != a,
    ensures
        nodes[a].children@.len() > 0,
    decreases m,
{
    let par = parents(nodes);
    let p = par[m]->0 as int;
    assert(par[m] == nodes[m].parent);
    if p == a {
        assert(nodes[nodes[m].parent->0 as int].children@.contains(m as usize));
    } else {
        lemma_ancestor_has_children(nodes, p, a);
    }
}

/// A node lies in the subtree of its parent.
pub proof fn lemma_parent_in_subtree(par: Seq<Option<usize>>, c: int)
    requires
        0 <= c < par.len(),
        par[c] is Some,
        (par[c]->0 as int) < c,
    ensures
        in_subtree(par, c, par[c]->0 as int),
{
    assert(in_subtree(par, par[c]->0 as int, par[c]->0 as int));
}

/// The ancestors of a node form a chain.
pub proof fn lemma_subtree_chain(par: Seq<Option<usize>>, m: int, a: int, b: int)
    requires
        in_subtree(par, m, a),
        in_subtree(par, m, b),
    ensures
        in_subtree(par, a, b) || in_subtree(par, b, a),
    decreases m,
{
    if m != a && m != b {
        lemma_subtree_chain(par, par[m]->0 as int, a, b);
    }
}

/// Every node below `index` is visited when the visited set holds `index` and
/// is closed under children.
proof fn lemma_reached(par: Seq<Option<usize>>, visited: Set<int>, index: int, m: int)
    requires
        forall|c: int| 0 < c < par.len() ==> (#[trigger] par[c]) is Some && (par[c]->0 as int) < c,
        forall|c: int|
            0 < c < par.len() && visited.contains(#[trigger] par[c]->0 as int) ==> visited.contains(c),
        visited.contains(index),
        in_subtree(par, m, index),
        0 <= m < par.len(),
    ensures
        visited.contains(m),
    decreases m,
{
    if m != index {
        lemma_reached(par, visited, index, par[m]->0 as int);
    }
}

pub proof fn lemma_same_shape(a: Seq<FileNode>, b: Seq<FileNode>)
    requires
        same_links(a, b),
    ensures
        parents(a) == parents(b),
        tree_shape(a) ==> tree_shape(b),
        unique_paths(a) ==> unique_paths(b),
        forall|bk: Seq<Vec<usize>>| #[trigger] index_wf(a, bk) ==> index_wf(b, bk),
{
    assert forall|bk: Seq<Vec<usize>>| #[trigger] index_wf(a, bk) implies index_wf(b, bk) by {
        assert forall|i: int| 0 <= i < b.len() implies #[trigger] bk[bucket_of(b[i].path@, bk.len() as int)]@.contains(i as usize) by {
            assert(bk[bucket_of(a[i].path@, bk.len() as int)]@.contains(i as usize));
        }
    }
    assert(parents(a) =~= parents(b));
    if tree_shape(a) {
        assert forall|c: int| 0 < c < b.len() implies #[trigger] b[b[c].parent->0 as int].children@.contains(
            c as usize,
        ) by {
            assert(a[a[c].parent->0 as int].children@.contains(c as usize));
        }
        assert forall|i: int, k: int|
            0 <= i < b.len() && 0 <= k < b[i].children@.len() implies (#[trigger] b[i].children@[k] as int)
            < b.len() && b[b[i].children@[k] as int].parent == Some(i as usize) by {
            assert(a[i].children@[k] == b[i].children@[k]);
        }
        assert forall|i: int, x: int, y: int|
            0 <= i < b.len() && 0 <= x < y < b[i].children@.len() implies #[trigger] b[i].children@[x]
            < #[trigger] b[i].children@[y] by {
            assert(a[i].children@[x] == b[i].children@[x]);
            assert(a[i].children@[y] == b[i].children@[y]);
        }
    }
    if unique_paths(a) {
        assert forall|i: int, j: int|
            0 <= i < b.len() && 0 <= j < b.len() && i != j implies #[trigger] b[i].path@
            != #[trigger] b[j].path@ by {
            assert(a[i].path@ != a[j].path@);
        }
    }
}

/// Listing node `x`, the last of `n`, in its bucket extends a path index of
/// the nodes before it to all of `n`.
proof fn lemma_bucket_push(n: Seq<FileNode>, before: Seq<Vec<usize>>, after: Seq<Vec<usize>>, b: int, x: usize)
    requires
        before.len() > 0,
        after.len() == before.len(),
        0 <= b < before.len(),
        x as int == n.len() - 1,
        bucket_of(n[x as int].path@, before.len() as int) == b,
        after[b]@ == before[b]@.push(x),
        forall|c: int| 0 <= c < before.len() && c != b ==> #[trigger] after[c]@ == before[c]@,
        forall|i: int| 0 <= i < x ==> #[trigger] before[bucket_of(n[i].path@, before.len() as int)]@.contains(i as usize),
        forall|c: int, k: int| 0 <= c < before.len() && 0 <= k < before[c]@.len() ==> (#[trigger] before[c]@[k] as int) < x,
    ensures
        index_wf(n, after),
{
    let count = before.len() as int;
    assert forall|i: int| 0 <= i < n.len() implies #[trigger] after[bucket_of(n[i].path@, count)]@.contains(i as usize) by {
        let bi = bucket_of(n[i].path@, count);
        if i < x {
            assert(before[bi]@.contains(i as usize));
            let k = choose|k: int| 0 <= k < before[bi]@.len() && before[bi]@[k] == i as usize;
            if bi == b {
                assert(after[bi]@[k] == i as usize);
            } else {
                assert(after[bi]@ == before[bi]@);
            }
        } else {
            assert(after[b]@[before[b]@.len() as int] == x);
        }
    }
    assert forall|c: int, k: int| 0 <= c < after.len() && 0 <= k < after[c]@.len() implies (#[trigger] after[c]@[k] as int) < n.len() by {
        if c == b && k == before[c]@.len() {
        } else if c == b {
            assert(after[c]@[k] == before[c]@[k]);
        } else {
            assert(after[c]@ == before[c]@);
        }
    }
}

/// Number of buckets of the path index of a new tree.
pub const INITIAL_BUCKETS: usize = 64;

/// `count` empty buckets.
fn empty_buckets(count: usize) -> (r: Vec<Vec<usize>>)
    ensures
        r@.len() == count,
        forall|b: int| 0 <= b < count ==> (#[trigger] r@[b])@.len() == 0,
{
    let mut r: Vec<Vec<usize>> = Vec::new();
    let mut i: usize = 0;
    while i < count
        invariant
            i <= count,
            r@.len() == i,
            forall|b: int| 0 <= b < i ==> (#[trigger] r@[b])@.len() == 0,
        decreases count - i,
    {
        r.push(Vec::new());
        i = i + 1;
    }
    r
}

impl DirectoryTree {
    pub open spec fn wf(&self) -> bool {
        &&& tree_shape(self.nodes@)
        &&& unique_paths(self.nodes@)
        &&& self.root_index == 0
        &&& self.nodes@.len() < usize::MAX
        &&& index_wf(self.nodes@, self.path_buckets@)
    }

    pub open spec fn consistent(&self) -> bool {
        consistent_nodes(self.nodes@)
    }

    /// A tree holding only the root directory, excluded.
    pub fn new(root_path: String) -> (r: Self)
        ensures
            r.wf(),
            r.consistent(),
            r.nodes@.len() == 1,
            r.nodes@[0].path@ == root_path@,
            r.nodes@[0].name@ == name_of(root_path@),
            r.nodes@[0].is_directory,
            r.nodes@[0].state == SelectionState::Excluded,
            !r.nodes@[0].is_text_file,
            r.nodes@[0].size is None,
    {
        let h = path_hash(root_path.as_str());
        let ghost rp = root_path@;
        let mut nodes: Vec<FileNode> = Vec::new();
        nodes.push(FileNode::new(root_path, true, None));
        let mut path_buckets = empty_buckets(INITIAL_BUCKETS);
        let b = (h % (INITIAL_BUCKETS as u64)) as usize;
        path_buckets[b].push(0);
        let r = DirectoryTree { nodes, root_index: 0, path_buckets };
        proof {
            assert(r.path_buckets@[b as int]@.contains(0usize)) by {
                assert(r.path_buckets@[b as int]@[0] == 0usize);
            }
            assert(bucket_of(r.nodes@[0].path@, INITIAL_BUCKETS as int) == b);
        }
        r
    }

    /// Index of the node with path `path`, looked up in its bucket.
    fn find_index(&self, path: &str) -> (r: Option<usize>)
        requires
            self.wf(),
        ensures
            match r {
                Some(i) => i < self.nodes@.len() && self.nodes@[i as int].path@ == path@,
                None => !has_path(self.nodes@, path@),
            },
    {
        let target = String::from_str(path);
        let count = self.path_buckets.len();
        let b = (path_hash(path) % (count as u64)) as usize;
        let ghost bucket = self.path_buckets@[b as int]@;
        proof {
            assert(b as int == bucket_of(path@, count as int));
        }
        let n = self.path_buckets[b].len();
        let mut k: usize = 0;
        while k < n
            invariant
                self.wf(),
                count == self.path_buckets@.len(),
                (b as int) < count,
                bucket == self.path_buckets@[b as int]@,
                n == bucket.len(),
                b as int == bucket_of(path@, count as int),
                target@ == path@,
                k <= n,
                forall|j: int| 0 <= j < k ==> self.nodes@[bucket[j] as int].path@ != path@,
            decreases n - k,
        {
            let i = self.path_buckets[b][k];
            if self.nodes[i].path == target {
                return Some(i);
            }
            k = k + 1;
        }
        proof {
            if has_path(self.nodes@, path@) {
                let i = choose|i: int| 0 <= i < self.nodes@.len() && #[trigger] self.nodes@[i].path@ == path@;
                assert(self.path_buckets@[bucket_of(self.nodes@[i].path@, count as int)]@.contains(i as usize));
                let j = choose|j: int| 0 <= j < bucket.len() && bucket[j] == i as usize;
                assert(self.nodes@[bucket[j] as int].path@ != path@);
            }
        }
        None
    }

    /// Rebuilds the path index with `count` buckets.
    fn rehash(&mut self, count: usize)
        requires
            old(self).wf(),
            count > 0,
        ensures
            final(self).nodes == old(self).nodes,
            final(self).root_index == old(self).root_index,
            final(self).path_buckets@.len() == count,
            final(self).wf(),
    {
        let mut buckets = empty_buckets(count);
        let len = self.nodes.len();
        let mut i: usize = 0;
        while i < len
            invariant
                len == self.nodes@.len(),
                count > 0,
                i <= len,
                buckets@.len() == count,
                forall|j: int| 0 <= j < i ==> #[trigger] buckets@[bucket_of(self.nodes@[j].path@, count as int)]@.contains(j as usize),
                forall|c: int, k: int| 0 <= c < count && 0 <= k < buckets@[c]@.len() ==> (#[trigger] buckets@[c]@[k] as int) < i,
            decreases len - i,
        {
            let h = path_hash(self.nodes[i].path.as_str());
            let b = (h % (count as u64)) as usize;
            let ghost before = buckets@;
            let mut slot = Vec::new();
            std::mem::swap(&mut slot, &mut buckets[b]);
            slot.push(i);
            std::mem::swap(&mut slot, &mut buckets[b]);
            proof {
                let n = self.nodes@.take(i + 1);
                assert forall|c: int| 0 <= c < count && c != b implies #[trigger] buckets@[c]@ == before[c]@ by {}
                assert forall|j: int| 0 <= j < i implies #[trigger] before[bucket_of(n[j].path@, count as int)]@.contains(j as usize) by {
                    assert(n[j] == self.nodes@[j]);
                }
                lemma_bucket_push(n, before, buckets@, b as int, i);
                assert forall|j: int| 0 <= j < i + 1 implies #[trigger] buckets@[bucket_of(self.nodes@[j].path@, count as int)]@.contains(j as usize) by {
                    assert(n[j] == self.nodes@[j]);
                }
            }
            i = i + 1;
        }
        self.path_buckets = buckets;
    }

    /// Inserts a node for `path` under the node whose path is `parent_path`.
    /// Returns the index already held by `path` when it was inserted before,
    /// and `None` (inserting nothing) when no node has path `parent_path`.
    /// A file is classified as text by its name or else by `sample`, its
    /// leading bytes.
    pub fn add_node(&mut self, path: String, is_directory: bool, parent_path: &str, sample: &[u8]) -> (r:
        Option<usize>)
        requires
            old(self).wf(),
            old(self).nodes@.len() + 1 < usize::MAX,
        ensures
            final(self).wf(),
            final(self).root_index == old(self).root_index,
            has_path(old(self).nodes@, path@) ==> {
                &&& final(self).nodes@ == old(self).nodes@
                &&& r is Some
                &&& r->0 < old(self).nodes@.len()
                &&& old(self).nodes@[r->0 as int].path@ == path@
            },
            !has_path(old(self).nodes@, path@) && !has_path(old(self).nodes@, parent_path@) ==> {
                &&& final(self).nodes@ == old(self).nodes@
                &&& r is None
            },
            !has_path(old(self).nodes@, path@) && has_path(old(self).nodes@, parent_path@) ==> {
                let n = old(self).nodes@.len();
                let node = final(self).nodes@[n as int];
                let p = node.parent->0 as int;
                &&& r == Some(n as usize)
                &&& final(self).nodes@.len() == n + 1
                &&& node.path@ == path@
                &&& node.name@ == name_of(path@)
                &&& node.is_directory == is_directory
                &&& node.size is None
                &&& node.children@.len() == 0
                &&& node.parent is Some
                &&& 0 <= p < n
                &&& old(self).nodes@[p].path@ == parent_path@
                &&& node.state == SelectionState::Excluded
                &&& node.is_text_file == (!is_directory && (text_by_name(path@) || text_by_content(
                    sample@,
                )))
                &&& final(self).nodes@[p].children@ == old(self).nodes@[p].children@.push(n as usize)
                &&& forall|i: int|
                    0 <= i < n && i != p ==> #[trigger] final(self).nodes@[i] == old(self).nodes@[i]
                &&& final(self).nodes@[p].path == old(self).nodes@[p].path
                &&& final(self).nodes@[p].name == old(self).nodes@[p].name
                &&& final(self).nodes@[p].is_directory == old(self).nodes@[p].is_directory
                &&& final(self).nodes@[p].size == old(self).nodes@[p].size
                &&& final(self).nodes@[p].parent == old(self).nodes@[p].parent
                &&& final(self).nodes@[p].state == old(self).nodes@[p].state
                &&& final(self).nodes@[p].is_text_file == old(self).nodes@[p].is_text_file
            },
    {
        match self.find_index(path.as_str()) {
            Some(i) => {
                return Some(i);
            },
            None => {},
        }
        let parent_index = match self.find_index(parent_path) {
            Some(p) => p,
            None => {
                return None;
            },
        };
        let node_index = self.nodes.len();
        let text = if is_directory {
            false
        } else {
            is_text_file(path.as_str(), sample)
        };
        let h = path_hash(path.as_str());
        let mut node = FileNode::new(path, is_directory, Some(parent_index));
        node.is_text_file = text;
        let ghost old_nodes = self.nodes@;
        let ghost old_buckets = self.path_buckets@;
        self.nodes.push(node);
        self.nodes[parent_index].add_child(node_index);
        proof {
            let n = self.nodes@;
            assert forall|i: int| 0 <= i < old_nodes.len() && i != parent_index implies #[trigger] n[i] == old_nodes[i] by {}
            assert forall|c: int| 0 < c < n.len() implies #[trigger] n[n[c].parent->0 as int].children@.contains(
                c as usize,
            ) by {
                if c < node_index {
                    assert(old_nodes[old_nodes[c].parent->0 as int].children@.contains(c as usize));
                    let p = old_nodes[c].parent->0 as int;
                    if p == parent_index {
                        let k = choose|k: int| 0 <= k < old_nodes[p].children@.len() && old_nodes[p].children@[k] == c as usize;
                        assert(n[p].children@[k] == c as usize);
                    }
                } else {
                    assert(n[parent_index as int].children@.last() == c as usize);
                }
            }
            assert forall|i: int, k: int|
                0 <= i < n.len() && 0 <= k < n[i].children@.len() implies (#[trigger] n[i].children@[k] as int)
                < n.len() && n[n[i].children@[k] as int].parent == Some(i as usize) by {
                if i == parent_index && k == old_nodes[i].children@.len() {
                } else {
                    assert(old_nodes[i].children@[k] == n[i].children@[k]);
                }
            }
            assert forall|i: int, x: int, y: int|
                0 <= i < n.len() && 0 <= x < y < n[i].children@.len() implies #[trigger] n[i].children@[x]
                < #[trigger] n[i].children@[y] by {
                if i == parent_index && y == old_nodes[i].children@.len() {
                    assert(old_nodes[i].children@[x] == n[i].children@[x]);
                } else {
                    assert(old_nodes[i].children@[x] == n[i].children@[x]);
                    assert(old_nodes[i].children@[y] == n[i].children@[y]);
                }
            }
            assert forall|i: int| 0 < i < n.len() implies (#[trigger] n[i].parent) is Some && (n[i].parent->0 as int) < i by {
                if i < node_index {
                    assert(old_nodes[i].parent == n[i].parent);
                }
            }
            assert forall|i: int, j: int|
                0 <= i < n.len() && 0 <= j < n.len() && i != j implies #[trigger] n[i].path@
                != #[trigger] n[j].path@ by {
                if i < node_index && j < node_index {
                    assert(old_nodes[i].path@ != old_nodes[j].path@);
                } else if i == node_index {
                    assert(n[j].path@ == old_nodes[j].path@);
                } else {
                    assert(n[i].path@ == old_nodes[i].path@);
                }
            }
        }
        let count = self.path_buckets.len();
        let b = (h % (count as u64)) as usize;
        let ghost before = self.path_buckets@;
        let mut slot = Vec::new();
        std::mem::swap(&mut slot, &mut self.path_buckets[b]);
        slot.push(node_index);
        std::mem::swap(&mut slot, &mut self.path_buckets[b]);
        proof {
            let n = self.nodes@;
            assert forall|c: int| 0 <= c < count && c != b implies #[trigger] self.path_buckets@[c]@ == before[c]@ by {}
            assert forall|i: int| 0 <= i < node_index implies #[trigger] before[bucket_of(n[i].path@, count as int)]@.contains(i as usize) by {
                assert(n[i].path == old_nodes[i].path);
            }
            lemma_bucket_push(n, before, self.path_buckets@, b as int, node_index);
        }
        if self.nodes.len() / 2 > count {
            self.rehash(count * 2);
        }
        Some(node_index)
    }

    /// Writes `state` into every node of the subtree of `index`, walking it
    /// with an explicit stack; Partial is never written downward.
    fn propagate_to_children(&mut self, index: usize, state: SelectionState)
        requires
            old(self).wf(),
            index < old(self).nodes@.len(),
        ensures
            final(self).root_index == old(self).root_index,
            final(self).path_buckets == old(self).path_buckets,
            same_but_state(old(self).nodes@, final(self).nodes@),
            forall|i: int|
                0 <= i < old(self).nodes@.len() ==> (#[trigger] final(self).nodes@[i]).state == if state
                    != SelectionState::Partial && in_subtree(parents(old(self).nodes@), i, index as int) {
                    state
                } else {
                    old(self).nodes@[i].state
                },
    {
        if state == SelectionState::Partial {
            return;
        }
        let ghost old_nodes = self.nodes@;
        let ghost par = parents(old_nodes);
        let ghost len = old_nodes.len() as int;
        let mut stack: Vec<usize> = Vec::new();
        stack.push(index);
        let ghost mut visited: Set<int> = Set::empty();
        proof {
            lemma_int_range(0, len);
            reveal(dfs_inv);
            assert(stack@[0] == index);
        }
        while stack.len() > 0
            invariant
                tree_shape(old_nodes),
                par == parents(old_nodes),
                len == old_nodes.len(),
                len < usize::MAX,
                index < len,
                self.root_index == old(self).root_index,
                self.path_buckets == old(self).path_buckets,
                same_but_state(old_nodes, self.nodes@),
                set_int_range(0, len).finite(),
                set_int_range(0, len).len() == len,
                visited.finite(),
                visited.subset_of(set_int_range(0, len)),
                dfs_inv(par, len, index as int, stack@, visited),
                forall|i: int|
                    0 <= i < len ==> (#[trigger] self.nodes@[i]).state == if visited.contains(i) {
                        state
                    } else {
                        old_nodes[i].state
                    },
            decreases len - visited.len(),
        {
            let ghost st_before = stack@;
            let k = stack.pop().unwrap();
            let ghost st0 = stack@;
            let ghost vis0 = visited;
            proof {
                assert(st_before =~= st0.push(k));
                lemma_dfs_step(old_nodes, par, index as int, st0, k, vis0);
            }
            self.nodes[k].state = state;
            proof {
                visited = visited.insert(k as int);
                lemma_len_subset(vis0, set_int_range(0, len));
                lemma_len_subset(visited, set_int_range(0, len));
            }
            let nchildren = self.nodes[k].children.len();
            let mut j: usize = 0;
            while j < nchildren
                invariant
                    k < len,
                    len == old_nodes.len(),
                    self.root_index == old(self).root_index,
                    self.path_buckets == old(self).path_buckets,
                    same_but_state(old_nodes, self.nodes@),
                    nchildren == old_nodes[k as int].children@.len(),
                    j <= nchildren,
                    stack@ == st0 + old_nodes[k as int].children@.take(j as int),
                decreases nchildren - j,
            {
                let c = self.nodes[k].children[j];
                stack.push(c);
                j = j + 1;
                proof {
                    assert(old_nodes[k as int].children@.take(j as int) =~= old_nodes[k as int].children@.take(
                        j - 1,
                    ).push(c));
                }
            }
            proof {
                assert(old_nodes[k as int].children@.take(nchildren as int) =~= old_nodes[k as int].children@);
            }
        }
        proof {
            lemma_dfs_done(old_nodes, par, index as int, visited);
        }
    }

    /// The aggregate of the states of the children of node `i`.
    fn aggregate_children(&self, i: usize) -> (r: SelectionState)
        requires
            self.wf(),
            i < self.nodes@.len(),
        ensures
            r == aggregate(child_states(self.nodes@, i as int)),
    {
        let ghost cs = child_states(self.nodes@, i as int);
        let n = self.nodes[i].children.len();
        let mut any_included = false;
        let mut any_excluded = false;
        let mut any_partial = false;
        let mut k: usize = 0;
        while k < n
            invariant
                self.wf(),
                i < self.nodes@.len(),
                n == self.nodes@[i as int].children@.len(),
                cs == child_states(self.nodes@, i as int),
                k <= n,
                any_included == cs.take(k as int).contains(SelectionState::Included),
                any_excluded == cs.take(k as int).contains(SelectionState::Excluded),
                any_partial == cs.take(k as int).contains(SelectionState::Partial),
            decreases n - k,
        {
            let c = self.nodes[i].children[k];
            let st = self.nodes[c].state;
            proof {
                assert(cs[k as int] == st);
                assert(cs.take(k + 1 as int) =~= cs.take(k as int).push(st));
                assert forall|x: SelectionState| cs.take(k + 1 as int).contains(x) <==> (cs.take(k as int).contains(x) || x == st) by {
                    if cs.take(k + 1 as int).contains(x) {
                        let j = choose|j: int| 0 <= j < k + 1 && #[trigger] cs.take(k + 1 as int)[j] == x;
                        if j < k {
                            assert(cs.take(k as int)[j] == x);
                        }
                    }
                    if cs.take(k as int).contains(x) {
                        let j = choose|j: int| 0 <= j < k && #[trigger] cs.take(k as int)[j] == x;
                        assert(cs.take(k + 1 as int)[j] == x);
                    }
                    if x == st {
                        assert(cs.take(k + 1 as int)[k as int] == x);
                    }
                }
            }
            match st {
                SelectionState::Included => {
                    any_included = true;
                },
                SelectionState::Excluded => {
                    any_excluded = true;
                },
                SelectionState::Partial => {
                    any_partial = true;
                },
            }
            k = k + 1;
        }
        proof {
            assert(cs.take(n as int) =~= cs);
            reveal(aggregate);
        }
        if any_partial || (any_included && any_excluded) {
            SelectionState::Partial
        } else if any_included {
            SelectionState::Included
        } else {
            SelectionState::Excluded
        }
    }

    /// Recomputes node `parent_index` and then each of its ancestors, walking
    /// parent links up to the root.
    fn update_parent_state(&mut self, parent_index: usize)
        requires
            old(self).wf(),
            parent_index < old(self).nodes@.len(),
        ensures
            final(self).root_index == old(self).root_index,
            final(self).path_buckets == old(self).path_buckets,
            same_but_state(old(self).nodes@, final(self).nodes@),
            forall|i: int|
                0 <= i < old(self).nodes@.len() ==> (#[trigger] final(self).nodes@[i]).state == if in_subtree(
                    parents(old(self).nodes@),
                    parent_index as int,
                    i,
                ) {
                    aggregate(child_states(final(self).nodes@, i))
                } else {
                    old(self).nodes@[i].state
                },
    {
        let ghost old_nodes = self.nodes@;
        let ghost par = parents(old_nodes);
        let ghost len = old_nodes.len() as int;
        let ghost pi = parent_index as int;
        let mut cur: usize = parent_index;
        let mut going = true;
        proof {
            assert forall|i: int| 0 <= i < len && in_subtree(par, pi, i) implies i <= pi by {
                lemma_subtree_le(par, pi, i);
            }
        }
        while going
            invariant
                old(self).wf(),
                old_nodes == old(self).nodes@,
                par == parents(old_nodes),
                len == old_nodes.len(),
                self.root_index == old(self).root_index,
                self.path_buckets == old(self).path_buckets,
                same_but_state(old_nodes, self.nodes@),
                self.wf(),
                cur < len,
                in_subtree(par, pi, cur as int),
                forall|i: int|
                    0 <= i < len && in_subtree(par, pi, i) && (!going || i > cur) ==> (#[trigger] self.nodes@[i]).state
                        == aggregate(child_states(self.nodes@, i)),
                forall|i: int|
                    0 <= i < len && !in_subtree(par, pi, i) ==> (#[trigger] self.nodes@[i]).state == old_nodes[i].state,
            decreases (if going { cur + 1 } else { 0 }),
        {
            let new_state = self.aggregate_children(cur);
            let ghost before = self.nodes@;
            self.nodes[cur].state = new_state;
            proof {
                lemma_same_shape(old_nodes, self.nodes@);
                lemma_write_keeps_child_states(old_nodes, before, self.nodes@, cur as int);
            }
            match self.nodes[cur].parent {
                Some(p) => {
                    proof {
                        assert(par[cur as int] == old_nodes[cur as int].parent);
                        assert(old_nodes[cur as int].parent == self.nodes@[cur as int].parent);
                        if cur == 0 {
                            assert(old_nodes[0].parent is None);
                        }
                        assert(old_nodes[cur as int].parent->0 < cur);
                        lemma_parent_in_subtree(par, cur as int);
                        lemma_subtree_trans(par, pi, cur as int, p as int);
                        lemma_walk_up(par, pi, cur as int);
                    }
                    cur = p;
                },
                None => {
                    proof {
                        assert(par[cur as int] == old_nodes[cur as int].parent);
                        assert(old_nodes[cur as int].parent == self.nodes@[cur as int].parent);
                        lemma_walk_up(par, pi, cur as int);
                    }
                    going = false;
                },
            }
        }
    }

    /// Writes `state` into node `index`, forces it onto the whole subtree
    /// unless it is Partial, then recomputes every ancestor from its children.
    /// An index outside the arena changes nothing.
    pub fn set_state(&mut self, index: usize, state: SelectionState)
        requires
            old(self).wf(),
        ensures
            final(self).wf(),
            final(self).root_index == old(self).root_index,
            index >= old(self).nodes@.len() ==> final(self).nodes@ == old(self).nodes@,
            index < old(self).nodes@.len() ==> set_state_post(old(self).nodes@, final(self).nodes@, index as int, state),
            state != SelectionState::Partial && old(self).consistent() ==> final(self).consistent(),
            state != SelectionState::Partial && index < old(self).nodes@.len() && consistent_off_path(
                old(self).nodes@,
                index as int,
            ) ==> final(self).consistent(),
    {
        if index >= self.nodes.len() {
            return;
        }
        let ghost n0 = self.nodes@;
        let ghost par = parents(n0);
        self.nodes[index].state = state;
        let parent = self.nodes[index].parent;
        proof {
            lemma_same_shape(n0, self.nodes@);
            assert(index_wf(n0, self.path_buckets@));
        }
        let ghost n1 = self.nodes@;
        self.propagate_to_children(index, state);
        proof {
            lemma_same_shape(n1, self.nodes@);
            lemma_same_shape(n0, self.nodes@);
            assert(index_wf(n0, self.path_buckets@));
        }
        let ghost n2 = self.nodes@;
        match parent {
            Some(p) => {
                self.update_parent_state(p);
                proof {
                    lemma_same_shape(n2, self.nodes@);
                    lemma_same_shape(n0, self.nodes@);
                    assert(index_wf(n0, self.path_buckets@));
                    assert(par[index as int] == Some(p));
                    assert(p < index);
                    let n3 = self.nodes@;
                    assert forall|i: int| 0 <= i < n0.len() implies (#[trigger] n3[i]).state == if i == index {
                        state
                    } else if in_subtree(par, i, index as int) {
                        if state != SelectionState::Partial {
                            state
                        } else {
                            n0[i].state
                        }
                    } else if in_subtree(par, index as int, i) {
                        aggregate(child_states(n3, i))
                    } else {
                        n0[i].state
                    } by {
                        if in_subtree(par, p as int, i) {
                            lemma_subtree_le(par, p as int, i);
                            if in_subtree(par, i, index as int) {
                                lemma_subtree_le(par, i, index as int);
                            }
                            assert(in_subtree(par, index as int, i));
                        } else {
                            if in_subtree(par, index as int, i) && i != index {
                                assert(in_subtree(par, p as int, i));
                            }
                        }
                    }
                }
            },
            None => {
                proof {
                    let n3 = self.nodes@;
                    assert forall|i: int| 0 <= i < n0.len() implies (#[trigger] n3[i]).state == if i == index {
                        state
                    } else if in_subtree(par, i, index as int) {
                        if state != SelectionState::Partial {
                            state
                        } else {
                            n0[i].state
                        }
                    } else if in_subtree(par, index as int, i) {
                        aggregate(child_states(n3, i))
                    } else {
                        n0[i].state
                    } by {
                        assert(par[index as int] == n0[index as int].parent);
                    }
                }
            },
        }
        proof {
            if state != SelectionState::Partial && consistent_nodes(n0) {
                assert forall|i: int| 0 <= i < n0.len() && !(in_subtree(par, index as int, i) && i != index) implies #[trigger] consistent_at(n0, i) by {
                    assert(consistent_at(n0, i));
                }
            }
            if state != SelectionState::Partial && consistent_off_path(n0, index as int) {
                lemma_set_state_consistent(n0, self.nodes@, index as int, state);
            }
        }
    }

    /// Sets node `index` to the toggle of its state (Partial resolves to
    /// Included). An index outside the arena changes nothing.
    pub fn toggle_state(&mut self, index: usize)
        requires
            old(self).wf(),
        ensures
            final(self).wf(),
            final(self).root_index == old(self).root_index,
            index >= old(self).nodes@.len() ==> final(self).nodes@ == old(self).nodes@,
            index < old(self).nodes@.len() ==> set_state_post(
                old(self).nodes@,
                final(self).nodes@,
                index as int,
                toggled(old(self).nodes@[index as int].state),
            ),
            old(self).consistent() ==> final(self).consistent(),
    {
        if index < self.nodes.len() {
            let new_state = self.nodes[index].state.toggle();
            self.set_state(index, new_state);
        }
    }

    pub fn get_node(&self, index: usize) -> (r: Option<&FileNode>)
        ensures
            match r {
                Some(n) => index < self.nodes@.len() && *n == self.nodes@[index as int],
                None => index >= self.nodes@.len(),
            },
    {
        if index < self.nodes.len() {
            Some(&self.nodes[index])
        } else {
            None
        }
    }

    /// Mutable access to node `index`; `None` outside the arena. Whatever the
    /// caller writes through the reference becomes the node.
    pub fn get_node_mut(&mut self, index: usize) -> (r: Option<&mut FileNode>)
        ensures
            index < old(self).nodes@.len() ==> r is Some && *r->0 == old(self).nodes@[index as int]
                && final(self).nodes@ == old(self).nodes@.update(index as int, *final(r->0))
                && final(self).root_index == old(self).root_index && final(self).path_buckets
                == old(self).path_buckets,
            index >= old(self).nodes@.len() ==> r is None && *final(self) == *old(self),
    {
        if index < self.nodes.len() {
            Some(&mut self.nodes[index])
        } else {
            None
        }
    }

    /// Number of nodes in the arena.
    pub fn len(&self) -> (r: usize)
        ensures
            r == self.nodes@.len(),
    {
        self.nodes.len()
    }

    /// Records the measured size of node `index`; nothing else changes, and an
    /// index outside the arena changes nothing.
    pub fn set_size(&mut self, index: usize, size: Option<u64>)
        requires
            old(self).wf(),
        ensures
            final(self).wf(),
            final(self).root_index == old(self).root_index,
            final(self).nodes@.len() == old(self).nodes@.len(),
            forall|i: int|
                0 <= i < old(self).nodes@.len() && i != index ==> #[trigger] final(self).nodes@[i] == old(self).nodes@[i],
            index < old(self).nodes@.len() ==> {
                let o = old(self).nodes@[index as int];
                let n = final(self).nodes@[index as int];
                &&& n.size == size
                &&& n.path == o.path
                &&& n.name == o.name
                &&& n.is_directory == o.is_directory
                &&& n.children == o.children
                &&& n.parent == o.parent
                &&& n.state == o.state
                &&& n.is_text_file == o.is_text_file
            },
            old(self).consistent() ==> final(self).consistent(),
    {
        if index < self.nodes.len() {
            let ghost n0 = self.nodes@;
            self.nodes[index].size = size;
            proof {
                lemma_same_shape(n0, self.nodes@);
                assert forall|i: int| 0 <= i < n0.len() implies #[trigger] child_states(self.nodes@, i) == child_states(n0, i) by {
                    assert(child_states(self.nodes@, i) =~= child_states(n0, i));
                }
            }
        }
    }

    /// Appends, in pre-order, the indices of the selected text files in the
    /// subtree of `index`.
    fn collect_included_files(&self, index: usize, out: &mut Vec<usize>)
        requires
            self.wf(),
            index < self.nodes@.len(),
            forall|j: int| 0 <= j < old(out)@.len() ==> (#[trigger] old(out)@[j] as int) < self.nodes@.len(),
        ensures
            final(out)@ == old(out)@ + files_below(self.nodes@, index as int),
            forall|j: int| 0 <= j < final(out)@.len() ==> (#[trigger] final(out)@[j] as int) < self.nodes@.len(),
        decreases self.nodes@.len() - index,
    {
        let ghost start = out@;
        if self.nodes[index].state.is_included() && !self.nodes[index].is_directory
            && self.nodes[index].is_text_file {
            out.push(index);
        }
        let ghost head = out@;
        proof {
            assert(head =~= start + (if selected(self.nodes@[index as int]) {
                seq![index]
            } else {
                Seq::empty()
            }));
        }
        let n = self.nodes[index].children.len();
        let mut k: usize = 0;
        while k < n
            invariant
                self.wf(),
                index < self.nodes@.len(),
                n == self.nodes@[index as int].children@.len(),
                k <= n,
                out@ == head + files_of_children(self.nodes@, index as int, k as int),
                forall|j: int| 0 <= j < out@.len() ==> (#[trigger] out@[j] as int) < self.nodes@.len(),
            decreases n - k,
        {
            let c = self.nodes[index].children[k];
            let ghost before = out@;
            if index < c && c < self.nodes.len() {
                self.collect_included_files(c, out);
            }
            proof {
                assert(self.nodes@[index as int].children@[k as int] == c);
                assert(out@ =~= head + files_of_children(self.nodes@, index as int, k + 1));
            }
            k = k + 1;
        }
    }

    /// The selected text files (included, not directories, text) in
    /// depth-first pre-order from the root, children in insertion order.
    pub fn get_all_included_files(&self) -> (r: Vec<&FileNode>)
        requires
            self.wf(),
        ensures
            r@.len() == files_below(self.nodes@, 0).len(),
            forall|k: int| 0 <= k < r@.len() ==> *(#[trigger] r@[k]) == self.nodes@[files_below(self.nodes@, 0)[k] as int],
    {
        let mut idx: Vec<usize> = Vec::new();
        self.collect_included_files(self.root_index, &mut idx);
        assert(idx@ =~= files_below(self.nodes@, 0));
        let mut r: Vec<&FileNode> = Vec::new();
        let mut k: usize = 0;
        while k < idx.len()
            invariant
                idx@ == files_below(self.nodes@, 0),
                forall|j: int| 0 <= j < idx@.len() ==> (#[trigger] idx@[j] as int) < self.nodes@.len(),
                k <= idx@.len(),
                r@.len() == k,
                forall|j: int| 0 <= j < k ==> *(#[trigger] r@[j]) == self.nodes@[idx@[j] as int],
            decreases idx@.len() - k,
        {
            r.push(&self.nodes[idx[k]]);
            k = k + 1;
        }
        r
    }
}

/// Every stacked node lies in the subtree of `index`, is not visited, and
/// (but `index`) has a visited parent.
pub open spec fn dfs_stack_ok(par: Seq<Option<usize>>, len: int, index: int, stack: Seq<usize>, visited: Set<int>) -> bool {
    forall|j: int|
        0 <= j < stack.len() ==> (#[trigger] stack[j] as int) < len && in_subtree(par, stack[j] as int, index)
            && !visited.contains(stack[j] as int) && (stack[j] != index ==> visited.contains(
            par[stack[j] as int]->0 as int,
        ))
}

pub open spec fn dfs_distinct(stack: Seq<usize>) -> bool {
    forall|a: int, b: int| 0 <= a < b < stack.len() ==> #[trigger] stack[a] != #[trigger] stack[b]
}

/// Every visited node lies in the subtree of `index` and (but `index`) has a
/// visited parent.
pub open spec fn dfs_visited_ok(par: Seq<Option<usize>>, len: int, index: int, visited: Set<int>) -> bool {
    forall|v: int|
        #[trigger] visited.contains(v) ==> 0 <= v < len && in_subtree(par, v, index) && (v != index
            ==> visited.contains(par[v]->0 as int))
}

/// Every child of a visited node is visited or stacked.
pub open spec fn dfs_closed(par: Seq<Option<usize>>, len: int, stack: Seq<usize>, visited: Set<int>) -> bool {
    forall|c: int|
        0 < c < len && visited.contains(#[trigger] par[c]->0 as int) ==> visited.contains(c) || stack.contains(
            c as usize,
        )
}

/// Bookkeeping of the walk over the subtree of `index`.
#[verifier::opaque]
pub open spec fn dfs_inv(par: Seq<Option<usize>>, len: int, index: int, stack: Seq<usize>, visited: Set<int>) -> bool {
    &&& dfs_stack_ok(par, len, index, stack, visited)
    &&& dfs_distinct(stack)
    &&& dfs_visited_ok(par, len, index, visited)
    &&& dfs_closed(par, len, stack, visited)
    &&& visited.contains(index) || stack.contains(index as usize)
}

/// The children of a node taken off the stack are in the subtree, neither
/// visited nor stacked.
proof fn lemma_children_fresh(
    nodes: Seq<FileNode>,
    par: Seq<Option<usize>>,
    index: int,
    st0: Seq<usize>,
    k: usize,
    vis0: Set<int>,
)
    requires
        tree_shape(nodes),
        par == parents(nodes),
        0 <= index < nodes.len(),
        (k as int) < nodes.len(),
        in_subtree(par, k as int, index),
        !vis0.contains(k as int),
        dfs_stack_ok(par, nodes.len() as int, index, st0, vis0),
        dfs_visited_ok(par, nodes.len() as int, index, vis0),
    ensures
        forall|x: int| 0 <= x < nodes[k as int].children@.len() ==> {
            let c = #[trigger] nodes[k as int].children@[x];
            &&& (c as int) < nodes.len()
            &&& par[c as int] == Some(k)
            &&& in_subtree(par, c as int, index)
            &&& !vis0.insert(k as int).contains(c as int)
            &&& !st0.contains(c)
        },
{
    let ch = nodes[k as int].children@;
    assert forall|x: int| 0 <= x < ch.len() implies {
        let c = #[trigger] ch[x];
        &&& (c as int) < nodes.len()
        &&& par[c as int] == Some(k)
        &&& in_subtree(par, c as int, index)
        &&& !vis0.insert(k as int).contains(c as int)
        &&& !st0.contains(c)
    } by {
        let c = ch[x] as int;
        assert(nodes[c].parent == Some(k));
        assert(par[c] == nodes[c].parent);
        if c == 0 {
            assert(nodes[0].parent is None);
        }
        assert(nodes[c].parent->0 < c);
        if c == index {
            lemma_subtree_le(par, k as int, index);
        }
        if st0.contains(ch[x]) {
            let y = choose|y: int| 0 <= y < st0.len() && st0[y] == ch[x];
            lemma_subtree_le(par, k as int, index);
        }
    }
}

proof fn lemma_step_stack(
    nodes: Seq<FileNode>,
    par: Seq<Option<usize>>,
    index: int,
    st0: Seq<usize>,
    k: usize,
    vis0: Set<int>,
)
    requires
        tree_shape(nodes),
        par == parents(nodes),
        0 <= index < nodes.len(),
        (k as int) < nodes.len(),
        in_subtree(par, k as int, index),
        !vis0.contains(k as int),
        dfs_stack_ok(par, nodes.len() as int, index, st0, vis0),
        dfs_distinct(st0.push(k)),
        dfs_visited_ok(par, nodes.len() as int, index, vis0),
    ensures
        dfs_stack_ok(par, nodes.len() as int, index, st0 + nodes[k as int].children@, vis0.insert(k as int)),
        dfs_distinct(st0 + nodes[k as int].children@),
{
    lemma_children_fresh(nodes, par, index, st0, k, vis0);
    let stack = st0 + nodes[k as int].children@;
    let ch = nodes[k as int].children@;
    let old_stack = st0.push(k);
    assert forall|jj: int| 0 <= jj < stack.len() implies (#[trigger] stack[jj] as int) < nodes.len()
        && in_subtree(par, stack[jj] as int, index) && !vis0.insert(k as int).contains(stack[jj] as int) && (
    stack[jj] != index ==> vis0.insert(k as int).contains(par[stack[jj] as int]->0 as int)) by {
        if jj >= st0.len() {
            assert(stack[jj] == ch[jj - st0.len()]);
        } else {
            assert(stack[jj] == st0[jj]);
            assert(old_stack[jj] == st0[jj]);
            assert(old_stack[st0.len() as int] == k);
        }
    }
    assert forall|a: int, b: int| 0 <= a < b < stack.len() implies #[trigger] stack[a]
        != #[trigger] stack[b] by {
        if b >= st0.len() && a < st0.len() {
            assert(stack[b] == ch[b - st0.len()]);
            assert(stack[a] == st0[a]);
        } else if a >= st0.len() {
            assert(stack[a] == ch[a - st0.len()]);
            assert(stack[b] == ch[b - st0.len()]);
        } else {
            assert(old_stack[a] == st0[a]);
            assert(old_stack[b] == st0[b]);
        }
    }
}

proof fn lemma_step_closed(
    nodes: Seq<FileNode>,
    par: Seq<Option<usize>>,
    index: int,
    st0: Seq<usize>,
    k: usize,
    vis0: Set<int>,
)
    requires
        tree_shape(nodes),
        par == parents(nodes),
        (k as int) < nodes.len(),
        nodes.len() < usize::MAX,
        0 <= index < nodes.len(),
        dfs_closed(par, nodes.len() as int, st0.push(k), vis0),
        vis0.contains(index) || st0.push(k).contains(index as usize),
    ensures
        dfs_closed(par, nodes.len() as int, st0 + nodes[k as int].children@, vis0.insert(k as int)),
        vis0.insert(k as int).contains(index) || (st0 + nodes[k as int].children@).contains(index as usize),
{
    let len = nodes.len() as int;
    let stack = st0 + nodes[k as int].children@;
    let visited = vis0.insert(k as int);
    let ch = nodes[k as int].children@;
    let old_stack = st0.push(k);
    assert forall|c: int|
        0 < c < len && visited.contains(#[trigger] par[c]->0 as int) implies visited.contains(c)
        || stack.contains(c as usize) by {
        if par[c]->0 == k {
            assert(par[c] == nodes[c].parent);
            assert(nodes[nodes[c].parent->0 as int].children@.contains(c as usize));
            let x = choose|x: int| 0 <= x < ch.len() && ch[x] == c as usize;
            assert(stack[st0.len() + x] == c as usize);
        } else if !vis0.contains(c) && c != k as int {
            assert((c as usize) as int == c);
            assert(old_stack.contains(c as usize));
            let y = choose|y: int| 0 <= y < old_stack.len() && old_stack[y] == c as usize;
            if y == st0.len() {
                assert(old_stack[y] == k);
                assert(false);
            }
            assert(old_stack[y] == st0[y]);
            assert(stack[y] == c as usize);
        }
    }
    if !visited.contains(index) {
        let y = choose|y: int| 0 <= y < old_stack.len() && old_stack[y] == index as usize;
        if y == st0.len() {
            assert(old_stack[y] == k);
        }
        assert(old_stack[y] == st0[y]);
        assert(stack[y] == index as usize);
    }
}

proof fn lemma_dfs_step(
    nodes: Seq<FileNode>,
    par: Seq<Option<usize>>,
    index: int,
    st0: Seq<usize>,
    k: usize,
    vis0: Set<int>,
)
    requires
        tree_shape(nodes),
        par == parents(nodes),
        0 <= index < nodes.len(),
        nodes.len() < usize::MAX,
        dfs_inv(par, nodes.len() as int, index, st0.push(k), vis0),
    ensures
        (k as int) < nodes.len(),
        !vis0.contains(k as int),
        vis0.insert(k as int).subset_of(set_int_range(0, nodes.len() as int)),
        dfs_inv(par, nodes.len() as int, index, st0 + nodes[k as int].children@, vis0.insert(k as int)),
{
    reveal(dfs_inv);
    let len = nodes.len() as int;
    let old_stack = st0.push(k);
    assert(old_stack[st0.len() as int] == k);
    assert(dfs_stack_ok(par, len, index, st0, vis0)) by {
        assert forall|y: int| 0 <= y < st0.len() implies (#[trigger] st0[y] as int) < len && in_subtree(
            par,
            st0[y] as int,
            index,
        ) && !vis0.contains(st0[y] as int) && (st0[y] != index ==> vis0.contains(par[st0[y] as int]->0 as int)) by {
            assert(old_stack[y] == st0[y]);
        }
    }
    lemma_step_stack(nodes, par, index, st0, k, vis0);
    lemma_step_closed(nodes, par, index, st0, k, vis0);
    let visited = vis0.insert(k as int);
    assert forall|v: int| #[trigger] visited.contains(v) implies 0 <= v < len && in_subtree(par, v, index)
        && (v != index ==> visited.contains(par[v]->0 as int)) by {
        if v != k as int {
            assert(vis0.contains(v));
        }
    }
}

/// Writing one node's state leaves the child states of that node and of every
/// later node as they were.
proof fn lemma_write_keeps_child_states(shape: Seq<FileNode>, before: Seq<FileNode>, after: Seq<FileNode>, cur: int)
    requires
        tree_shape(shape),
        same_but_state(shape, before),
        same_but_state(shape, after),
        0 <= cur < shape.len(),
        forall|i: int| 0 <= i < shape.len() && i != cur ==> (#[trigger] after[i]).state == before[i].state,
    ensures
        forall|i: int| 0 <= i < shape.len() && i >= cur ==> #[trigger] child_states(after, i) == child_states(before, i),
{
    assert forall|i: int| 0 <= i < shape.len() && i >= cur implies #[trigger] child_states(after, i) == child_states(before, i) by {
        assert forall|x: int| 0 <= x < before[i].children@.len() implies (#[trigger] before[i].children@[x] as int) != cur by {
            assert(shape[i].children@[x] == before[i].children@[x]);
            let c = shape[i].children@[x] as int;
            assert(shape[c].parent == Some(i as usize));
            if c == 0 {
                assert(shape[0].parent is None);
            }
        }
        assert(child_states(after, i) =~= child_states(before, i));
    }
}

/// On the chain of ancestors of `pi`, no ancestor lies strictly between `cur`
/// and its parent.
proof fn lemma_walk_up(par: Seq<Option<usize>>, pi: int, cur: int)
    requires
        in_subtree(par, pi, cur),
        0 <= cur < par.len(),
    ensures
        par[cur] is Some && (par[cur]->0 as int) < cur ==> forall|i: int|
            #[trigger] in_subtree(par, pi, i) && i < cur ==> i <= par[cur]->0,
        par[cur] is None ==> forall|i: int| #[trigger] in_subtree(par, pi, i) ==> i >= cur,
{
    assert forall|i: int| #[trigger] in_subtree(par, pi, i) && i < cur implies (par[cur] is Some && (par[cur]->0 as int) < cur
        && i <= par[cur]->0) || par[cur] is None || par[cur]->0 >= cur by {
        lemma_subtree_chain(par, pi, i, cur);
        if in_subtree(par, i, cur) {
            lemma_subtree_le(par, i, cur);
        } else if par[cur] is Some && (par[cur]->0 as int) < cur {
            lemma_subtree_le(par, par[cur]->0 as int, i);
        }
    }
    assert forall|i: int| #[trigger] in_subtree(par, pi, i) && par[cur] is None implies i >= cur by {
        lemma_subtree_chain(par, pi, i, cur);
        if in_subtree(par, i, cur) {
            lemma_subtree_le(par, i, cur);
        }
    }
}

/// Below the node that `set_state` wrote, all children carry the written state.
proof fn lemma_consistent_below(n0: Seq<FileNode>, n3: Seq<FileNode>, idx: int, s: SelectionState, i: int)
    requires
        tree_shape(n0),
        0 <= idx < n0.len(),
        0 <= i < n0.len(),
        s != SelectionState::Partial,
        set_state_post(n0, n3, idx, s),
        in_subtree(parents(n0), i, idx),
    ensures
        n3[i].children@.len() > 0 ==> n3[i].state == aggregate(child_states(n3, i)),
        n3[i].children@.len() == 0 ==> n3[i].state != SelectionState::Partial,
{
    let par = parents(n0);
    let ch = n3[i].children@;
    assert(ch == n0[i].children@);
    assert(n3[i].state == s);
    assert forall|x: int| 0 <= x < ch.len() implies #[trigger] child_states(n3, i)[x] == s by {
        assert(ch[x] == n0[i].children@[x]);
        let c = n0[i].children@[x] as int;
        assert(n0[c].parent == Some(i as usize));
        if c == 0 {
            assert(n0[0].parent is None);
        }
        assert(par[c] == n0[c].parent);
        assert(in_subtree(par, c, idx));
    }
    if ch.len() > 0 {
        reveal(aggregate);
        assert(child_states(n3, i)[0] == s);
        assert(!child_states(n3, i).contains(toggled(s)));
        assert(!child_states(n3, i).contains(SelectionState::Partial));
    }
}

/// Away from the written node and its ancestors, children keep their states.
proof fn lemma_consistent_elsewhere(n0: Seq<FileNode>, n3: Seq<FileNode>, idx: int, s: SelectionState, i: int)
    requires
        tree_shape(n0),
        consistent_off_path(n0, idx),
        0 <= idx < n0.len(),
        0 <= i < n0.len(),
        set_state_post(n0, n3, idx, s),
        !in_subtree(parents(n0), i, idx),
        !in_subtree(parents(n0), idx, i),
    ensures
        child_states(n3, i) == child_states(n0, i),
{
    let par = parents(n0);
    let ch = n3[i].children@;
    assert(ch == n0[i].children@);
    assert forall|x: int| 0 <= x < ch.len() implies #[trigger] child_states(n3, i)[x] == child_states(n0, i)[x] by {
        assert(ch[x] == n0[i].children@[x]);
        let c = n0[i].children@[x] as int;
        assert(n0[c].parent == Some(i as usize));
        if c == 0 {
            assert(n0[0].parent is None);
        }
        assert(par[c] == n0[c].parent);
        if in_subtree(par, c, idx) {
            assert(c == idx);
        }
        lemma_parent_in_subtree(par, c);
        if in_subtree(par, idx, c) {
            lemma_subtree_trans(par, idx, c, i);
        }
    }
    assert(child_states(n3, i) =~= child_states(n0, i));
}

/// `set_state` with a state other than Partial leaves a consistent tree when
/// the tree was consistent away from the strict ancestors of the written node.
pub proof fn lemma_set_state_consistent(n0: Seq<FileNode>, n3: Seq<FileNode>, idx: int, s: SelectionState)
    requires
        tree_shape(n0),
        consistent_off_path(n0, idx),
        0 <= idx < n0.len(),
        s != SelectionState::Partial,
        set_state_post(n0, n3, idx, s),
    ensures
        consistent_nodes(n3),
{
    let par = parents(n0);
    assert forall|i: int| 0 <= i < n3.len() implies {
        &&& (#[trigger] n3[i]).children@.len() > 0 ==> n3[i].state == aggregate(child_states(n3, i))
        &&& n3[i].children@.len() == 0 ==> n3[i].state != SelectionState::Partial
    } by {
        assert(n3[i].children@ == n0[i].children@);
        if in_subtree(par, i, idx) {
            lemma_consistent_below(n0, n3, idx, s, i);
        } else if in_subtree(par, idx, i) {
            if n3[i].children@.len() == 0 {
                reveal(aggregate);
                assert(child_states(n3, i) =~= Seq::empty());
            }
        } else {
            lemma_consistent_elsewhere(n0, n3, idx, s, i);
            assert(consistent_at(n0, i));
        }
    }
}

proof fn lemma_dfs_done(nodes: Seq<FileNode>, par: Seq<Option<usize>>, index: int, visited: Set<int>)
    requires
        tree_shape(nodes),
        par == parents(nodes),
        0 <= index < nodes.len(),
        dfs_inv(par, nodes.len() as int, index, Seq::empty(), visited),
    ensures
        forall|i: int| 0 <= i < nodes.len() ==> (#[trigger] visited.contains(i) <==> in_subtree(par, i, index)),
{
    reveal(dfs_inv);
    assert forall|c: int| 0 < c < par.len() implies (#[trigger] par[c]) is Some && (par[c]->0 as int) < c by {
        assert(par[c] == nodes[c].parent);
    }
    assert forall|i: int| 0 <= i < nodes.len() implies (#[trigger] visited.contains(i) <==> in_subtree(par, i, index)) by {
        if in_subtree(par, i, index) {
            lemma_reached(par, visited, index, i);
        }
    }
}

} // verus!
