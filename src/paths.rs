use vstd::prelude::*;
use vstd::string::*;

verus! {

/// Index just past the last '/' among the first `i` characters, 0 when there is none.
pub open spec fn name_start(p: Seq<char>, i: int) -> int
    decreases i,
{
    if i <= 0 {
        0
    } else if p[i - 1] == '/' {
        i
    } else {
        name_start(p, i - 1)
    }
}

/// Last component of a '/'-separated path; the whole path when that component is empty.
pub open spec fn name_of(p: Seq<char>) -> Seq<char> {
    let s = name_start(p, p.len() as int);
    if s < p.len() {
        p.subrange(s, p.len() as int)
    } else {
        p
    }
}

/// The prefix that a path strictly below `root` starts with.
pub open spec fn root_prefix(root: Seq<char>) -> Seq<char> {
    if root.len() > 0 && root.last() == '/' {
        root
    } else {
        root.push('/')
    }
}

/// `path` with `root` and its separator removed; `None` when `path` is not `root`
/// or below it.
pub open spec fn strip_root(root: Seq<char>, path: Seq<char>) -> Option<Seq<char>> {
    let pre = root_prefix(root);
    if path == root {
        Some(Seq::empty())
    } else if pre.len() <= path.len() && path.subrange(0, pre.len() as int) == pre {
        Some(path.subrange(pre.len() as int, path.len() as int))
    } else {
        None
    }
}

/// Text shown for a node: its path relative to the root, else its name.
pub open spec fn display_of(root: Seq<char>, path: Seq<char>) -> Seq<char> {
    match strip_root(root, path) {
        Some(r) => r,
        None => name_of(path),
    }
}

/// Text that patterns are matched against: the path relative to the root,
/// else the whole path.
pub open spec fn relative_of(root: Seq<char>, path: Seq<char>) -> Seq<char> {
    match strip_root(root, path) {
        Some(r) => r,
        None => path,
    }
}

proof fn lemma_name_start_bounds(p: Seq<char>, i: int)
    requires
        0 <= i <= p.len(),
    ensures
        0 <= name_start(p, i) <= i,
    decreases i,
{
    if i > 0 && p[i - 1] != '/' {
        lemma_name_start_bounds(p, i - 1);
    }
}

/// Last component of `path`, or the whole of it when that component is empty.
pub fn file_name(path: &str) -> (r: String)
    ensures
        r@ == name_of(path@),
{
    let n = path.unicode_len();
    let mut i: usize = n;
    while i > 0 && path.get_char(i - 1) != '/'
        invariant
            i <= n,
            n == path@.len(),
            name_start(path@, n as int) == name_start(path@, i as int),
        decreases i,
    {
        i = i - 1;
    }
    proof {
        lemma_name_start_bounds(path@, n as int);
    }
    if i < n {
        String::from_str(path.substring_char(i, n))
    } else {
        String::from_str(path)
    }
}

/// Whether the first `k` characters of `a` and `b` agree.
pub fn prefix_eq(a: &str, b: &str, k: usize) -> (r: bool)
    requires
        k <= a@.len(),
        k <= b@.len(),
    ensures
        r == (a@.subrange(0, k as int) == b@.subrange(0, k as int)),
{
    let mut i: usize = 0;
    while i < k
        invariant
            i <= k,
            k <= a@.len(),
            k <= b@.len(),
            a@.subrange(0, i as int) =~= b@.subrange(0, i as int),
        decreases k - i,
    {
        if a.get_char(i) != b.get_char(i) {
            assert(a@.subrange(0, k as int)[i as int] != b@.subrange(0, k as int)[i as int]);
            return false;
        }
        assert(a@.subrange(0, i + 1 as int) =~= a@.subrange(0, i as int).push(a@[i as int]));
        assert(b@.subrange(0, i + 1 as int) =~= b@.subrange(0, i as int).push(b@[i as int]));
        i = i + 1;
    }
    true
}

/// Whether `a` and `b` hold the same characters.
pub fn str_eq(a: &str, b: &str) -> (r: bool)
    ensures
        r == (a@ == b@),
{
    let n = a.unicode_len();
    if n != b.unicode_len() {
        return false;
    }
    let r = prefix_eq(a, b, n);
    assert(a@.subrange(0, n as int) =~= a@);
    assert(b@.subrange(0, n as int) =~= b@);
    r
}

/// `path` relative to `root`, or `None` when it does not lie under `root`.
pub fn strip_root_prefix(root: &str, path: &str) -> (r: Option<String>)
    ensures
        match r {
            Some(s) => strip_root(root@, path@) == Some(s@),
            None => strip_root(root@, path@) is None,
        },
{
    let rl = root.unicode_len();
    let pl = path.unicode_len();
    if str_eq(root, path) {
        return Some(String::new());
    }
    let slash_end = rl > 0 && root.get_char(rl - 1) == '/';
    let ghost pre = root_prefix(root@);
    if slash_end {
        if rl <= pl && prefix_eq(root, path, rl) {
            assert(root@.subrange(0, rl as int) =~= root@);
            return Some(String::from_str(path.substring_char(rl, pl)));
        }
        assert(pre == root@);
        if rl <= pl {
            assert(root@.subrange(0, rl as int) =~= root@);
        }
        None
    } else {
        assert(pre =~= root@.push('/'));
        if rl < pl && prefix_eq(root, path, rl) && path.get_char(rl) == '/' {
            assert(path@.subrange(0, rl + 1 as int) =~= path@.subrange(0, rl as int).push('/'));
            assert(root@.subrange(0, rl as int) =~= root@);
            return Some(String::from_str(path.substring_char(rl + 1, pl)));
        }
        proof {
            if rl < pl && path@.subrange(0, rl + 1 as int) == pre {
                assert(path@.subrange(0, rl as int) =~= pre.subrange(0, rl as int));
                assert(pre.subrange(0, rl as int) =~= root@);
                assert(root@.subrange(0, rl as int) =~= root@);
                assert(path@[rl as int] == pre[rl as int]);
            }
        }
        None
    }
}

/// Text shown for a node at `path` under `root`.
pub fn display_path(root: &str, path: &str) -> (r: String)
    ensures
        r@ == display_of(root@, path@),
{
    match strip_root_prefix(root, path) {
        Some(s) => s,
        None => file_name(path),
    }
}

/// Text that patterns are matched against for a node at `path` under `root`.
pub fn relative_path(root: &str, path: &str) -> (r: String)
    ensures
        r@ == relative_of(root@, path@),
{
    match strip_root_prefix(root, path) {
        Some(s) => s,
        None => String::from_str(path),
    }
}

} // verus!
