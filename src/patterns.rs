use vstd::prelude::*;
use vstd::string::*;
use crate::matcher::views;
use crate::paths::{prefix_eq, relative_of, relative_path};
use crate::state::SelectionState;
use crate::tree::{
    in_subtree, lemma_ancestor_has_children, lemma_same_shape, lemma_subtree_le, parents,
    same_but_state, set_state_post, DirectoryTree, FileNode,
};

verus! {

/// Whether `regex::Regex::new` accepts a regular expression.
pub uninterp spec fn regex_compiles(re: Seq<char>) -> bool;

/// Whether a compiled regular expression matches somewhere in a text.
pub uninterp spec fn regex_matches(re: Seq<char>, text: Seq<char>) -> bool;

/// Relies on `regex::Regex::new`, which fails exactly on a malformed
/// expression, and on `Regex::is_match` of the compiled expression.
#[verifier::external_body]
fn regex_full_match(re: &str, text: &str) -> (r: Option<bool>)
    ensures
        match r {
            Some(b) => regex_compiles(re@) && b == regex_matches(re@, text@),
            None => !regex_compiles(re@),
        },
{
    match regex::Regex::new(re) {
        Ok(rx) => Some(rx.is_match(text)),
        Err(_) => None,
    }
}

/// Regular expression for a wildcard pattern: `**` becomes `.*`, `*` becomes
/// `[^/]*`, `?` becomes `.`, `.` is escaped, other characters stand for
/// themselves.
pub open spec fn glob_regex(p: Seq<char>) -> Seq<char>
    decreases p.len(),
{
    if p.len() == 0 {
        Seq::empty()
    } else if p.len() >= 2 && p[0] == '*' && p[1] == '*' {
        seq!['.', '*'] + glob_regex(p.skip(2))
    } else if p[0] == '*' {
        seq!['[', '^', '/', ']', '*'] + glob_regex(p.skip(1))
    } else if p[0] == '?' {
        seq!['.'] + glob_regex(p.skip(1))
    } else if p[0] == '.' {
        seq!['\\', '.'] + glob_regex(p.skip(1))
    } else {
        seq![p[0]] + glob_regex(p.skip(1))
    }
}

/// The pattern's expression anchored at both ends.
pub open spec fn anchored_regex(p: Seq<char>) -> Seq<char> {
    seq!['^'] + glob_regex(p) + seq!['$']
}

pub open spec fn is_prefix(a: Seq<char>, s: Seq<char>) -> bool {
    a.len() <= s.len() && s.subrange(0, a.len() as int) == a
}

pub open spec fn is_suffix(a: Seq<char>, s: Seq<char>) -> bool {
    a.len() <= s.len() && s.subrange(s.len() - a.len(), s.len() as int) == a
}

/// Whether `path` matches a pattern: `**/*` matches everything, a trailing
/// `*` asks for a prefix, a leading `*` for a suffix; otherwise the anchored
/// wildcard expression decides, or exact equality when it is malformed.
pub open spec fn pattern_matches(path: Seq<char>, pattern: Seq<char>) -> bool {
    if pattern == seq!['*', '*', '/', '*'] {
        true
    } else if pattern.len() > 0 && pattern.last() == '*' {
        is_prefix(pattern.drop_last(), path)
    } else if pattern.len() > 0 && pattern[0] == '*' {
        is_suffix(pattern.skip(1), path)
    } else if regex_compiles(anchored_regex(pattern)) {
        regex_matches(anchored_regex(pattern), path)
    } else {
        path == pattern
    }
}

/// Some pattern matches the relative path or the bare name.
pub open spec fn any_match(pats: Seq<Seq<char>>, rel: Seq<char>, name: Seq<char>) -> bool {
    exists|k: int| 0 <= k < pats.len() && (pattern_matches(rel, #[trigger] pats[k]) || pattern_matches(name, pats[k]))
}

/// Included when the inclusion list is empty or some inclusion pattern matches,
/// and no exclusion pattern matches.
pub open spec fn decide(include_patterns: Seq<Seq<char>>, exclude_patterns: Seq<Seq<char>>, rel: Seq<char>, name: Seq<char>) -> bool {
    (include_patterns.len() == 0 || any_match(include_patterns, rel, name)) && !any_match(exclude_patterns, rel, name)
}

/// The state that the patterns give node `i`.
pub open spec fn pattern_state(nodes: Seq<FileNode>, include_patterns: Seq<Seq<char>>, exclude_patterns: Seq<Seq<char>>, i: int) -> SelectionState {
    if decide(include_patterns, exclude_patterns, relative_of(nodes[0].path@, nodes[i].path@), nodes[i].name@) {
        SelectionState::Included
    } else {
        SelectionState::Excluded
    }
}

/// The wildcard pattern translated to a regular expression.
pub fn glob_to_regex(pattern: &str) -> (r: String)
    ensures
        r@ == glob_regex(pattern@),
{
    let p = pattern;
    let n = p.unicode_len();
    let mut r = String::new();
    let mut i: usize = 0;
    proof {
        assert(p@.skip(0) =~= p@);
    }
    while i < n
        invariant
            n == p@.len(),
            i <= n,
            r@ + glob_regex(p@.skip(i as int)) == glob_regex(p@),
        decreases n - i,
    {
        let ghost rest = p@.skip(i as int);
        let c = p.get_char(i);
        assert(rest[0] == c);
        let ghost old_r = r@;
        if c == '*' && i + 1 < n && p.get_char(i + 1) == '*' {
            assert(rest[1] == '*');
            r.append(".*");
            proof {
                reveal_strlit(".*");
            }
            assert(".*"@ =~= seq!['.', '*']);
            assert(rest.skip(2) =~= p@.skip(i + 2));
            assert(r@ + glob_regex(p@.skip(i + 2)) =~= old_r + (seq!['.', '*'] + glob_regex(rest.skip(2))));
            i = i + 2;
        } else {
            if c == '*' {
                r.append("[^/]*");
                proof {
                    reveal_strlit("[^/]*");
                }
                assert("[^/]*"@ =~= seq!['[', '^', '/', ']', '*']);
                assert(rest.skip(1) =~= p@.skip(i + 1));
                assert(r@ + glob_regex(p@.skip(i + 1)) =~= old_r + (seq!['[', '^', '/', ']', '*'] + glob_regex(rest.skip(1))));
            } else if c == '?' {
                r.append(".");
                proof {
                    reveal_strlit(".");
                }
                assert("."@ =~= seq!['.']);
                assert(rest.skip(1) =~= p@.skip(i + 1));
                assert(r@ + glob_regex(p@.skip(i + 1)) =~= old_r + (seq!['.'] + glob_regex(rest.skip(1))));
            } else if c == '.' {
                r.append("\\.");
                proof {
                    reveal_strlit("\\.");
                }
                assert("\\."@ =~= seq!['\\', '.']);
                assert(rest.skip(1) =~= p@.skip(i + 1));
                assert(r@ + glob_regex(p@.skip(i + 1)) =~= old_r + (seq!['\\', '.'] + glob_regex(rest.skip(1))));
            } else {
                r.append(p.substring_char(i, i + 1));
                assert(rest.skip(1) =~= p@.skip(i + 1));
                assert(r@ + glob_regex(p@.skip(i + 1)) =~= old_r + (seq![c] + glob_regex(rest.skip(1))));
            }
            assert(rest.skip(1) =~= p@.skip(i + 1));
            i = i + 1;
        }
    }
    proof {
        assert(p@.skip(n as int) =~= Seq::<char>::empty());
        assert(r@ + glob_regex(Seq::<char>::empty()) =~= r@);
    }
    r
}

/// Whether `s` ends with `suf`.
fn ends_with(s: &str, suf: &str) -> (r: bool)
    ensures
        r == is_suffix(suf@, s@),
{
    let sl = s.unicode_len();
    let fl = suf.unicode_len();
    if fl > sl {
        return false;
    }
    let off = sl - fl;
    let mut j: usize = 0;
    while j < fl
        invariant
            sl == s@.len(),
            fl == suf@.len(),
            off == sl - fl,
            j <= fl,
            forall|x: int| 0 <= x < j ==> s@[off + x] == suf@[x],
        decreases fl - j,
    {
        if s.get_char(off + j) != suf.get_char(j) {
            assert(s@.subrange(off as int, sl as int)[j as int] != suf@[j as int]);
            return false;
        }
        j = j + 1;
    }
    assert(s@.subrange(off as int, sl as int) =~= suf@);
    true
}

/// Whether `path` matches `pattern`, as `pattern_matches` says.
pub fn path_matches_pattern(path: &str, pattern: &str) -> (r: bool)
    ensures
        r == pattern_matches(path@, pattern@),
{
    let n = pattern.unicode_len();
    proof {
        reveal_strlit("**/*");
        assert("**/*"@ =~= seq!['*', '*', '/', '*']);
    }
    if crate::paths::str_eq(pattern, "**/*") {
        return true;
    }
    if n > 0 && pattern.get_char(n - 1) == '*' {
        let prefix = pattern.substring_char(0, n - 1);
        assert(prefix@ =~= pattern@.drop_last());
        let pl = prefix.unicode_len();
        if pl > path.unicode_len() {
            return false;
        }
        let r = prefix_eq(path, prefix, pl);
        assert(prefix@.subrange(0, pl as int) =~= prefix@);
        return r;
    }
    if n > 0 && pattern.get_char(0) == '*' {
        let suffix = pattern.substring_char(1, n);
        assert(suffix@ =~= pattern@.skip(1));
        return ends_with(path, suffix);
    }
    let mut re = String::from_str("^");
    let g = glob_to_regex(pattern);
    re.append(g.as_str());
    re.append("$");
    proof {
        reveal_strlit("^");
        reveal_strlit("$");
        assert(re@ =~= anchored_regex(pattern@));
    }
    match regex_full_match(re.as_str(), path) {
        Some(b) => b,
        None => crate::paths::str_eq(path, pattern),
    }
}

/// Whether some pattern matches `rel` or `name`.
fn matches_any(pats: &[String], rel: &str, name: &str) -> (r: bool)
    ensures
        r == any_match(views(pats@), rel@, name@),
{
    let mut k: usize = 0;
    while k < pats.len()
        invariant
            k <= pats@.len(),
            forall|j: int|
                0 <= j < k ==> !(pattern_matches(rel@, #[trigger] views(pats@)[j]) || pattern_matches(
                    name@,
                    views(pats@)[j],
                )),
        decreases pats@.len() - k,
    {
        let p = pats[k].as_str();
        assert(views(pats@)[k as int] == p@);
        if path_matches_pattern(rel, p) || path_matches_pattern(name, p) {
            return true;
        }
        k = k + 1;
    }
    false
}

/// Applies the include_patterns and exclusion patterns to the tree: every file (every
/// node without children) is set Included when its root-relative path or its
/// name matches an inclusion pattern, or the inclusion list is empty, and no
/// exclusion pattern matches it; else Excluded. Directory states follow by
/// aggregation.
pub fn apply_patterns(tree: &mut DirectoryTree, include_patterns: &[String], exclude_patterns: &[String])
    requires
        old(tree).wf(),
    ensures
        final(tree).wf(),
        final(tree).root_index == old(tree).root_index,
        same_but_state(old(tree).nodes@, final(tree).nodes@),
        forall|i: int|
            0 <= i < old(tree).nodes@.len() && old(tree).nodes@[i].children@.len() == 0 ==> (#[trigger] final(tree).nodes@[i]).state == pattern_state(old(tree).nodes@, views(include_patterns@), views(exclude_patterns@), i),
        old(tree).consistent() ==> final(tree).consistent(),
{
    let ghost n0 = tree.nodes@;
    let ghost inc = views(include_patterns@);
    let ghost exc = views(exclude_patterns@);
    let include_all = include_patterns.len() == 0;
    let len = tree.nodes.len();
    let mut i: usize = 0;
    while i < len
        invariant
            tree.wf(),
            tree.root_index == old(tree).root_index,
            n0 == old(tree).nodes@,
            len == n0.len(),
            i <= len,
            same_but_state(n0, tree.nodes@),
            include_all == (include_patterns@.len() == 0),
            inc == views(include_patterns@),
            exc == views(exclude_patterns@),
            forall|j: int|
                0 <= j < i && n0[j].children@.len() == 0 ==> (#[trigger] tree.nodes@[j]).state == pattern_state(
                    n0,
                    inc,
                    exc,
                    j,
                ),
            old(tree).consistent() ==> tree.consistent(),
        decreases len - i,
    {
        if tree.nodes[i].children.len() == 0 {
            let root_path = tree.nodes[tree.root_index].path.as_str();
            let rel = relative_path(root_path, tree.nodes[i].path.as_str());
            let name = tree.nodes[i].name.as_str();
            let mut should_include = include_all;
            if !should_include && matches_any(include_patterns, rel.as_str(), name) {
                should_include = true;
            }
            if matches_any(exclude_patterns, rel.as_str(), name) {
                should_include = false;
            }
            let new_state = if should_include {
                SelectionState::Included
            } else {
                SelectionState::Excluded
            };
            let ghost cur = tree.nodes@;
            proof {
                assert(cur[0].path == n0[0].path);
                assert(cur[i as int].path == n0[i as int].path);
                assert(cur[i as int].name == n0[i as int].name);
                assert(new_state == pattern_state(n0, inc, exc, i as int));
                lemma_same_shape(n0, cur);
            }
            tree.set_state(i, new_state);
            proof {
                let par = parents(cur);
                assert forall|j: int|
                    0 <= j < i + 1 && n0[j].children@.len() == 0 implies (#[trigger] tree.nodes@[j]).state
                    == pattern_state(n0, inc, exc, j) by {
                    if j < i {
                        assert(cur[j].children == n0[j].children);
                        if in_subtree(par, j, i as int) {
                            lemma_subtree_le(par, j, i as int);
                        }
                        if in_subtree(par, i as int, j) {
                            lemma_ancestor_has_children(cur, i as int, j);
                        }
                    }
                }
                assert forall|j: int| 0 <= j < n0.len() implies {
                    &&& (#[trigger] tree.nodes@[j]).path == n0[j].path
                    &&& tree.nodes@[j].name == n0[j].name
                    &&& tree.nodes@[j].is_directory == n0[j].is_directory
                    &&& tree.nodes@[j].size == n0[j].size
                    &&& tree.nodes@[j].children == n0[j].children
                    &&& tree.nodes@[j].parent == n0[j].parent
                    &&& tree.nodes@[j].is_text_file == n0[j].is_text_file
                } by {
                    assert(cur[j].path == n0[j].path);
                }
            }
        }
        i = i + 1;
    }
}

} // verus!
