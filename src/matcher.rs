use vstd::prelude::*;
use fuzzy_matcher::FuzzyMatcher;
use fuzzy_matcher::skim::SkimMatcherV2;

verus! {

/// What skim's default matcher returns for a text and a query: a score and the
/// matched character positions, or `None` when the query is no subsequence.
pub uninterp spec fn skim_indices(text: Seq<char>, query: Seq<char>) -> Option<(i64, Seq<usize>)>;

/// Relies on `SkimMatcherV2::fuzzy_indices` of fuzzy-matcher with the default
/// configuration: the result depends on the text and the query alone, and an
/// empty query gives score 0 and no positions.
#[verifier::external_body]
fn skim_fuzzy_indices(text: &str, query: &str) -> (r: Option<(i64, Vec<usize>)>)
    ensures
        match r {
            Some(m) => skim_indices(text@, query@) == Some((m.0, m.1@)),
            None => skim_indices(text@, query@) is None,
        },
        query@.len() == 0 ==> match r {
            Some(m) => m.0 == 0 && m.1@.len() == 0,
            None => false,
        },
{
    SkimMatcherV2::default().fuzzy_indices(text, query)
}

/// What skim's default matcher scores a text against a query, or `None` when
/// the query is no subsequence.
pub uninterp spec fn skim_score(text: Seq<char>, query: Seq<char>) -> Option<i64>;

/// Relies on `SkimMatcherV2::fuzzy_match` of fuzzy-matcher with the default
/// configuration: the result depends on the text and the query alone, and an
/// empty query scores 0.
#[verifier::external_body]
fn skim_fuzzy_match(text: &str, query: &str) -> (r: Option<i64>)
    ensures
        r == skim_score(text@, query@),
        query@.len() == 0 ==> r == Some(0i64),
{
    SkimMatcherV2::default().fuzzy_match(text, query)
}

/// Fuzzy subsequence matcher with skim's default scoring.
pub struct FuzzySearch {}

impl FuzzySearch {
    pub fn new() -> (r: Self) {
        FuzzySearch {}
    }

    /// Score and matched positions of `query` in `text`.
    pub fn search(&self, query: &str, text: &str) -> (r: Option<(i64, Vec<usize>)>)
        ensures
            match r {
                Some(m) => skim_indices(text@, query@) == Some((m.0, m.1@)),
                None => skim_indices(text@, query@) is None,
            },
    {
        skim_fuzzy_indices(text, query)
    }

    /// Score of `query` in `text`, without the matched positions.
    pub fn search_score(&self, query: &str, text: &str) -> (r: Option<i64>)
        ensures
            r == skim_score(text@, query@),
    {
        skim_fuzzy_match(text, query)
    }
}

/// One matched item: its score, matched positions and index in the input.
pub struct MatchResult {
    pub score: i64,
    pub indices: Vec<usize>,
    pub item_index: usize,
}

impl MatchResult {
    pub fn new(score: i64, indices: Vec<usize>, item_index: usize) -> (r: Self)
        ensures
            r.score == score,
            r.indices == indices,
            r.item_index == item_index,
    {
        MatchResult { score, indices, item_index }
    }
}

/// `a` comes before `b`: higher score first, ties in input order.
pub open spec fn ranked_before(a: MatchResult, b: MatchResult) -> bool {
    a.score > b.score || (a.score == b.score && a.item_index < b.item_index)
}

/// `r` lists the items that match `q`, each once, with skim's score and
/// positions, ordered by descending score and then by input order.
pub open spec fn ranked_matches(texts: Seq<Seq<char>>, q: Seq<char>, r: Seq<MatchResult>) -> bool {
    &&& forall|k: int|
        0 <= k < r.len() ==> (#[trigger] r[k]).item_index < texts.len() && skim_indices(
            texts[r[k].item_index as int],
            q,
        ) == Some((r[k].score, r[k].indices@))
    &&& forall|i: int|
        0 <= i < texts.len() && (#[trigger] skim_indices(texts[i], q)) is Some ==> exists|k: int|
            0 <= k < r.len() && r[k].item_index == i
    &&& forall|a: int, b: int| 0 <= a < b < r.len() ==> ranked_before(#[trigger] r[a], #[trigger] r[b])
}

/// The view of an empty query: every item, in input order, score 0, no positions.
pub open spec fn identity_matches(n: int, r: Seq<MatchResult>) -> bool {
    &&& r.len() == n
    &&& forall|k: int|
        0 <= k < r.len() ==> (#[trigger] r[k]).item_index == k && r[k].score == 0 && r[k].indices@.len() == 0
}

/// What `search_items` returns for texts `texts` and query `q`.
pub open spec fn search_result(texts: Seq<Seq<char>>, q: Seq<char>, r: Seq<MatchResult>) -> bool {
    if q.len() == 0 {
        identity_matches(texts.len() as int, r)
    } else {
        ranked_matches(texts, q, r)
    }
}

pub open spec fn views(items: Seq<String>) -> Seq<Seq<char>> {
    items.map_values(|s: String| s@)
}

/// Fuzzy search over `items`: an empty query keeps every item in order with
/// score 0; otherwise the matching items, best score first, ties in input order.
pub fn search_items(items: &[String], query: &str) -> (r: Vec<MatchResult>)
    ensures
        search_result(views(items@), query@, r@),
{
    let ghost texts = views(items@);
    let mut results: Vec<MatchResult> = Vec::new();
    if query.is_empty() {
        let mut i: usize = 0;
        while i < items.len()
            invariant
                i <= items@.len(),
                results@.len() == i,
                forall|k: int|
                    0 <= k < i ==> (#[trigger] results@[k]).item_index == k && results@[k].score == 0
                        && results@[k].indices@.len() == 0,
            decreases items@.len() - i,
        {
            results.push(MatchResult::new(0, Vec::new(), i));
            i = i + 1;
        }
        return results;
    }
    let fuzzy_search = FuzzySearch::new();
    let mut i: usize = 0;
    while i < items.len()
        invariant
            i <= items@.len(),
            texts == views(items@),
            query@.len() > 0,
            forall|k: int|
                0 <= k < results@.len() ==> (#[trigger] results@[k]).item_index < i && skim_indices(
                    texts[results@[k].item_index as int],
                    query@,
                ) == Some((results@[k].score, results@[k].indices@)),
            forall|j: int|
                0 <= j < i && (#[trigger] skim_indices(texts[j], query@)) is Some ==> exists|k: int|
                    0 <= k < results@.len() && results@[k].item_index == j,
            forall|a: int, b: int|
                0 <= a < b < results@.len() ==> ranked_before(#[trigger] results@[a], #[trigger] results@[b]),
        decreases items@.len() - i,
    {
        proof {
            assert(texts[i as int] == items@[i as int]@);
        }
        match fuzzy_search.search(query, items[i].as_str()) {
            Some(m) => {
                let score = m.0;
                let mut p: usize = 0;
                while p < results.len() && results[p].score >= score
                    invariant
                        p <= results@.len(),
                        forall|k: int| 0 <= k < p ==> (#[trigger] results@[k]).score >= score,
                    decreases results@.len() - p,
                {
                    p = p + 1;
                }
                let ghost old_results = results@;
                let entry = MatchResult::new(score, m.1, i);
                results.insert(p, entry);
                proof {
                    let r = results@;
                    assert(r =~= old_results.insert(p as int, entry));
                    assert forall|k: int| p <= k < old_results.len() implies (#[trigger] old_results[k]).score < score by {
                        if k > p {
                            assert(ranked_before(old_results[p as int], old_results[k]));
                        }
                    }
                    assert forall|a: int, b: int| 0 <= a < b < r.len() implies ranked_before(#[trigger] r[a], #[trigger] r[b]) by {
                        if b < p {
                            assert(r[a] == old_results[a] && r[b] == old_results[b]);
                        } else if b == p {
                            assert(r[a] == old_results[a]);
                        } else if a == p {
                            assert(r[b] == old_results[b - 1]);
                        } else if a < p {
                            assert(r[a] == old_results[a] && r[b] == old_results[b - 1]);
                            assert(ranked_before(old_results[a], old_results[b - 1]));
                        } else {
                            assert(r[a] == old_results[a - 1] && r[b] == old_results[b - 1]);
                            assert(ranked_before(old_results[a - 1], old_results[b - 1]));
                        }
                    }
                    assert forall|k: int| 0 <= k < r.len() implies (#[trigger] r[k]).item_index < i + 1 && skim_indices(
                        texts[r[k].item_index as int],
                        query@,
                    ) == Some((r[k].score, r[k].indices@)) by {
                        if k < p {
                            assert(r[k] == old_results[k]);
                        } else if k > p {
                            assert(r[k] == old_results[k - 1]);
                        }
                    }
                    assert forall|j: int|
                        0 <= j < i + 1 && (#[trigger] skim_indices(texts[j], query@)) is Some implies exists|k: int|
                        0 <= k < r.len() && r[k].item_index == j by {
                        if j == i {
                            assert(r[p as int].item_index == j);
                        } else {
                            let k = choose|k: int| 0 <= k < old_results.len() && old_results[k].item_index == j;
                            if k < p {
                                assert(r[k] == old_results[k]);
                            } else {
                                assert(r[k + 1] == old_results[k]);
                            }
                        }
                    }
                }
            },
            None => {},
        }
        i = i + 1;
    }
    results
}

} // verus!
