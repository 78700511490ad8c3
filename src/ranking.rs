//! Fuzzy ranking of search hits against a live query: hits the matcher
//! rejects are dropped, the rest are stably sorted by descending score and
//! cut to the best fifty.

use fuzzy_matcher::skim::SkimMatcherV2;
use fuzzy_matcher::FuzzyMatcher;
use vstd::prelude::*;
use crate::search::{hit_view, hits_view, Hit, HitView};
use crate::text::{trim, trimmed};

verus! {

#[verifier::external_type_specification]
#[verifier::external_body]
pub struct ExSkimMatcherV2(SkimMatcherV2);

/// The score that a `SkimMatcherV2` with its default settings gives
/// `pattern` against `choice`; none where it does not match at all.
pub uninterp spec fn skim_score(choice: Seq<char>, pattern: Seq<char>) -> Option<i64>;

/// Relies on `SkimMatcherV2::default`, the matcher with its default settings.
#[verifier::external_body]
fn default_matcher() -> SkimMatcherV2 {
    SkimMatcherV2::default()
}

/// Relies on `FuzzyMatcher::fuzzy_match` of `SkimMatcherV2`: with the default
/// settings the score depends on the two texts alone. Its caches only keep
/// buffers between calls.
#[verifier::external_body]
fn fuzzy_score(matcher: &SkimMatcherV2, choice: &str, pattern: &str) -> (r: Option<i64>)
    ensures
        r == skim_score(choice@, pattern@),
{
    matcher.fuzzy_match(choice, pattern)
}

/// A search hit with its fuzzy score.
#[derive(Debug, Clone, PartialEq)]
pub struct SearchResult {
    pub cantica: String,
    pub canto: u8,
    pub line: usize,
    pub text: String,
    pub score: i64,
}

/// A scored hit as the contracts see it.
pub type Scored = (HitView, i64);

pub open spec fn result_view(r: SearchResult) -> Scored {
    ((r.cantica@, r.canto, r.line, r.text@), r.score)
}

pub open spec fn results_view(s: Seq<SearchResult>) -> Seq<Scored> {
    s.map_values(|r: SearchResult| result_view(r))
}

/// The most results a ranking keeps.
pub const MAX_RESULTS: usize = 50;

/// The hits that have a score, with it, in their given order.
pub open spec fn scored(candidates: Seq<(HitView, Option<i64>)>) -> Seq<Scored>
    decreases candidates.len(),
{
    if candidates.len() == 0 {
        Seq::empty()
    } else {
        let rest = scored(candidates.drop_last());
        match candidates.last().1 {
            Some(s) => rest.push((candidates.last().0, s)),
            None => rest,
        }
    }
}

/// How many entries at the end of `t` score less than `x`.
pub open spec fn count_lower(t: Seq<Scored>, x: Scored) -> nat
    decreases t.len(),
{
    if t.len() > 0 && t.last().1 < x.1 {
        1 + count_lower(t.drop_last(), x)
    } else {
        0
    }
}

/// `x` put into `t` after every entry that does not score less.
pub open spec fn insert_scored(t: Seq<Scored>, x: Scored) -> Seq<Scored> {
    t.insert(t.len() - count_lower(t, x), x)
}

/// The stable sort of `s` by descending score: entries with equal scores keep
/// their order.
pub open spec fn sort_by_score(s: Seq<Scored>) -> Seq<Scored>
    decreases s.len(),
{
    if s.len() == 0 {
        Seq::empty()
    } else {
        insert_scored(sort_by_score(s.drop_last()), s.last())
    }
}

/// The first `n` entries of `s`, or all of them where there are fewer.
pub open spec fn first_n<A>(s: Seq<A>, n: nat) -> Seq<A> {
    if s.len() <= n {
        s
    } else {
        s.take(n as int)
    }
}

pub open spec fn candidates_view(s: Seq<(Hit, Option<i64>)>) -> Seq<(HitView, Option<i64>)> {
    s.map_values(|c: (Hit, Option<i64>)| (hit_view(c.0), c.1))
}

/// The ranking of the given candidates.
pub open spec fn ranked(candidates: Seq<(HitView, Option<i64>)>) -> Seq<Scored> {
    first_n(sort_by_score(scored(candidates)), MAX_RESULTS as nat)
}

/// Each hit with the score the matcher gives `query` against its text.
pub open spec fn candidates_for(hits: Seq<HitView>, query: Seq<char>) -> Seq<(HitView, Option<i64>)> {
    hits.map_values(|h: HitView| (h, skim_score(h.3, query)))
}

/// What ranking `hits` for `query` gives: nothing for a query that is empty
/// or only white space, else the ranking of the hits with their scores.
pub open spec fn ranked_for(hits: Seq<HitView>, query: Seq<char>) -> Seq<Scored> {
    if trimmed(query).len() == 0 {
        Seq::empty()
    } else {
        ranked(candidates_for(hits, query))
    }
}

/// Scores never rise along `t`.
pub open spec fn descending(t: Seq<Scored>) -> bool {
    forall|i: int, j: int| 0 <= i < j < t.len() ==> t[i].1 >= t[j].1
}

/// In a descending `t`, the entries before the insertion point of `x` score at
/// least as much as `x` and those after it less.
proof fn lemma_insertion_point(t: Seq<Scored>, x: Scored)
    requires
        descending(t),
    ensures
        count_lower(t, x) <= t.len(),
        forall|i: int| 0 <= i < t.len() - count_lower(t, x) ==> t[i].1 >= x.1,
        forall|i: int| t.len() - count_lower(t, x) <= i < t.len() ==> t[i].1 < x.1,
    decreases t.len(),
{
    if t.len() > 0 {
        let u = t.drop_last();
        assert(descending(u));
        lemma_insertion_point(u, x);
        assert forall|i: int| 0 <= i < u.len() implies u[i] == t[i] by {}
        if t.last().1 < x.1 {
            assert forall|i: int| 0 <= i < t.len() - count_lower(t, x) implies t[i].1 >= x.1 by {
                assert(u[i] == t[i]);
            }
            assert forall|i: int| t.len() - count_lower(t, x) <= i < t.len() implies t[i].1 < x.1 by {
                if i < u.len() {
                    assert(u[i] == t[i]);
                }
            }
        } else {
            assert forall|i: int| 0 <= i < t.len() implies t[i].1 >= x.1 by {
                if i < t.len() - 1 {
                    assert(t[i].1 >= t[t.len() - 1].1);
                }
            }
        }
    }
}

proof fn lemma_insert_descending(t: Seq<Scored>, x: Scored)
    requires
        descending(t),
    ensures
        descending(insert_scored(t, x)),
{
    lemma_insertion_point(t, x);
    let p = t.len() - count_lower(t, x);
    let r = insert_scored(t, x);
    assert forall|i: int, j: int| 0 <= i < j < r.len() implies r[i].1 >= r[j].1 by {
        if j < p {
        } else if j == p {
        } else if i < p {
            assert(r[j] == t[j - 1]);
        } else if i == p {
            assert(r[j] == t[j - 1]);
        } else {
            assert(r[i] == t[i - 1]);
            assert(r[j] == t[j - 1]);
        }
    }
}

proof fn lemma_sort_descending(s: Seq<Scored>)
    ensures
        descending(sort_by_score(s)),
    decreases s.len(),
{
    if s.len() > 0 {
        lemma_sort_descending(s.drop_last());
        lemma_insert_descending(sort_by_score(s.drop_last()), s.last());
    }
}

/// The first `n` entries after an insertion into a descending `t` depend only
/// on the first `n` entries of `t`.
proof fn lemma_insert_first_n(t: Seq<Scored>, x: Scored, n: nat)
    requires
        descending(t),
    ensures
        first_n(insert_scored(t, x), n) == first_n(insert_scored(first_n(t, n), x), n),
{
    let u = first_n(t, n);
    assert(descending(u));
    lemma_insertion_point(t, x);
    lemma_insertion_point(u, x);
    let p = t.len() - count_lower(t, x);
    let q = u.len() - count_lower(u, x);
    let m = if p <= u.len() {
        p
    } else {
        u.len() as int
    };
    if q < m {
        assert(u[q] == t[q]);
    } else if q > m {
        assert(u[m] == t[m]);
    }
    assert(q == m);
    let a = insert_scored(t, x);
    let b = insert_scored(u, x);
    assert(first_n(a, n) =~= first_n(b, n));
}

proof fn lemma_first_n_descending(t: Seq<Scored>, n: nat)
    requires
        descending(t),
    ensures
        descending(first_n(t, n)),
        first_n(t, n).len() <= n,
        first_n(t, n).len() <= t.len(),
{
}

/// Puts `item` into the best-first list `out` and keeps at most the best
/// fifty.
fn insert_ranked(out: &mut Vec<SearchResult>, item: SearchResult)
    requires
        descending(results_view(old(out)@)),
    ensures
        results_view(final(out)@) == first_n(
            insert_scored(results_view(old(out)@), result_view(item)),
            MAX_RESULTS as nat,
        ),
{
    let ghost t = results_view(out@);
    let ghost x = result_view(item);
    let mut pos: usize = out.len();
    assert(t.take(pos as int) =~= t);
    loop
        invariant
            out@ == old(out)@,
            t == results_view(out@),
            x == result_view(item),
            pos <= out.len(),
            count_lower(t, x) == (out.len() - pos) + count_lower(t.take(pos as int), x),
        ensures
            out@ == old(out)@,
            pos <= out.len(),
            count_lower(t, x) == out.len() - pos,
        decreases pos,
    {
        if pos == 0 {
            assert(t.take(0) =~= Seq::<Scored>::empty());
            break;
        }
        let k = pos - 1;
        assert(t.take(pos as int).drop_last() =~= t.take(k as int));
        assert(t.take(pos as int).last() == t[k as int]);
        assert(t[k as int] == result_view(out@[k as int]));
        if out[k].score >= item.score {
            break;
        }
        pos = k;
    }
    out.insert(pos, item);
    assert(results_view(out@) =~= t.insert(pos as int, x));
    out.truncate(MAX_RESULTS);
    assert(results_view(out@) =~= first_n(t.insert(pos as int, x), MAX_RESULTS as nat));
}

/// Ranks hits that already carry their fuzzy scores: those without a score
/// are dropped, the rest sorted by descending score, equal scores keeping the
/// order of `candidates`, and only the best fifty kept.
pub fn rank_candidates(candidates: &Vec<(Hit, Option<i64>)>) -> (r: Vec<SearchResult>)
    ensures
        results_view(r@) == ranked(candidates_view(candidates@)),
        r.len() <= MAX_RESULTS,
        descending(results_view(r@)),
{
    let ghost cands = candidates_view(candidates@);
    let mut out: Vec<SearchResult> = Vec::new();
    let mut i: usize = 0;
    assert(results_view(out@) =~= first_n(sort_by_score(scored(cands.take(0))), MAX_RESULTS as nat));
    while i < candidates.len()
        invariant
            i <= candidates.len(),
            cands == candidates_view(candidates@),
            results_view(out@) == first_n(sort_by_score(scored(cands.take(i as int))), MAX_RESULTS as nat),
        decreases candidates.len() - i,
    {
        let ghost done = scored(cands.take(i as int));
        proof {
            lemma_sort_descending(done);
            lemma_first_n_descending(sort_by_score(done), MAX_RESULTS as nat);
        }
        assert(cands.take(i + 1).drop_last() =~= cands.take(i as int));
        assert(cands.take(i + 1).last() == cands[i as int]);
        let c = &candidates[i];
        match c.1 {
            Some(score) => {
                let item = SearchResult {
                    cantica: c.0.0.clone(),
                    canto: c.0.1,
                    line: c.0.2,
                    text: c.0.3.clone(),
                    score,
                };
                let ghost x = result_view(item);
                insert_ranked(&mut out, item);
                proof {
                    lemma_insert_first_n(sort_by_score(done), x, MAX_RESULTS as nat);
                    assert(done.push(x).drop_last() =~= done);
                    assert(scored(cands.take(i + 1)) == done.push(x));
                }
            },
            None => {},
        }
        i = i + 1;
    }
    assert(cands.take(i as int) =~= cands);
    proof {
        lemma_sort_descending(scored(cands));
        lemma_first_n_descending(sort_by_score(scored(cands)), MAX_RESULTS as nat);
    }
    out
}

/// Scores search hits against a live query with a fuzzy matcher at its
/// default settings.
pub struct FuzzyRanker {
    matcher: SkimMatcherV2,
}

impl FuzzyRanker {
    /// A ranker whose matcher has the default settings.
    pub fn new() -> (r: Self) {
        FuzzyRanker { matcher: default_matcher() }
    }

    /// The matcher's score of `pattern` against `choice`; none where it does
    /// not match.
    pub fn fuzzy_match(&self, choice: &str, pattern: &str) -> (r: Option<i64>)
        ensures
            r == skim_score(choice@, pattern@),
    {
        fuzzy_score(&self.matcher, choice, pattern)
    }

    /// Ranks `hits` for `query`: nothing for a query that is empty or only
    /// white space; otherwise the hits the matcher accepts, best score first,
    /// equal scores in the order of `hits`, at most fifty.
    pub fn rank(&self, hits: &Vec<Hit>, query: &str) -> (r: Vec<SearchResult>)
        ensures
            results_view(r@) == ranked_for(hits_view(hits@), query@),
            r.len() <= MAX_RESULTS,
            query@.len() == 0 ==> r.len() == 0,
    {
        if trim(query).is_empty() {
            return Vec::new();
        }
        let mut candidates: Vec<(Hit, Option<i64>)> = Vec::new();
        let mut i: usize = 0;
        while i < hits.len()
            invariant
                i <= hits.len(),
                candidates.len() == i,
                candidates_view(candidates@)
                    =~= candidates_for(hits_view(hits@), query@).take(i as int),
            decreases hits.len() - i,
        {
            let h = &hits[i];
            let score = fuzzy_score(&self.matcher, h.3.as_str(), query);
            let ghost before = candidates@;
            let item = ((h.0.clone(), h.1, h.2, h.3.clone()), score);
            let ghost pushed = item;
            candidates.push(item);
            assert(candidates@ =~= before.push(pushed));
            assert(hits_view(hits@)[i as int] == hit_view(hits@[i as int]));
            assert(candidates_view(candidates@)[i as int]
                == candidates_for(hits_view(hits@), query@)[i as int]);
            i = i + 1;
        }
        assert(candidates_for(hits_view(hits@), query@).take(i as int) =~= candidates_for(
            hits_view(hits@),
            query@,
        ));
        rank_candidates(&candidates)
    }
}

} // verus!
