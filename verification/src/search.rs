//! The query engine: parses the query, scores every committed document,
//! ranks the matches by score descending (ties broken by insertion
//! order), truncates to the caller's limit, and returns the stored fields
//! with each hit. A malformed query yields an empty, successful result; a
//! query that is absent or empty yields an empty result with no work done.
//!
//! Clauses combine by OR with relevance scoring; the default query fields
//! are `title` and `description` — `company`, though tokenized in the
//! index, is not a default query field.

use vstd::prelude::*;
use vstd::relations::{sorted_by, total_ordering};
use vstd::seq_lib::lemma_sorted_unique;
use crate::index::{DocView, Snapshot};
use crate::query::{Clause, ClauseView, parse_query, parse_spec};
use crate::rank::{clause_weights, score, score_exec};

verus! {

/// Ranking order on (score, insertion index) pairs: higher score first,
/// then lower index.
pub open spec fn rank_le(a: (int, int), b: (int, int)) -> bool {
    a.0 > b.0 || (a.0 == b.0 && a.1 <= b.1)
}

/// The ranking order as a relation value.
pub open spec fn rank_fn() -> spec_fn((int, int), (int, int)) -> bool {
    |a: (int, int), b: (int, int)| rank_le(a, b)
}

pub proof fn lemma_rank_total()
    ensures
        total_ordering(rank_fn()),
{
    assert forall|x: (int, int), y: (int, int)| #[trigger] rank_fn()(x, y) || #[trigger] rank_fn()(
        y,
        x,
    ) by {}
    assert forall|x: (int, int), y: (int, int)| #[trigger] rank_fn()(x, y) && #[trigger] rank_fn()(
        y,
        x,
    ) implies x == y by {}
}

/// The smaller of two values.
pub open spec fn spec_min(a: int, b: int) -> int {
    if a <= b {
        a
    } else {
        b
    }
}

/// The (score, index) pairs of the matching documents among the first
/// `n`, in insertion order.
pub open spec fn scored_prefix(cs: Seq<ClauseView>, docs: Seq<DocView>, n: int) -> Seq<(int, int)>
    decreases n,
{
    if n <= 0 {
        Seq::empty()
    } else {
        let rest = scored_prefix(cs, docs, n - 1);
        if 0 <= n - 1 < docs.len() && score(cs, docs[n - 1], docs) > 0 {
            rest.push((score(cs, docs[n - 1], docs), n - 1))
        } else {
            rest
        }
    }
}

/// The (score, index) pairs of all matching documents.
pub open spec fn scored_pairs(cs: Seq<ClauseView>, docs: Seq<DocView>) -> Seq<(int, int)> {
    scored_prefix(cs, docs, docs.len() as int)
}

/// The matching documents in rank order.
pub open spec fn ranked_pairs(cs: Seq<ClauseView>, docs: Seq<DocView>) -> Seq<(int, int)> {
    scored_pairs(cs, docs).sort_by(rank_fn())
}

/// The ranked matches truncated to the caller's limit.
pub open spec fn top_pairs(cs: Seq<ClauseView>, docs: Seq<DocView>, limit: int) -> Seq<(int, int)> {
    ranked_pairs(cs, docs).take(spec_min(limit, ranked_pairs(cs, docs).len() as int))
}

/// Every scored pair points at a matching document and carries its score.
pub proof fn lemma_scored_prefix_elems(cs: Seq<ClauseView>, docs: Seq<DocView>, n: int)
    ensures
        forall|e: (int, int)|
            #[trigger] scored_prefix(cs, docs, n).contains(e) ==> 0 <= e.1 < docs.len() && e.1 < n
                && e.0 == score(cs, docs[e.1], docs) && e.0 > 0,
    decreases n,
{
    if n <= 0 {
    } else {
        lemma_scored_prefix_elems(cs, docs, n - 1);
        let rest = scored_prefix(cs, docs, n - 1);
        assert forall|e: (int, int)| #[trigger] scored_prefix(cs, docs, n).contains(e) implies 0
            <= e.1 < docs.len() && e.1 < n && e.0 == score(cs, docs[e.1], docs) && e.0 > 0 by {
            if 0 <= n - 1 < docs.len() && score(cs, docs[n - 1], docs) > 0 {
                let s = scored_prefix(cs, docs, n);
                let i = choose|i: int| 0 <= i < s.len() && s[i] == e;
                if i < rest.len() {
                    assert(rest.contains(e));
                } else {
                    assert(e == (score(cs, docs[n - 1], docs), n - 1));
                }
            } else {
                assert(rest.contains(e));
            }
        }
    }
}

/// Every matching document is scored: completeness of the match list.
pub proof fn lemma_scored_prefix_complete(cs: Seq<ClauseView>, docs: Seq<DocView>, n: int)
    ensures
        forall|i: int|
            0 <= i < n && i < docs.len() && score(cs, docs[i], docs) > 0
                ==> #[trigger] scored_prefix(cs, docs, n).contains((score(cs, docs[i], docs), i)),
    decreases n,
{
    if n <= 0 {
    } else {
        lemma_scored_prefix_complete(cs, docs, n - 1);
        let rest = scored_prefix(cs, docs, n - 1);
        let s = scored_prefix(cs, docs, n);
        assert forall|i: int| 0 <= i < n && i < docs.len() && score(cs, docs[i], docs)
            > 0 implies #[trigger] s.contains((score(cs, docs[i], docs), i)) by {
            if i < n - 1 {
                assert(rest.contains((score(cs, docs[i], docs), i)));
                let j = choose|j: int|
                    0 <= j < rest.len() && rest[j] == (score(cs, docs[i], docs), i);
                assert(s[j] == (score(cs, docs[i], docs), i));
            } else {
                assert(s[s.len() - 1] == (score(cs, docs[i], docs), i));
            }
        }
    }
}

/// The mathematical pairs of an executable pair list.
pub open spec fn pairs_view(v: Seq<(u64, usize)>) -> Seq<(int, int)> {
    v.map_values(|p: (u64, usize)| (p.0 as int, p.1 as int))
}

/// Compares two pairs in rank order.
fn rank_before(a: (u64, usize), b: (u64, usize)) -> (r: bool)
    ensures
        r == rank_le((a.0 as int, a.1 as int), (b.0 as int, b.1 as int)),
{
    a.0 > b.0 || (a.0 == b.0 && a.1 <= b.1)
}

/// Inserting an element at a position bounded by the order keeps the
/// sequence sorted.
proof fn lemma_sorted_insert(s: Seq<(int, int)>, e: (int, int), j: int)
    requires
        sorted_by(s, rank_fn()),
        0 <= j <= s.len(),
        forall|k: int| 0 <= k < j ==> rank_le(#[trigger] s[k], e),
        j < s.len() ==> !rank_le(s[j], e),
    ensures
        sorted_by(s.insert(j, e), rank_fn()),
{
    let t = s.insert(j, e);
    assert forall|x: int, y: int| 0 <= x < y < t.len() implies #[trigger] rank_fn()(t[x], t[y]) by {
        if x < j {
            assert(t[x] == s[x]);
        }
        if y < j {
            assert(t[y] == s[y]);
            assert(rank_fn()(s[x], s[y]));
        }
        if x > j {
            assert(t[x] == s[x - 1]);
        }
        if y > j {
            assert(t[y] == s[y - 1]);
            if x < j {
                assert(rank_fn()(s[x], s[y - 1]));
            }
            if x > j {
                assert(rank_fn()(s[x - 1], s[y - 1]));
            }
        }
        if x == j {
            assert(t[x] == e);
            assert(y > j);
            assert(!rank_le(s[j], e));
            assert(rank_le(e, s[j]));
            if y - 1 > j {
                assert(rank_fn()(s[j], s[y - 1]));
            }
        }
        if y == j {
            assert(t[y] == e);
            assert(rank_le(s[x], e));
        }
    }
}

/// Inserting into the sequence inserts into its multiset.
proof fn lemma_insert_multiset(s: Seq<(int, int)>, e: (int, int), j: int)
    requires
        0 <= j <= s.len(),
    ensures
        s.insert(j, e).to_multiset() == s.to_multiset().insert(e),
{
    broadcast use vstd::seq_lib::group_to_multiset_ensures;

    let t = s.insert(j, e);
    assert(t.remove(j) =~= s);
    assert(t[j] == e);
    assert(t.remove(j).to_multiset() =~= t.to_multiset().remove(e));
    assert(t.contains(e));
    assert(t.to_multiset().count(e) > 0);
    assert(t.to_multiset() =~= s.to_multiset().insert(e));
}

/// Finds the position where a pair belongs in a rank-sorted list.
fn insert_pos(out: &Vec<(u64, usize)>, e: (u64, usize)) -> (j: usize)
    ensures
        j <= out@.len(),
        forall|k: int|
            0 <= k < j ==> rank_le(#[trigger] pairs_view(out@)[k], (e.0 as int, e.1 as int)),
        (j as int) < out@.len() ==> !rank_le(
            pairs_view(out@)[j as int],
            (e.0 as int, e.1 as int),
        ),
{
    let mut j: usize = 0;
    while j < out.len()
        invariant
            j <= out@.len(),
            forall|k: int|
                0 <= k < j ==> rank_le(#[trigger] pairs_view(out@)[k], (e.0 as int, e.1 as int)),
        decreases out@.len() - j,
    {
        proof {
            assert(pairs_view(out@)[j as int] == (out@[j as int].0 as int,
            out@[j as int].1 as int));
        }
        if !rank_before(out[j], e) {
            return j;
        }
        j = j + 1;
    }
    j
}

/// Sorts match pairs into rank order.
fn sort_pairs(v: Vec<(u64, usize)>) -> (r: Vec<(u64, usize)>)
    ensures
        pairs_view(r@).to_multiset() == pairs_view(v@).to_multiset(),
        sorted_by(pairs_view(r@), rank_fn()),
{
    broadcast use vstd::seq_lib::group_to_multiset_ensures;

    let mut out: Vec<(u64, usize)> = Vec::new();
    let mut i: usize = 0;
    proof {
        assert(pairs_view(out@) =~= Seq::<(int, int)>::empty());
        assert(pairs_view(v@.take(0)) =~= Seq::<(int, int)>::empty());
        assert(pairs_view(out@).to_multiset() =~= pairs_view(v@.take(0)).to_multiset());
    }
    while i < v.len()
        invariant
            i <= v.len(),
            pairs_view(out@).to_multiset() == pairs_view(v@.take(i as int)).to_multiset(),
            sorted_by(pairs_view(out@), rank_fn()),
        decreases v.len() - i,
    {
        let e = v[i];
        let ghost pe = (e.0 as int, e.1 as int);
        let j = insert_pos(&out, e);
        let ghost pre = pairs_view(out@);
        out.insert(j, e);
        proof {
            assert(pairs_view(out@) =~= pre.insert(j as int, pe));
            lemma_sorted_insert(pre, pe, j as int);
            lemma_insert_multiset(pre, pe, j as int);
            assert(pairs_view(out@).to_multiset() == pre.to_multiset().insert(pe));
            assert(pairs_view(v@.take(i + 1)) =~= pairs_view(v@.take(i as int)).push(pe));
            vstd::seq_lib::to_multiset_build(pairs_view(v@.take(i as int)), pe);
        }
        i = i + 1;
    }
    proof {
        assert(v@.take(v@.len() as int) =~= v@);
        assert(pairs_view(v@.take(v@.len() as int)) =~= pairs_view(v@));
    }
    out
}

/// One hit: the stored fields and the relevance score, scaled by the
/// fixed-point factor of the ranking weights.
pub struct Hit {
    pub title: String,
    pub company: String,
    pub score: u64,
}

/// Mathematical image of a [`Hit`].
pub ghost struct HitView {
    pub title: Seq<char>,
    pub company: Seq<char>,
    pub score: u64,
}

impl View for Hit {
    type V = HitView;

    open spec fn view(&self) -> HitView {
        HitView { title: self.title@, company: self.company@, score: self.score }
    }
}

impl DeepView for Hit {
    type V = HitView;

    open spec fn deep_view(&self) -> HitView {
        self.view()
    }
}

/// The hits for a list of ranked pairs: each hit carries the stored
/// `title` and `company` of its document, and nothing else.
pub open spec fn hits_of(docs: Seq<DocView>, pairs: Seq<(int, int)>) -> Seq<HitView> {
    pairs.map_values(
        |p: (int, int)|
            HitView { title: docs[p.1].title, company: docs[p.1].company, score: p.0 as u64 },
    )
}

/// The response of one search call.
pub struct SearchResponse {
    pub query: String,
    pub total_results: usize,
    pub results: Vec<Hit>,
}

/// The ranked matches: sorted, a permutation of the scored pairs, and
/// made of exactly the matching documents.
pub proof fn lemma_ranked(cs: Seq<ClauseView>, docs: Seq<DocView>)
    ensures
        sorted_by(ranked_pairs(cs, docs), rank_fn()),
        ranked_pairs(cs, docs).to_multiset() == scored_pairs(cs, docs).to_multiset(),
        ranked_pairs(cs, docs).len() == scored_pairs(cs, docs).len(),
        forall|e: (int, int)|
            #[trigger] ranked_pairs(cs, docs).contains(e) ==> 0 <= e.1 < docs.len() && e.0 == score(
                cs,
                docs[e.1],
                docs,
            ) && e.0 > 0,
{
    broadcast use vstd::seq_lib::group_to_multiset_ensures;

    lemma_rank_total();
    scored_pairs(cs, docs).lemma_sort_by_ensures(rank_fn());
    lemma_scored_prefix_elems(cs, docs, docs.len() as int);
    assert(ranked_pairs(cs, docs).len() == ranked_pairs(cs, docs).to_multiset().len());
    assert(scored_pairs(cs, docs).len() == scored_pairs(cs, docs).to_multiset().len());
    assert(ranked_pairs(cs, docs).to_multiset() == scored_pairs(cs, docs).to_multiset());
    assert forall|e: (int, int)| #[trigger] ranked_pairs(cs, docs).contains(e) implies 0 <= e.1
        < docs.len() && e.0 == score(cs, docs[e.1], docs) && e.0 > 0 by {
        assert(ranked_pairs(cs, docs).to_multiset().count(e) > 0);
        assert(scored_pairs(cs, docs).to_multiset().count(e) > 0);
        assert(scored_pairs(cs, docs).contains(e));
    }
}

/// Runs one search against a snapshot: parses the query, scores and ranks
/// the matching documents, and returns at most `limit` hits, each with
/// its stored fields. An empty query, or a malformed one, yields an empty
/// result.
pub fn search(snap: &Snapshot, q: &str, limit: usize) -> (r: SearchResponse)
    ensures
        r.query@ == q@,
        r.total_results == r.results@.len(),
        r.results@.len() <= limit,
        q@.len() == 0 ==> r.results@.len() == 0,
        parse_spec(q@) is None ==> r.results@.len() == 0,
        q@.len() > 0 ==> match parse_spec(q@) {
            Some(cs) => r.results.deep_view() == hits_of(
                snap@.docs,
                top_pairs(cs, snap@.docs, limit as int),
            ) && r.results@.len() == spec_min(limit as int, scored_pairs(cs, snap@.docs).len() as int),
            None => r.results@.len() == 0,
        },
{
    let empty_q = q.unicode_len() == 0;
    if empty_q {
        return SearchResponse { query: q.to_owned(), total_results: 0, results: Vec::new() };
    }
    let parsed = parse_query(q);
    let cs: Vec<Clause> = match parsed {
        Ok(cs) => cs,
        Err(_) => {
            return SearchResponse { query: q.to_owned(), total_results: 0, results: Vec::new() };
        },
    };
    let ghost csv = cs.deep_view();
    let ghost docsv = snap@.docs;
    let docs = &snap.docs;
    let weights = clause_weights(&cs, docs);
    let mut pairs: Vec<(u64, usize)> = Vec::new();
    let mut i: usize = 0;
    proof {
        assert(pairs_view(pairs@) =~= scored_prefix(csv, docsv, 0));
    }
    while i < docs.len()
        invariant
            i <= docs.len(),
            csv == cs.deep_view(),
            docsv == docs.deep_view(),
            docsv.len() == docs@.len(),
            weights@.len() == cs@.len(),
            forall|k: int|
                0 <= k < cs@.len() ==> (#[trigger] weights@[k]) as int == crate::rank::weight(
                    cs.deep_view()[k],
                    docs.deep_view(),
                ),
            pairs_view(pairs@) == scored_prefix(csv, docsv, i as int),
        decreases docs.len() - i,
    {
        proof {
            assert(docsv[i as int] == docs@[i as int]@);
        }
        let sc = score_exec(&cs, &weights, &docs[i], docs);
        if sc > 0 {
            let ghost pre = pairs_view(pairs@);
            pairs.push((sc, i));
            proof {
                assert(pairs_view(pairs@) =~= pre.push((sc as int, i as int)));
            }
        }
        i = i + 1;
    }
    let sorted = sort_pairs(pairs);
    let ghost rankedv = ranked_pairs(csv, docsv);
    proof {
        lemma_ranked(csv, docsv);
        lemma_rank_total();
        lemma_sorted_unique(pairs_view(sorted@), rankedv, rank_fn());
        assert(pairs_view(sorted@) == rankedv);
        assert(sorted@.len() == pairs_view(sorted@).len());
    }
    let mut sorted = sorted;
    if sorted.len() > limit {
        sorted.truncate(limit);
        proof {
            assert(pairs_view(sorted@) =~= rankedv.take(limit as int));
        }
    }
    let ghost topv = top_pairs(csv, docsv, limit as int);
    proof {
        assert(pairs_view(sorted@) =~= topv);
    }
    let mut hits: Vec<Hit> = Vec::new();
    let mut k: usize = 0;
    proof {
        assert(hits.deep_view() =~= hits_of(docsv, topv.take(0)));
    }
    while k < sorted.len()
        invariant
            k <= sorted.len(),
            docsv == snap.docs.deep_view(),
            docsv.len() == snap.docs@.len(),
            pairs_view(sorted@) == topv,
            sorted@.len() == topv.len(),
            rankedv == ranked_pairs(csv, docsv),
            topv == top_pairs(csv, docsv, limit as int),
            forall|e: (int, int)|
                #[trigger] rankedv.contains(e) ==> 0 <= e.1 < docsv.len(),
            hits.deep_view() == hits_of(docsv, topv.take(k as int)),
        decreases sorted.len() - k,
    {
        let p = sorted[k];
        proof {
            assert(topv[k as int] == (p.0 as int, p.1 as int));
            assert(rankedv.contains(topv[k as int]));
            assert((p.1 as int) < docsv.len());
            assert(docsv[p.1 as int] == snap.docs@[p.1 as int]@);
        }
        let d = &snap.docs[p.1];
        let ghost pre = hits.deep_view();
        hits.push(Hit { title: d.title.clone(), company: d.company.clone(), score: p.0 });
        proof {
            assert(hits.deep_view() =~= pre.push(
                HitView {
                    title: docsv[p.1 as int].title,
                    company: docsv[p.1 as int].company,
                    score: p.0,
                },
            ));
            assert(topv.take(k + 1) =~= topv.take(k as int).push(topv[k as int]));
            assert(hits_of(docsv, topv.take(k + 1)) =~= hits_of(docsv, topv.take(k as int)).push(
                hits_of(docsv, topv)[k as int],
            ));
        }
        k = k + 1;
    }
    proof {
        assert(topv.take(topv.len() as int) =~= topv);
    }
    let total = hits.len();
    SearchResponse { query: q.to_owned(), total_results: total, results: hits }
}

/// Runs a search with the fixed default limit of ten hits.
pub fn search_default(snap: &Snapshot, q: &str) -> (r: SearchResponse)
    ensures
        r.query@ == q@,
        r.total_results == r.results@.len(),
        r.results@.len() <= 10,
        q@.len() == 0 ==> r.results@.len() == 0,
        parse_spec(q@) is None ==> r.results@.len() == 0,
        q@.len() > 0 ==> match parse_spec(q@) {
            Some(cs) => r.results.deep_view() == hits_of(
                snap@.docs,
                top_pairs(cs, snap@.docs, 10),
            ),
            None => r.results@.len() == 0,
        },
{
    search(snap, q, 10)
}

} // verus!
