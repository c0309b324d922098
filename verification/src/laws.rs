//! Engine-level laws: statements that relate the builder, the reader and
//! the query engine across calls, proved from the contracts the modules
//! state.

use vstd::prelude::*;
use crate::JobView;
use crate::index::{DocView, docs_of};
use crate::query::ClauseView;
use crate::rank::{doc_count, lemma_match_has_positive_score, score, score_upto};
use crate::search::{
    HitView,
    hits_of,
    lemma_ranked,
    lemma_scored_prefix_complete,
    ranked_pairs,
    scored_pairs,
    top_pairs,
};

verus! {

/// Idempotence of `rebuild`: two indexes rebuilt from the same job
/// sequence hold the same documents, so any fixed query returns the same
/// ranked hits against either — no duplicate hits, no drift in scores.
pub proof fn lemma_rebuild_idempotent(
    jobs: Seq<JobView>,
    s1: crate::index::SnapshotView,
    s2: crate::index::SnapshotView,
    cs: Seq<ClauseView>,
    limit: int,
)
    requires
        s1.docs == docs_of(jobs),
        s2.docs == docs_of(jobs),
    ensures
        hits_of(s1.docs, top_pairs(cs, s1.docs, limit)) == hits_of(
            s2.docs,
            top_pairs(cs, s2.docs, limit),
        ),
{
}

/// Determinism of `search`: for one snapshot, one parsed query and one
/// limit, the hit list is one mathematical value, so repeated calls
/// return the same hits in the same order with the same scores.
pub proof fn lemma_search_deterministic(
    docs: Seq<DocView>,
    cs: Seq<ClauseView>,
    limit: int,
    r1: Seq<HitView>,
    r2: Seq<HitView>,
)
    requires
        r1 == hits_of(docs, top_pairs(cs, docs, limit)),
        r2 == hits_of(docs, top_pairs(cs, docs, limit)),
    ensures
        r1 == r2,
{
}

/// Stored-field integrity: every hit of a search against an index built
/// from `jobs` carries exactly the title and company of the job it points
/// at — no truncation, no tokenized form.
pub proof fn lemma_stored_fields(jobs: Seq<JobView>, cs: Seq<ClauseView>, limit: int, k: int)
    requires
        0 <= limit,
        0 <= k < top_pairs(cs, docs_of(jobs), limit).len(),
    ensures
        ({
            let docs = docs_of(jobs);
            let p = top_pairs(cs, docs, limit)[k];
            let h = hits_of(docs, top_pairs(cs, docs, limit))[k];
            &&& 0 <= p.1 < jobs.len()
            &&& h.title == jobs[p.1].title
            &&& h.company == jobs[p.1].company
        }),
{
    let docs = docs_of(jobs);
    lemma_ranked(cs, docs);
    let p = top_pairs(cs, docs, limit)[k];
    assert(top_pairs(cs, docs, limit)[k] == ranked_pairs(cs, docs)[k]);
    assert(ranked_pairs(cs, docs)[k] == p);
    assert(ranked_pairs(cs, docs).contains(p));
}

/// Completeness of matching: a document in which some clause of the query
/// occurs is among the scored matches, so it is returned whenever the
/// limit reaches its rank — `search` returns fewer hits than the limit
/// only when fewer documents matched.
pub proof fn lemma_matching_doc_is_scored(cs: Seq<ClauseView>, docs: Seq<DocView>, i: int, j: int)
    requires
        docs.len() <= u64::MAX,
        0 <= i < docs.len(),
        0 <= j < cs.len(),
        doc_count(cs[j], docs[i]) > 0,
    ensures
        scored_pairs(cs, docs).contains((score(cs, docs[i], docs), i)),
{
    lemma_match_has_positive_score(cs, docs, i, j);
    lemma_scored_prefix_complete(cs, docs, docs.len() as int);
}

proof fn lemma_score_zero(cs: Seq<ClauseView>, d: DocView, docs: Seq<DocView>, k: int)
    requires
        forall|j: int| 0 <= j < cs.len() ==> doc_count(#[trigger] cs[j], d) == 0,
        k <= cs.len(),
    ensures
        score_upto(cs, d, docs, k) == 0,
    decreases k,
{
    if k <= 0 {
    } else {
        lemma_score_zero(cs, d, docs, k - 1);
    }
}

/// Exclusivity after `rebuild`: a document in which no clause of the
/// query occurs is never returned, however the other documents score.
pub proof fn lemma_no_false_hits(cs: Seq<ClauseView>, docs: Seq<DocView>, limit: int, d: int)
    requires
        0 <= limit,
        0 <= d < docs.len(),
        forall|j: int| 0 <= j < cs.len() ==> doc_count(#[trigger] cs[j], docs[d]) == 0,
    ensures
        forall|k: int|
            0 <= k < top_pairs(cs, docs, limit).len() ==> (#[trigger] top_pairs(
                cs,
                docs,
                limit,
            )[k]).1 != d,
{
    lemma_ranked(cs, docs);
    lemma_score_zero(cs, docs[d], docs, cs.len() as int);
    assert forall|k: int| 0 <= k < top_pairs(cs, docs, limit).len() implies (#[trigger] top_pairs(
        cs,
        docs,
        limit,
    )[k]).1 != d by {
        let p = top_pairs(cs, docs, limit)[k];
        assert(top_pairs(cs, docs, limit)[k] == ranked_pairs(cs, docs)[k]);
        assert(ranked_pairs(cs, docs)[k] == p);
        assert(ranked_pairs(cs, docs).contains(p));
        if p.1 == d {
            assert(p.0 == score(cs, docs[d], docs));
            assert(score(cs, docs[d], docs) == 0);
        }
    }
}

} // verus!
