//! Relevance scoring: a deterministic, integer-scaled tf-idf score. Each
//! clause of the query contributes its occurrence count in the document
//! (title and description terms, equally weighted) times an inverse
//! document frequency weight, `SCALE * N / df`, where `N` is the number of
//! committed documents and `df` the number of documents the clause occurs
//! in. Arithmetic saturates at `u64::MAX`; ranking orders by score
//! descending with ties broken by insertion order.

use vstd::prelude::*;
use crate::index::DocView;
use crate::query::{Clause, ClauseView};

verus! {

/// The fixed-point scale of the inverse document frequency weight.
pub open spec fn spec_scale() -> int {
    1000
}

/// Occurrences of term `t` among the first `p` terms of `toks`.
pub open spec fn term_hits_upto(toks: Seq<Seq<u8>>, t: Seq<u8>, p: int) -> int
    decreases p,
{
    if p <= 0 {
        0
    } else {
        term_hits_upto(toks, t, p - 1) + if 0 <= p - 1 < toks.len() && toks[p - 1] == t {
            1int
        } else {
            0int
        }
    }
}

/// Occurrences of term `t` in `toks`.
pub open spec fn term_count(toks: Seq<Seq<u8>>, t: Seq<u8>) -> int {
    term_hits_upto(toks, t, toks.len() as int)
}

/// Whether the phrase `ph` stands at position `p` of `toks`.
pub open spec fn phrase_at(toks: Seq<Seq<u8>>, ph: Seq<Seq<u8>>, p: int) -> bool {
    forall|k: int| 0 <= k < ph.len() ==> toks[p + k] == ph[k]
}

/// Occurrences of the phrase at positions below `p`.
pub open spec fn phrase_hits_upto(toks: Seq<Seq<u8>>, ph: Seq<Seq<u8>>, p: int) -> int
    decreases p,
{
    if p <= 0 {
        0
    } else {
        phrase_hits_upto(toks, ph, p - 1) + if phrase_at(toks, ph, p - 1) {
            1int
        } else {
            0int
        }
    }
}

/// Occurrences of phrase `ph` (consecutive terms) in `toks`.
pub open spec fn phrase_count(toks: Seq<Seq<u8>>, ph: Seq<Seq<u8>>) -> int {
    if ph.len() == 0 || toks.len() < ph.len() {
        0
    } else {
        phrase_hits_upto(toks, ph, toks.len() - ph.len() + 1)
    }
}

/// Occurrences of a clause in one term sequence.
pub open spec fn clause_count(c: ClauseView, toks: Seq<Seq<u8>>) -> int {
    match c {
        ClauseView::Term(t) => term_count(toks, t),
        ClauseView::Phrase(p) => phrase_count(toks, p),
    }
}

/// Addition saturating at `u64::MAX`.
pub open spec fn sat_add(a: int, b: int) -> int {
    if a + b > u64::MAX {
        u64::MAX as int
    } else {
        a + b
    }
}

/// Multiplication saturating at `u64::MAX`.
pub open spec fn sat_mul(a: int, b: int) -> int {
    if a * b > u64::MAX {
        u64::MAX as int
    } else {
        a * b
    }
}

fn sat_add_u64(a: u64, b: u64) -> (r: u64)
    ensures
        r as int == sat_add(a as int, b as int),
{
    if a > u64::MAX - b {
        u64::MAX
    } else {
        a + b
    }
}

fn sat_mul_u64(a: u64, b: u64) -> (r: u64)
    ensures
        r as int == sat_mul(a as int, b as int),
{
    if b == 0 {
        0
    } else if a > u64::MAX / b {
        proof {
            assert(a as int * b as int > u64::MAX as int) by (nonlinear_arith)
                requires
                    0 < b as int,
                    a as int > u64::MAX as int / b as int,
            ;
        }
        u64::MAX
    } else {
        proof {
            assert(a as int * b as int <= u64::MAX as int) by (nonlinear_arith)
                requires
                    0 < b as int,
                    a as int <= u64::MAX as int / b as int,
            ;
        }
        a * b
    }
}

/// Occurrences of a clause in one document: the title and description
/// term sequences, equally weighted.
pub open spec fn doc_count(c: ClauseView, d: DocView) -> int {
    sat_add(clause_count(c, d.title_toks), clause_count(c, d.desc_toks))
}

/// Whether a clause occurs anywhere in a document's searched fields.
pub open spec fn doc_matches(c: ClauseView, d: DocView) -> bool {
    doc_count(c, d) > 0
}

/// Documents among the first `n` that a clause occurs in.
pub open spec fn df_upto(c: ClauseView, docs: Seq<DocView>, n: int) -> int
    decreases n,
{
    if n <= 0 {
        0
    } else {
        df_upto(c, docs, n - 1) + if 0 <= n - 1 < docs.len() && doc_matches(c, docs[n - 1]) {
            1int
        } else {
            0int
        }
    }
}

/// Document frequency of a clause.
pub open spec fn doc_freq(c: ClauseView, docs: Seq<DocView>) -> int {
    df_upto(c, docs, docs.len() as int)
}

/// The inverse document frequency weight of a clause: zero when the
/// clause occurs nowhere, else `SCALE * N / df`, saturating.
pub open spec fn weight(c: ClauseView, docs: Seq<DocView>) -> int {
    let df = doc_freq(c, docs);
    if df <= 0 {
        0
    } else {
        sat_mul(spec_scale(), docs.len() as int) / df
    }
}

/// The relevance score a document earns from the first `k` clauses.
pub open spec fn score_upto(cs: Seq<ClauseView>, d: DocView, docs: Seq<DocView>, k: int) -> int
    decreases k,
{
    if k <= 0 {
        0
    } else {
        sat_add(
            score_upto(cs, d, docs, k - 1),
            sat_mul(weight(cs[k - 1], docs), doc_count(cs[k - 1], d)),
        )
    }
}

/// The relevance score of a document for a parsed query.
pub open spec fn score(cs: Seq<ClauseView>, d: DocView, docs: Seq<DocView>) -> int {
    score_upto(cs, d, docs, cs.len() as int)
}

pub proof fn lemma_term_hits_nonneg(toks: Seq<Seq<u8>>, t: Seq<u8>, p: int)
    ensures
        term_hits_upto(toks, t, p) >= 0,
    decreases p,
{
    if p > 0 {
        lemma_term_hits_nonneg(toks, t, p - 1);
    }
}

pub proof fn lemma_phrase_hits_nonneg(toks: Seq<Seq<u8>>, ph: Seq<Seq<u8>>, p: int)
    ensures
        phrase_hits_upto(toks, ph, p) >= 0,
    decreases p,
{
    if p > 0 {
        lemma_phrase_hits_nonneg(toks, ph, p - 1);
    }
}

pub proof fn lemma_clause_count_nonneg(c: ClauseView, toks: Seq<Seq<u8>>)
    ensures
        clause_count(c, toks) >= 0,
{
    match c {
        ClauseView::Term(t) => lemma_term_hits_nonneg(toks, t, toks.len() as int),
        ClauseView::Phrase(p) => {
            if !(p.len() == 0 || toks.len() < p.len()) {
                lemma_phrase_hits_nonneg(toks, p, toks.len() - p.len() + 1);
            }
        },
    }
}

pub proof fn lemma_doc_count_nonneg(c: ClauseView, d: DocView)
    ensures
        doc_count(c, d) >= 0,
{
    lemma_clause_count_nonneg(c, d.title_toks);
    lemma_clause_count_nonneg(c, d.desc_toks);
}

pub proof fn lemma_df_bounds(c: ClauseView, docs: Seq<DocView>, n: int)
    ensures
        0 <= df_upto(c, docs, n),
        df_upto(c, docs, n) <= if n >= 0 {
            n
        } else {
            0
        },
    decreases n,
{
    if n > 0 {
        lemma_df_bounds(c, docs, n - 1);
    }
}

pub proof fn lemma_df_positive(c: ClauseView, docs: Seq<DocView>, i: int, n: int)
    requires
        0 <= i < n <= docs.len(),
        doc_matches(c, docs[i]),
    ensures
        df_upto(c, docs, n) >= 1,
    decreases n,
{
    lemma_df_bounds(c, docs, n - 1);
    if i < n - 1 {
        lemma_df_positive(c, docs, i, n - 1);
    }
}

/// A clause that occurs in some document weighs at least one unit.
pub proof fn lemma_weight_positive(c: ClauseView, docs: Seq<DocView>, i: int)
    requires
        0 <= i < docs.len(),
        docs.len() <= u64::MAX,
        doc_matches(c, docs[i]),
    ensures
        weight(c, docs) >= 1,
{
    lemma_df_positive(c, docs, i, docs.len() as int);
    lemma_df_bounds(c, docs, docs.len() as int);
    let n = docs.len() as int;
    let df = doc_freq(c, docs);
    let a = sat_mul(spec_scale(), n);
    assert(spec_scale() * n >= n) by (nonlinear_arith)
        requires
            n >= 0,
    ;
    assert(a >= df);
    assert(a / df >= 1) by (nonlinear_arith)
        requires
            a >= df,
            df >= 1,
    ;
}

proof fn lemma_part_nonneg(cs: Seq<ClauseView>, d: DocView, docs: Seq<DocView>, k: int)
    requires
        0 <= k < cs.len(),
    ensures
        sat_mul(weight(cs[k], docs), doc_count(cs[k], d)) >= 0,
{
    lemma_doc_count_nonneg(cs[k], d);
    let df = doc_freq(cs[k], docs);
    lemma_df_bounds(cs[k], docs, docs.len() as int);
    if df > 0 {
        let a = sat_mul(spec_scale(), docs.len() as int);
        assert(a >= 0);
        assert(a / df >= 0) by (nonlinear_arith)
            requires
                a >= 0,
                df >= 1,
        ;
    }
    assert(weight(cs[k], docs) * doc_count(cs[k], d) >= 0) by (nonlinear_arith)
        requires
            weight(cs[k], docs) >= 0,
            doc_count(cs[k], d) >= 0,
    ;
}

pub proof fn lemma_score_upto_nonneg(cs: Seq<ClauseView>, d: DocView, docs: Seq<DocView>, k: int)
    requires
        k <= cs.len(),
    ensures
        score_upto(cs, d, docs, k) >= 0,
    decreases k,
{
    if k > 0 {
        lemma_score_upto_nonneg(cs, d, docs, k - 1);
        lemma_part_nonneg(cs, d, docs, k - 1);
    }
}

pub proof fn lemma_score_upto_mono(
    cs: Seq<ClauseView>,
    d: DocView,
    docs: Seq<DocView>,
    k1: int,
    k2: int,
)
    requires
        0 <= k1 <= k2 <= cs.len(),
    ensures
        score_upto(cs, d, docs, k2) >= score_upto(cs, d, docs, k1),
    decreases k2 - k1,
{
    if k1 < k2 {
        lemma_score_upto_mono(cs, d, docs, k1, k2 - 1);
        lemma_part_nonneg(cs, d, docs, k2 - 1);
    }
}

/// A document in which some clause of the query occurs scores positive.
pub proof fn lemma_match_has_positive_score(
    cs: Seq<ClauseView>,
    docs: Seq<DocView>,
    i: int,
    j: int,
)
    requires
        docs.len() <= u64::MAX,
        0 <= i < docs.len(),
        0 <= j < cs.len(),
        doc_count(cs[j], docs[i]) > 0,
    ensures
        score(cs, docs[i], docs) > 0,
{
    lemma_weight_positive(cs[j], docs, i);
    let w = weight(cs[j], docs);
    let c = doc_count(cs[j], docs[i]);
    assert(w * c >= 1) by (nonlinear_arith)
        requires
            w >= 1,
            c >= 1,
    ;
    lemma_score_upto_nonneg(cs, docs[i], docs, j);
    assert(score_upto(cs, docs[i], docs, j + 1) >= 1);
    lemma_score_upto_mono(cs, docs[i], docs, j + 1, cs.len() as int);
}

/// Compares two byte strings.
fn bytes_eq(a: &Vec<u8>, b: &Vec<u8>) -> (r: bool)
    ensures
        r == (a@ == b@),
{
    if a.len() != b.len() {
        return false;
    }
    let mut i: usize = 0;
    while i < a.len()
        invariant
            i <= a.len(),
            a@.len() == b@.len(),
            forall|k: int| 0 <= k < i ==> a@[k] == b@[k],
        decreases a.len() - i,
    {
        if a[i] != b[i] {
            return false;
        }
        i = i + 1;
    }
    proof {
        assert(a@ =~= b@);
    }
    true
}

fn term_count_exec(toks: &Vec<Vec<u8>>, t: &Vec<u8>) -> (r: u64)
    ensures
        r as int == term_count(toks.deep_view(), t@),
{
    let ghost tv = toks.deep_view();
    let mut cnt: u64 = 0;
    let mut p: usize = 0;
    while p < toks.len()
        invariant
            p <= toks.len(),
            tv == toks.deep_view(),
            tv.len() == toks@.len(),
            cnt <= p,
            cnt as int == term_hits_upto(tv, t@, p as int),
        decreases toks.len() - p,
    {
        proof {
            assert(tv[p as int] =~= toks@[p as int]@);
        }
        if bytes_eq(&toks[p], t) {
            cnt = cnt + 1;
        }
        p = p + 1;
    }
    cnt
}

fn phrase_at_exec(toks: &Vec<Vec<u8>>, ph: &Vec<Vec<u8>>, p: usize) -> (r: bool)
    requires
        p + ph@.len() <= toks@.len(),
    ensures
        r == phrase_at(toks.deep_view(), ph.deep_view(), p as int),
{
    let ghost tv = toks.deep_view();
    let ghost pv = ph.deep_view();
    let n = toks.len();
    let mut k: usize = 0;
    while k < ph.len()
        invariant
            k <= ph.len(),
            n == toks@.len(),
            p + ph@.len() <= toks@.len(),
            tv == toks.deep_view(),
            pv == ph.deep_view(),
            tv.len() == toks@.len(),
            pv.len() == ph@.len(),
            forall|j: int| 0 <= j < k ==> tv[p + j] == pv[j],
        decreases ph.len() - k,
    {
        proof {
            assert(tv[p + k] =~= toks@[p + k]@);
            assert(pv[k as int] =~= ph@[k as int]@);
        }
        if !bytes_eq(&toks[p + k], &ph[k]) {
            proof {
                assert(tv[p + k as int] != pv[k as int]);
            }
            return false;
        }
        k = k + 1;
    }
    true
}

fn phrase_count_exec(toks: &Vec<Vec<u8>>, ph: &Vec<Vec<u8>>) -> (r: u64)
    ensures
        r as int == phrase_count(toks.deep_view(), ph.deep_view()),
{
    let ghost tv = toks.deep_view();
    let ghost pv = ph.deep_view();
    proof {
        assert(tv.len() == toks@.len());
        assert(pv.len() == ph@.len());
    }
    if ph.len() == 0 || toks.len() < ph.len() {
        return 0;
    }
    let last: usize = toks.len() - ph.len() + 1;
    let mut cnt: u64 = 0;
    let mut p: usize = 0;
    while p < last
        invariant
            p <= last,
            last == toks@.len() - ph@.len() + 1,
            0 < ph@.len() <= toks@.len(),
            tv == toks.deep_view(),
            pv == ph.deep_view(),
            tv.len() == toks@.len(),
            pv.len() == ph@.len(),
            cnt <= p,
            cnt as int == phrase_hits_upto(tv, pv, p as int),
        decreases last - p,
    {
        if phrase_at_exec(toks, ph, p) {
            cnt = cnt + 1;
        }
        p = p + 1;
    }
    cnt
}

/// Occurrences of a clause in one term sequence.
fn clause_count_exec(c: &Clause, toks: &Vec<Vec<u8>>) -> (r: u64)
    ensures
        r as int == clause_count(c@, toks.deep_view()),
{
    match c {
        Clause::Term(t) => term_count_exec(toks, t),
        Clause::Phrase(p) => phrase_count_exec(toks, p),
    }
}

/// Occurrences of a clause in one document.
pub fn doc_count_exec(c: &Clause, d: &crate::index::Doc) -> (r: u64)
    ensures
        r as int == doc_count(c@, d@),
{
    let a = clause_count_exec(c, &d.title_toks);
    let b = clause_count_exec(c, &d.desc_toks);
    sat_add_u64(a, b)
}

/// Document frequency of a clause.
fn doc_freq_exec(c: &Clause, docs: &Vec<crate::index::Doc>) -> (r: u64)
    ensures
        r as int == doc_freq(c@, docs.deep_view()),
{
    let ghost dv = docs.deep_view();
    let mut cnt: u64 = 0;
    let mut n: usize = 0;
    while n < docs.len()
        invariant
            n <= docs.len(),
            dv == docs.deep_view(),
            dv.len() == docs@.len(),
            cnt <= n,
            cnt as int == df_upto(c@, dv, n as int),
        decreases docs.len() - n,
    {
        proof {
            assert(dv[n as int] == docs@[n as int]@);
        }
        if doc_count_exec(c, &docs[n]) > 0 {
            cnt = cnt + 1;
        }
        n = n + 1;
    }
    cnt
}

/// The inverse document frequency weight of a clause.
fn weight_exec(c: &Clause, docs: &Vec<crate::index::Doc>) -> (r: u64)
    ensures
        r as int == weight(c@, docs.deep_view()),
{
    let df = doc_freq_exec(c, docs);
    if df == 0 {
        0
    } else {
        let n: u64 = docs.len() as u64;
        proof {
            assert(n as int == docs.deep_view().len());
        }
        sat_mul_u64(1000, n) / df
    }
}

/// The weight of each clause against the committed documents.
pub fn clause_weights(cs: &Vec<Clause>, docs: &Vec<crate::index::Doc>) -> (w: Vec<u64>)
    ensures
        w@.len() == cs@.len(),
        forall|k: int|
            0 <= k < cs@.len() ==> (#[trigger] w@[k]) as int == weight(
                cs.deep_view()[k],
                docs.deep_view(),
            ),
{
    let mut w: Vec<u64> = Vec::new();
    let mut k: usize = 0;
    while k < cs.len()
        invariant
            k <= cs.len(),
            w@.len() == k,
            forall|j: int|
                0 <= j < k ==> (#[trigger] w@[j]) as int == weight(
                    cs.deep_view()[j],
                    docs.deep_view(),
                ),
        decreases cs.len() - k,
    {
        proof {
            assert(cs.deep_view()[k as int] == cs@[k as int]@);
        }
        w.push(weight_exec(&cs[k], docs));
        k = k + 1;
    }
    w
}

/// The relevance score of one document, given the clause weights.
pub fn score_exec(
    cs: &Vec<Clause>,
    w: &Vec<u64>,
    d: &crate::index::Doc,
    docs: &Vec<crate::index::Doc>,
) -> (r: u64)
    requires
        w@.len() == cs@.len(),
        forall|k: int|
            0 <= k < cs@.len() ==> (#[trigger] w@[k]) as int == weight(
                cs.deep_view()[k],
                docs.deep_view(),
            ),
    ensures
        r as int == score(cs.deep_view(), d@, docs.deep_view()),
{
    let mut acc: u64 = 0;
    let mut k: usize = 0;
    while k < cs.len()
        invariant
            k <= cs.len(),
            w@.len() == cs@.len(),
            cs.deep_view().len() == cs@.len(),
            forall|j: int|
                0 <= j < cs@.len() ==> (#[trigger] w@[j]) as int == weight(
                    cs.deep_view()[j],
                    docs.deep_view(),
                ),
            acc as int == score_upto(cs.deep_view(), d@, docs.deep_view(), k as int),
        decreases cs.len() - k,
    {
        proof {
            assert(cs.deep_view()[k as int] == cs@[k as int]@);
        }
        let c = doc_count_exec(&cs[k], d);
        let part = sat_mul_u64(w[k], c);
        acc = sat_add_u64(acc, part);
        k = k + 1;
    }
    acc
}

} // verus!
