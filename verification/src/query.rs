//! The query parser: turns a free-text query string into a structured
//! boolean query over the searchable fields. Bare words become term
//! clauses, a quoted substring becomes one phrase clause, and the default
//! combination of clauses is OR with relevance scoring. An unbalanced
//! quote is malformed and is rejected.

use vstd::prelude::*;
use crate::tokenize::{copy_bytes, tokens_of, tokenize};
use crate::EngineError;

verus! {

/// One clause of a parsed query.
pub enum Clause {
    Term(Vec<u8>),
    Phrase(Vec<Vec<u8>>),
}

/// Mathematical image of a [`Clause`].
pub ghost enum ClauseView {
    Term(Seq<u8>),
    Phrase(Seq<Seq<u8>>),
}

impl View for Clause {
    type V = ClauseView;

    open spec fn view(&self) -> ClauseView {
        match self {
            Clause::Term(t) => ClauseView::Term(t@),
            Clause::Phrase(p) => ClauseView::Phrase(p.deep_view()),
        }
    }
}

impl DeepView for Clause {
    type V = ClauseView;

    open spec fn deep_view(&self) -> ClauseView {
        self.view()
    }
}

/// Index of the first double quote in `s`, or `s.len()` if there is none.
pub open spec fn find_quote(s: Seq<char>) -> int
    decreases s.len(),
{
    if s.len() == 0 {
        0
    } else if s[0] == '"' {
        0
    } else {
        1 + find_quote(s.drop_first())
    }
}

pub proof fn lemma_find_quote(s: Seq<char>)
    ensures
        0 <= find_quote(s) <= s.len(),
        find_quote(s) < s.len() ==> s[find_quote(s)] == '"',
        forall|k: int| 0 <= k < find_quote(s) ==> s[k] != '"',
    decreases s.len(),
{
    if s.len() == 0 {
    } else if s[0] == '"' {
    } else {
        lemma_find_quote(s.drop_first());
        assert forall|k: int| 0 <= k < find_quote(s) implies s[k] != '"' by {
            if k > 0 {
                assert(s.drop_first()[k - 1] == s[k]);
            }
        }
    }
}

/// Each term of `toks` as a term clause.
pub open spec fn term_clauses(toks: Seq<Seq<u8>>) -> Seq<ClauseView> {
    toks.map_values(|t: Seq<u8>| ClauseView::Term(t))
}

/// A quoted group as clauses: one phrase clause, or nothing when the
/// quotes held no term.
pub open spec fn phrase_clauses(ph: Seq<Seq<u8>>) -> Seq<ClauseView> {
    if ph.len() == 0 {
        Seq::empty()
    } else {
        seq![ClauseView::Phrase(ph)]
    }
}

/// The parsed form of a query string: `None` exactly when a quote is left
/// unbalanced.
pub open spec fn parse_spec(s: Seq<char>) -> Option<Seq<ClauseView>>
    decreases s.len(),
    via parse_spec_decreases
{
    let i = find_quote(s);
    if i == s.len() {
        Some(term_clauses(tokens_of(s)))
    } else {
        let after = s.subrange(i + 1, s.len() as int);
        let j = find_quote(after);
        if j == after.len() {
            None
        } else {
            let ph = tokens_of(after.subrange(0, j));
            let rest = after.subrange(j + 1, after.len() as int);
            match parse_spec(rest) {
                None => None,
                Some(cs) => Some(
                    term_clauses(tokens_of(s.subrange(0, i))) + phrase_clauses(ph) + cs,
                ),
            }
        }
    }
}

#[via_fn]
proof fn parse_spec_decreases(s: Seq<char>) {
    lemma_find_quote(s);
    let i = find_quote(s);
    if i != s.len() {
        let after = s.subrange(i + 1, s.len() as int);
        lemma_find_quote(after);
    }
}

/// Finds the first double quote of `s`, or reports its length.
fn find_quote_exec(s: &str) -> (r: usize)
    ensures
        r as int == find_quote(s@),
{
    proof {
        lemma_find_quote(s@);
    }
    let n = s.unicode_len();
    let mut i: usize = 0;
    while i < n
        invariant
            i <= n,
            n == s@.len(),
            forall|k: int| 0 <= k < i ==> s@[k] != '"',
            0 <= find_quote(s@) <= s@.len(),
            find_quote(s@) < s@.len() ==> s@[find_quote(s@)] == '"',
            forall|k: int| 0 <= k < find_quote(s@) ==> s@[k] != '"',
        decreases n - i,
    {
        let c = s.get_char(i);
        if c == '"' {
            proof {
                if (i as int) < find_quote(s@) {
                    assert(s@[i as int] != '"');
                }
                if find_quote(s@) < i as int {
                    assert(s@[find_quote(s@)] != '"');
                }
            }
            return i;
        }
        i = i + 1;
    }
    n
}

/// Wraps each term in a term clause.
fn term_clauses_exec(toks: &Vec<Vec<u8>>) -> (r: Vec<Clause>)
    ensures
        r.deep_view() == term_clauses(toks.deep_view()),
{
    let ghost all = toks.deep_view();
    let mut out: Vec<Clause> = Vec::new();
    let mut i: usize = 0;
    proof {
        assert(out.deep_view() =~= term_clauses(all.take(0)));
    }
    while i < toks.len()
        invariant
            i <= toks.len(),
            all == toks.deep_view(),
            out.deep_view() == term_clauses(all.take(i as int)),
        decreases toks.len() - i,
    {
        let ghost pre_out = out.deep_view();
        let t = copy_bytes(&toks[i]);
        proof {
            assert(t@ =~= all[i as int]);
        }
        out.push(Clause::Term(t));
        proof {
            assert(out.deep_view() =~= pre_out.push(ClauseView::Term(all[i as int])));
            assert(all.take(i + 1) =~= all.take(i as int).push(all[i as int]));
            assert(term_clauses(all.take(i + 1))
                =~= term_clauses(all.take(i as int)).push(ClauseView::Term(all[i as int])));
        }
        i = i + 1;
    }
    proof {
        assert(all.take(all.len() as int) =~= all);
    }
    out
}

/// Parses a free-text query string into clauses.
///
/// Returns `Err(EngineError::QueryParse)` exactly when a quote is left
/// unbalanced; every other string parses.
pub fn parse_query(q: &str) -> (r: Result<Vec<Clause>, EngineError>)
    ensures
        match r {
            Ok(cs) => parse_spec(q@) == Some(cs.deep_view()),
            Err(e) => parse_spec(q@) is None && e == EngineError::QueryParse,
        },
    decreases q@.len(),
{
    proof {
        lemma_find_quote(q@);
    }
    let n = q.unicode_len();
    let i = find_quote_exec(q);
    if i == n {
        Ok(term_clauses_exec(&tokenize(q)))
    } else {
        let after = q.substring_char(i + 1, n);
        proof {
            lemma_find_quote(after@);
        }
        let m = n - (i + 1);
        let j = find_quote_exec(after);
        if j == m {
            Err(EngineError::QueryParse)
        } else {
            let inside = after.substring_char(0, j);
            let ph = tokenize(inside);
            let before = q.substring_char(0, i);
            let mut cs = term_clauses_exec(&tokenize(before));
            if ph.len() > 0 {
                let ghost pre = cs.deep_view();
                let ghost phv = ph.deep_view();
                cs.push(Clause::Phrase(ph));
                proof {
                    assert(cs.deep_view() =~= pre.push(ClauseView::Phrase(phv)));
                }
            }
            let rest = after.substring_char(j + 1, m);
            match parse_query(rest) {
                Ok(mut rcs) => {
                    let ghost left = cs.deep_view();
                    let ghost right = rcs.deep_view();
                    cs.append(&mut rcs);
                    proof {
                        assert(cs.deep_view() =~= left + right);
                    }
                    Ok(cs)
                },
                Err(e) => Err(e),
            }
        }
    }
}

} // verus!
