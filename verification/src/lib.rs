//! A small full-text job-search engine: a fixed schema over job postings,
//! an index builder that rebuilds the whole index in one atomic commit,
//! point-in-time reader snapshots, and a query engine with term and phrase
//! matching ranked by an integer-scaled tf-idf score.

use vstd::prelude::*;

pub mod index;
pub mod laws;
pub mod query;
pub mod rank;
pub mod salary;
pub mod schema;
pub mod search;
pub mod tokenize;

verus! {

/// One job posting as delivered by the record source.
#[derive(Debug)]
pub struct Job {
    pub title: String,
    pub company: String,
    pub location: String,
    pub description: String,
    pub salary_raw: String,
    pub salary_min: Option<i64>,
    pub url: String,
}

/// Mathematical image of a [`Job`]: every text field as a sequence of chars.
pub ghost struct JobView {
    pub title: Seq<char>,
    pub company: Seq<char>,
    pub location: Seq<char>,
    pub description: Seq<char>,
    pub salary_raw: Seq<char>,
    pub salary_min: Option<i64>,
    pub url: Seq<char>,
}

impl View for Job {
    type V = JobView;

    open spec fn view(&self) -> JobView {
        JobView {
            title: self.title@,
            company: self.company@,
            location: self.location@,
            description: self.description@,
            salary_raw: self.salary_raw@,
            salary_min: self.salary_min,
            url: self.url@,
        }
    }
}

impl DeepView for Job {
    type V = JobView;

    open spec fn deep_view(&self) -> JobView {
        self.view()
    }
}

/// The error taxonomy of the engine.
///
/// `Configuration` is fatal at startup (schema conflicts, or an existing
/// index whose schema does not match the expected one); `IndexWrite` and
/// `IndexRead` stand for storage failures surfaced to the caller; a
/// `QueryParse` failure is recovered by the query engine into an empty,
/// successful result and never surfaced as a hard failure.
#[derive(Clone, Copy, Debug, PartialEq, Eq, Structural)]
pub enum EngineError {
    Configuration,
    IndexWrite,
    IndexRead,
    QueryParse,
}

} // verus!
