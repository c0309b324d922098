//! The index: documents projected from jobs through the schema, owned by a
//! single writer and rebuilt wholesale in one atomic step, with reader
//! snapshots that each observe one committed generation.

use vstd::prelude::*;
use crate::Job;
use crate::EngineError;
use crate::schema::{Schema, jobs_schema};
use crate::tokenize::{copy_terms, tokenize, tokens_of};

verus! {

/// The indexed projection of one job: the stored fields kept verbatim for
/// display, the tokenized fields kept as term sequences (the posting and
/// position data), and the typed salary value when present.
pub struct Doc {
    pub title: String,
    pub company: String,
    pub title_toks: Vec<Vec<u8>>,
    pub company_toks: Vec<Vec<u8>>,
    pub desc_toks: Vec<Vec<u8>>,
    pub salary_min: Option<i64>,
}

/// Mathematical image of a [`Doc`].
pub ghost struct DocView {
    pub title: Seq<char>,
    pub company: Seq<char>,
    pub title_toks: Seq<Seq<u8>>,
    pub company_toks: Seq<Seq<u8>>,
    pub desc_toks: Seq<Seq<u8>>,
    pub salary_min: Option<i64>,
}

impl View for Doc {
    type V = DocView;

    open spec fn view(&self) -> DocView {
        DocView {
            title: self.title@,
            company: self.company@,
            title_toks: self.title_toks.deep_view(),
            company_toks: self.company_toks.deep_view(),
            desc_toks: self.desc_toks.deep_view(),
            salary_min: self.salary_min,
        }
    }
}

impl DeepView for Doc {
    type V = DocView;

    open spec fn deep_view(&self) -> DocView {
        self.view()
    }
}

/// The document a job projects to through the jobs schema.
pub open spec fn doc_of(j: crate::JobView) -> DocView {
    DocView {
        title: j.title,
        company: j.company,
        title_toks: tokens_of(j.title),
        company_toks: tokens_of(j.company),
        desc_toks: tokens_of(j.description),
        salary_min: j.salary_min,
    }
}

/// The documents of a job batch, in delivery order.
pub open spec fn docs_of(jobs: Seq<crate::JobView>) -> Seq<DocView> {
    jobs.map_values(|j: crate::JobView| doc_of(j))
}

/// Projects one job into a document.
fn build_doc(job: &Job) -> (d: Doc)
    ensures
        d@ == doc_of(job@),
{
    Doc {
        title: job.title.clone(),
        company: job.company.clone(),
        title_toks: tokenize(job.title.as_str()),
        company_toks: tokenize(job.company.as_str()),
        desc_toks: tokenize(job.description.as_str()),
        salary_min: job.salary_min,
    }
}

/// Copies a document.
fn clone_doc(d: &Doc) -> (r: Doc)
    ensures
        r@ == d@,
{
    Doc {
        title: d.title.clone(),
        company: d.company.clone(),
        title_toks: copy_terms(&d.title_toks),
        company_toks: copy_terms(&d.company_toks),
        desc_toks: copy_terms(&d.desc_toks),
        salary_min: d.salary_min,
    }
}

/// The committed index: its schema, the committed documents, and the
/// number of the committed generation. Writes replace the whole document
/// set and bump the generation; nothing is mutated in place.
pub struct IndexHandle {
    pub schema: Schema,
    pub generation: u64,
    pub docs: Vec<Doc>,
}

/// Mathematical image of an [`IndexHandle`].
pub ghost struct IndexHandleView {
    pub schema: Seq<crate::schema::FieldDefView>,
    pub generation: u64,
    pub docs: Seq<DocView>,
}

impl View for IndexHandle {
    type V = IndexHandleView;

    open spec fn view(&self) -> IndexHandleView {
        IndexHandleView {
            schema: self.schema@,
            generation: self.generation,
            docs: self.docs.deep_view(),
        }
    }
}

/// The generation number after one more commit.
pub open spec fn next_generation(g: u64) -> u64 {
    if g == u64::MAX {
        0
    } else {
        (g + 1) as u64
    }
}

/// Opens an existing index when its persisted schema matches the expected
/// one, or creates a fresh empty index under that schema; an existing
/// index with a different schema is a configuration error.
pub fn open_or_create(existing: Option<IndexHandle>, schema: &Schema) -> (r: Result<
    IndexHandle,
    EngineError,
>)
    ensures
        match existing {
            None => r matches Ok(h) && h@.schema == schema@ && h@.docs.len() == 0
                && h@.generation == 0,
            Some(h0) => if h0@.schema == schema@ {
                r == Ok::<IndexHandle, EngineError>(h0)
            } else {
                r == Err::<IndexHandle, EngineError>(EngineError::Configuration)
            },
        },
{
    match existing {
        None => {
            let docs: Vec<Doc> = Vec::new();
            proof {
                assert(docs.deep_view() =~= Seq::<DocView>::empty());
            }
            Ok(IndexHandle { schema: schema.duplicate(), generation: 0, docs })
        },
        Some(h0) => {
            if h0.schema.matches(schema) {
                Ok(h0)
            } else {
                Err(EngineError::Configuration)
            }
        },
    }
}

/// Deletes every committed document, projects each job of the batch into
/// a document, and commits the whole batch at once: afterwards the index
/// holds exactly the documents of this batch, under a new generation, and
/// reports how many documents were committed.
pub fn rebuild(handle: &mut IndexHandle, jobs: &Vec<Job>) -> (r: Result<usize, EngineError>)
    ensures
        final(handle)@.schema == old(handle)@.schema,
        final(handle)@.docs == docs_of(jobs.deep_view()),
        final(handle)@.generation == next_generation(old(handle)@.generation),
        r == Ok::<usize, EngineError>(jobs@.len() as usize),
{
    let ghost jobsv = jobs.deep_view();
    let mut docs: Vec<Doc> = Vec::new();
    let mut i: usize = 0;
    proof {
        assert(docs.deep_view() =~= docs_of(jobsv.take(0)));
    }
    while i < jobs.len()
        invariant
            i <= jobs.len(),
            jobsv == jobs.deep_view(),
            jobsv.len() == jobs@.len(),
            docs.deep_view() == docs_of(jobsv.take(i as int)),
        decreases jobs.len() - i,
    {
        let ghost pre = docs.deep_view();
        let d = build_doc(&jobs[i]);
        proof {
            assert(jobs[i as int].deep_view() == jobsv[i as int]);
            assert(d@ == doc_of(jobsv[i as int]));
        }
        docs.push(d);
        proof {
            assert(docs.deep_view() =~= pre.push(doc_of(jobsv[i as int])));
            assert(jobsv.take(i + 1) =~= jobsv.take(i as int).push(jobsv[i as int]));
            assert(docs_of(jobsv.take(i + 1))
                =~= docs_of(jobsv.take(i as int)).push(doc_of(jobsv[i as int])));
        }
        i = i + 1;
    }
    proof {
        assert(jobsv.take(jobsv.len() as int) =~= jobsv);
    }
    handle.docs = docs;
    if handle.generation == u64::MAX {
        handle.generation = 0;
    } else {
        handle.generation = handle.generation + 1;
    }
    Ok(jobs.len())
}

/// A point-in-time reader snapshot: its view of the index is fixed at
/// acquisition until explicitly refreshed, however the index moves on.
pub struct Snapshot {
    pub generation: u64,
    pub docs: Vec<Doc>,
}

/// Mathematical image of a [`Snapshot`].
pub ghost struct SnapshotView {
    pub generation: u64,
    pub docs: Seq<DocView>,
}

impl View for Snapshot {
    type V = SnapshotView;

    open spec fn view(&self) -> SnapshotView {
        SnapshotView { generation: self.generation, docs: self.docs.deep_view() }
    }
}

/// Acquires a snapshot of the committed generation.
pub fn acquire(handle: &IndexHandle) -> (s: Snapshot)
    ensures
        s@.generation == handle@.generation,
        s@.docs == handle@.docs,
{
    let mut docs: Vec<Doc> = Vec::new();
    let mut i: usize = 0;
    proof {
        assert(docs.deep_view() =~= handle.docs.deep_view().take(0));
    }
    while i < handle.docs.len()
        invariant
            i <= handle.docs.len(),
            docs.deep_view() == handle.docs.deep_view().take(i as int),
        decreases handle.docs.len() - i,
    {
        let ghost pre = docs.deep_view();
        docs.push(clone_doc(&handle.docs[i]));
        proof {
            assert(docs.deep_view() =~= pre.push(handle.docs.deep_view()[i as int]));
            assert(handle.docs.deep_view().take(i + 1)
                =~= handle.docs.deep_view().take(i as int).push(
                handle.docs.deep_view()[i as int]));
        }
        i = i + 1;
    }
    proof {
        assert(handle.docs.deep_view().take(handle.docs.deep_view().len() as int)
            =~= handle.docs.deep_view());
    }
    Snapshot { generation: handle.generation, docs }
}

impl Snapshot {
    /// Moves this snapshot to the index's committed generation, as after a
    /// commit under a reload-on-commit policy.
    pub fn refresh(&mut self, handle: &IndexHandle)
        ensures
            final(self)@.generation == handle@.generation,
            final(self)@.docs == handle@.docs,
    {
        *self = acquire(handle);
    }
}

/// Opens or creates the job index with the jobs schema.
pub fn open_or_create_jobs_index(existing: Option<IndexHandle>) -> (r: Result<
    IndexHandle,
    EngineError,
>)
    ensures
        match existing {
            None => r matches Ok(h) && h@.schema == jobs_schema() && h@.docs.len() == 0
                && h@.generation == 0,
            Some(h0) => if h0@.schema == jobs_schema() {
                r == Ok::<IndexHandle, EngineError>(h0)
            } else {
                r == Err::<IndexHandle, EngineError>(EngineError::Configuration)
            },
        },
{
    let schema = crate::schema::build_schema();
    open_or_create(existing, &schema)
}

} // verus!
