use job_search::Job;
use job_search::EngineError;
use job_search::index::{IndexHandle, acquire, open_or_create, rebuild};
use job_search::query::{Clause, parse_query};
use job_search::schema::{FieldDef, Schema, build_schema};
use job_search::search::{search, search_default};
use job_search::tokenize::tokenize;

fn job(title: &str, company: &str, description: &str, salary_min: Option<i64>) -> Job {
    Job {
        title: title.to_string(),
        company: company.to_string(),
        location: "Remote".to_string(),
        description: description.to_string(),
        salary_raw: String::new(),
        salary_min,
        url: format!("https://example.com/{}", title),
    }
}

fn sample_jobs() -> Vec<Job> {
    vec![
        job("Backend Engineer", "Acme", "Build APIs", Some(90000)),
        job("Frontend Developer", "Widgets Inc", "Build UI", None),
        job("Backend Lead", "Acme", "Lead backend APIs", Some(120000)),
    ]
}

fn sample_index() -> IndexHandle {
    let schema = build_schema();
    let mut handle = open_or_create(None, &schema).unwrap();
    let count = rebuild(&mut handle, &sample_jobs()).unwrap();
    assert_eq!(count, 3);
    handle
}

#[test]
fn tokenizer_lowercases_and_splits() {
    let toks = tokenize("Hello, World-42");
    assert_eq!(toks, vec![b"hello".to_vec(), b"world".to_vec(), b"42".to_vec()]);
}

#[test]
fn tokenizer_empty_and_boundary_only() {
    assert_eq!(tokenize(""), Vec::<Vec<u8>>::new());
    assert_eq!(tokenize(" ,;- "), Vec::<Vec<u8>>::new());
}

#[test]
fn schema_declares_the_four_fields() {
    let s = build_schema();
    let names: Vec<&str> = s.fields.iter().map(|f| f.name.as_str()).collect();
    assert_eq!(names, vec!["title", "company", "description", "salary_min"]);
    assert!(s.fields[0].tokenized && s.fields[0].stored && !s.fields[0].typed_int);
    assert!(s.fields[1].tokenized && s.fields[1].stored && !s.fields[1].typed_int);
    assert!(s.fields[2].tokenized && !s.fields[2].stored && !s.fields[2].typed_int);
    assert!(!s.fields[3].tokenized && !s.fields[3].stored && s.fields[3].typed_int);
}

#[test]
fn schema_rejects_capability_conflict() {
    let fields = vec![FieldDef {
        name: "bad".to_string(),
        tokenized: true,
        stored: false,
        typed_int: true,
    }];
    assert_eq!(Schema::build(fields).err(), Some(EngineError::Configuration));
}

#[test]
fn open_existing_index_with_wrong_schema_fails() {
    let handle = sample_index();
    let other = Schema::build(vec![FieldDef {
        name: "title".to_string(),
        tokenized: true,
        stored: true,
        typed_int: false,
    }])
    .unwrap();
    let r = open_or_create(Some(handle), &other);
    assert_eq!(r.err(), Some(EngineError::Configuration));
}

#[test]
fn open_existing_index_with_matching_schema_keeps_documents() {
    let handle = sample_index();
    let schema = build_schema();
    let reopened = open_or_create(Some(handle), &schema).unwrap();
    let snap = acquire(&reopened);
    let r = search(&snap, "backend", 10);
    assert_eq!(r.total_results, 2);
}

#[test]
fn rebuild_replaces_all_documents_and_bumps_generation() {
    let mut handle = sample_index();
    assert_eq!(handle.generation, 1);
    let count = rebuild(&mut handle, &vec![job("Data Engineer", "Acme", "Pipelines", None)])
        .unwrap();
    assert_eq!(count, 1);
    assert_eq!(handle.generation, 2);
    let snap = acquire(&handle);
    assert_eq!(search(&snap, "backend", 10).total_results, 0);
    assert_eq!(search(&snap, "pipelines", 10).total_results, 1);
}

#[test]
fn snapshot_is_fixed_until_refreshed() {
    let mut handle = sample_index();
    let mut snap = acquire(&handle);
    rebuild(&mut handle, &Vec::new()).unwrap();
    // The old snapshot still observes the pre-rebuild generation.
    assert_eq!(snap.generation, 1);
    assert_eq!(search(&snap, "backend", 10).total_results, 2);
    snap.refresh(&handle);
    assert_eq!(snap.generation, 2);
    assert_eq!(search(&snap, "backend", 10).total_results, 0);
}

#[test]
fn three_jobs_backend_scenario() {
    let handle = sample_index();
    let snap = acquire(&handle);
    let r = search(&snap, "backend", 10);
    assert_eq!(r.query, "backend");
    assert_eq!(r.total_results, 2);
    assert_eq!(r.results.len(), 2);
    // "backend" occurs twice in the third job (title and description) and
    // once in the first; the second job does not appear at all.
    assert_eq!(r.results[0].title, "Backend Lead");
    assert_eq!(r.results[0].company, "Acme");
    assert_eq!(r.results[1].title, "Backend Engineer");
    assert_eq!(r.results[1].company, "Acme");
    for hit in &r.results {
        assert_ne!(hit.title, "Frontend Developer");
    }
}

#[test]
fn scores_are_the_scaled_tf_idf_values() {
    let handle = sample_index();
    let snap = acquire(&handle);
    let r = search(&snap, "backend", 10);
    // N = 3 documents, df = 2, weight = 1000 * 3 / 2 = 1500; the lead role
    // holds the term twice, the engineer role once.
    assert_eq!(r.results[0].score, 3000);
    assert_eq!(r.results[1].score, 1500);
}

#[test]
fn empty_query_returns_empty_result() {
    let handle = sample_index();
    let snap = acquire(&handle);
    let r = search(&snap, "", 10);
    assert_eq!(r.total_results, 0);
    assert!(r.results.is_empty());
    let r = search_default(&snap, "");
    assert_eq!(r.total_results, 0);
}

#[test]
fn limit_is_respected() {
    let handle = sample_index();
    let snap = acquire(&handle);
    assert_eq!(search(&snap, "backend", 1).results.len(), 1);
    assert_eq!(search(&snap, "backend", 0).results.len(), 0);
    // Fewer than the limit only because fewer documents matched.
    assert_eq!(search(&snap, "backend", 10).results.len(), 2);
}

#[test]
fn repeated_searches_are_deterministic() {
    let handle = sample_index();
    let snap = acquire(&handle);
    let a = search(&snap, "backend apis", 10);
    let b = search(&snap, "backend apis", 10);
    assert_eq!(a.total_results, b.total_results);
    for (x, y) in a.results.iter().zip(b.results.iter()) {
        assert_eq!(x.title, y.title);
        assert_eq!(x.company, y.company);
        assert_eq!(x.score, y.score);
    }
}

#[test]
fn rebuild_twice_gives_identical_results() {
    let schema = build_schema();
    let mut handle = open_or_create(None, &schema).unwrap();
    rebuild(&mut handle, &sample_jobs()).unwrap();
    rebuild(&mut handle, &sample_jobs()).unwrap();
    let snap = acquire(&handle);
    let again = acquire(&sample_index());
    let a = search(&snap, "backend", 10);
    let b = search(&again, "backend", 10);
    assert_eq!(a.total_results, 2);
    assert_eq!(a.total_results, b.total_results);
    for (x, y) in a.results.iter().zip(b.results.iter()) {
        assert_eq!(x.title, y.title);
        assert_eq!(x.company, y.company);
        assert_eq!(x.score, y.score);
    }
}

#[test]
fn description_matches_but_is_never_exposed() {
    let handle = sample_index();
    let snap = acquire(&handle);
    // "apis" occurs only in descriptions; the hits carry the stored title
    // and company, and a hit has no description field at all.
    let r = search(&snap, "apis", 10);
    assert_eq!(r.total_results, 2);
    for hit in &r.results {
        assert!(hit.title == "Backend Engineer" || hit.title == "Backend Lead");
        assert_eq!(hit.company, "Acme");
    }
}

#[test]
fn query_matching_one_title_does_not_return_the_other() {
    let handle = sample_index();
    let snap = acquire(&handle);
    let r = search(&snap, "engineer", 10);
    assert_eq!(r.total_results, 1);
    assert_eq!(r.results[0].title, "Backend Engineer");
    let r = search(&snap, "lead", 10);
    assert_eq!(r.total_results, 1);
    assert_eq!(r.results[0].title, "Backend Lead");
}

#[test]
fn quoted_phrase_matches_consecutive_terms_only() {
    let handle = sample_index();
    let snap = acquire(&handle);
    let r = search(&snap, "\"lead backend\"", 10);
    assert_eq!(r.total_results, 1);
    assert_eq!(r.results[0].title, "Backend Lead");
    // The words occur in the first job only out of order, never adjacent.
    let r = search(&snap, "\"apis build\"", 10);
    assert_eq!(r.total_results, 0);
}

#[test]
fn unbalanced_quote_yields_empty_result_not_error() {
    let handle = sample_index();
    let snap = acquire(&handle);
    let r = search(&snap, "\"backend", 10);
    assert_eq!(r.total_results, 0);
    assert!(r.results.is_empty());
    assert_eq!(parse_query("\"backend").err(), Some(EngineError::QueryParse));
}

#[test]
fn parse_query_structures_terms_and_phrases() {
    let cs = parse_query("build \"backend apis\" now").unwrap();
    assert_eq!(cs.len(), 3);
    match &cs[0] {
        Clause::Term(t) => assert_eq!(t, &b"build".to_vec()),
        _ => panic!("expected a term clause"),
    }
    match &cs[1] {
        Clause::Phrase(p) => assert_eq!(p, &vec![b"backend".to_vec(), b"apis".to_vec()]),
        _ => panic!("expected a phrase clause"),
    }
    match &cs[2] {
        Clause::Term(t) => assert_eq!(t, &b"now".to_vec()),
        _ => panic!("expected a term clause"),
    }
}

#[test]
fn search_on_empty_index_is_empty() {
    let schema = build_schema();
    let handle = open_or_create(None, &schema).unwrap();
    let snap = acquire(&handle);
    let r = search(&snap, "anything", 10);
    assert_eq!(r.total_results, 0);
}
