use fsearch_core::entry::Entry;
use fsearch_core::index::{FileRecord, Index};
use fsearch_core::pool::PatternPool;
use fsearch_core::query::matcher::QueryMatcher;
use fsearch_core::registry::{
    cancel_search, poll_results, shutdown_all, start_search, start_search_with_index,
    start_search_with_index_and_cb, Delivery, Registry,
};
use fsearch_core::search::{
    evaluate_entry, plan_query, search_entries, Action, QueryPlan, SearchPhase, SearchResult,
    Worker,
};

fn entry(id: u64, name: &str, path: &str) -> Entry {
    Entry::new(id, name.to_string(), path.to_string(), 10 * id, 100 * id)
}

fn entries() -> Vec<Entry> {
    vec![
        entry(1, "alpha_\u{1F1FA}\u{1F1F8}_test.txt", "/tmp/d/alpha_\u{1F1FA}\u{1F1F8}_test.txt"),
        entry(2, "beta_e\u{301}_sample.txt", "/tmp/d/beta_e\u{301}_sample.txt"),
        entry(3, "file.txt", "/tmp/sub_testdir/file.txt"),
        entry(4, "(Unbalanced.RS", "/tmp/(Unbalanced.RS"),
    ]
}

fn plan(query: &str) -> QueryPlan {
    let mut qm = QueryMatcher::new(PatternPool::new());
    plan_query(&mut qm, query)
}

fn ids(results: &[SearchResult]) -> Vec<u64> {
    results.iter().map(|r| r.id).collect()
}

#[test]
fn a_query_that_compiles_is_planned_as_compiled() {
    assert!(matches!(plan("name:foo AND (bar OR baz)"), QueryPlan::Compiled(_)));
    assert!(matches!(plan("size<1000"), QueryPlan::Compiled(_)));
    assert!(matches!(plan("re:foo"), QueryPlan::Compiled(_)));
}

#[test]
fn a_malformed_query_falls_back() {
    // an unbalanced bracket does not parse
    match plan("(Unbalanced") {
        QueryPlan::FallbackLiteral(p) => assert_eq!(p, "(unbalanced"),
        _ => panic!("expected the literal fallback"),
    }
    // a regular expression that does not compile
    match plan("\"/a(b/\"") {
        QueryPlan::FallbackLiteral(p) => assert_eq!(p, "\"/a(b/\""),
        _ => panic!("expected the literal fallback"),
    }
    // `re:` with a regular expression behind it
    match plan("re:=a+") {
        QueryPlan::FallbackRegex(m) => {
            assert!(m.is_match("x=aa"));
            assert!(!m.is_match("xa"));
        }
        _ => panic!("expected the regex fallback"),
    }
    // `re:` with something that is no regular expression
    match plan("re:=A(") {
        QueryPlan::FallbackLiteral(p) => assert_eq!(p, "=a("),
        _ => panic!("expected the literal fallback"),
    }
    match plan("") {
        QueryPlan::FallbackLiteral(p) => assert_eq!(p, ""),
        _ => panic!("expected the literal fallback"),
    }
}

#[test]
fn fallback_results_come_from_the_plain_search() {
    let es = entries();
    let found = search_entries("(Unbalanced", &es);
    assert_eq!(ids(&found), vec![4]);
    assert_eq!(found[0].highlights, "");
    assert_eq!(found[0].name, "(Unbalanced.RS");
    assert_eq!(ids(&search_entries(")TMP/SUB", &es)), vec![]);
    assert_eq!(ids(&search_entries("(", &es)), vec![4]);
    // the lower-case path counts too
    let elsewhere = vec![entry(9, "other", "/TMP/(Dir/x"), entry(10, "(dir", "/y")];
    assert_eq!(ids(&search_entries("(DIR/X", &elsewhere)), vec![9]);
    assert_eq!(ids(&search_entries("(DIR", &elsewhere)), vec![9, 10]);
    // the regex fallback looks at path and name
    assert_eq!(ids(&search_entries("re:=|sub_test", &es)), vec![3]);
    assert_eq!(ids(&search_entries("re:=|[0-9]+\\.RS$", &es)), vec![]);
    // `re:` with something that is no regular expression is searched for as it is
    assert_eq!(ids(&search_entries("re:(U", &es)), vec![4]);
    // the empty query matches everything
    assert_eq!(ids(&search_entries("", &es)), vec![1, 2, 3, 4]);
}

#[test]
fn highlights_are_in_utf16_units_at_cluster_boundaries() {
    let es = entries();
    let qm = QueryMatcher::new(PatternPool::new());
    let p = plan("test");
    let r = evaluate_entry(&qm, &p, &es[0]).unwrap();
    assert_eq!(r.id, 1);
    assert_eq!(r.size, 10);
    assert_eq!(r.mtime, 100);
    assert_eq!(r.path, es[0].path);
    assert_eq!(r.highlights, "[{\"field\":null,\"ranges\":[[11,15]]}]");
    let name16: Vec<u16> = r.name.encode_utf16().collect();
    assert_eq!(String::from_utf16(&name16[11..15]).unwrap(), "test");
    assert!(evaluate_entry(&qm, &p, &es[1]).is_none());
    // a match on the letter alone is widened to the letter with its accent
    let accent = plan("_e");
    let r2 = evaluate_entry(&qm, &accent, &es[1]).unwrap();
    assert_eq!(r2.highlights, "[{\"field\":null,\"ranges\":[[4,7]]}]");
}

#[test]
fn highlights_carry_the_field_of_the_query() {
    let es = entries();
    let qm = QueryMatcher::new(PatternPool::new());
    let r = evaluate_entry(&qm, &plan("path:test"), &es[2]).unwrap();
    assert_eq!(r.highlights, "[{\"field\":\"path\",\"ranges\":[[18,22]]}]");
    let combined: Vec<u16> = "file.txt\n/tmp/sub_testdir/file.txt".encode_utf16().collect();
    assert_eq!(String::from_utf16(&combined[18..22]).unwrap(), "test");
    let ext = evaluate_entry(&qm, &plan("extension:txt"), &es[2]).unwrap();
    assert_eq!(
        ext.highlights,
        "[{\"field\":\"name\",\"ranges\":[[5,8]]},{\"field\":\"extension\",\"ranges\":[]}]"
    );
    let size = evaluate_entry(&qm, &plan("file>a"), &es[2]).unwrap();
    assert_eq!(size.highlights, "[{\"field\":\"file\",\"ranges\":[]}]");
}

#[test]
fn a_whole_search_yields_the_matches_in_index_order() {
    let es = entries();
    assert_eq!(ids(&search_entries("txt", &es)), vec![1, 2, 3]);
    assert_eq!(ids(&search_entries("txt AND NOT sample", &es)), vec![1, 3]);
    assert_eq!(ids(&search_entries("nothing_like_it", &es)), vec![]);
    assert_eq!(ids(&search_entries("txt", &Vec::new())), vec![]);
}

fn run(worker: &mut Worker, es: &Vec<Entry>, cancel_after: Option<usize>) -> (Vec<u64>, usize) {
    let mut found = Vec::new();
    let mut steps = 0;
    loop {
        let cancelled = cancel_after.map_or(false, |n| found.len() >= n);
        steps += 1;
        match worker.step(cancelled, es) {
            Action::Deliver(r) => found.push(r.id),
            Action::Continue => {}
            Action::Stop => break,
        }
        assert!(steps < 100);
    }
    (found, steps)
}

#[test]
fn worker_goes_through_the_stages() {
    let es = entries();
    let mut w = Worker::new("txt", true);
    assert_eq!(w.phase(), SearchPhase::Created);
    assert!(matches!(w.step(false, &es), Action::Continue));
    assert_eq!(w.phase(), SearchPhase::Parsing);
    assert!(matches!(w.step(false, &es), Action::Continue));
    assert_eq!(w.phase(), SearchPhase::Compiled);
    assert!(matches!(w.step(false, &es), Action::Continue));
    assert_eq!(w.phase(), SearchPhase::Running);
    let (found, _) = run(&mut w, &es, None);
    assert_eq!(found, vec![1, 2, 3]);
    assert_eq!(w.phase(), SearchPhase::Completed);
    assert!(w.is_finished());
    assert!(matches!(w.step(false, &es), Action::Stop));
    assert_eq!(w.phase(), SearchPhase::Completed);
}

#[test]
fn worker_falls_back_on_a_malformed_query() {
    let es = entries();
    let mut w = Worker::new("(unbalanced", true);
    assert!(matches!(w.step(false, &es), Action::Continue));
    assert!(matches!(w.step(false, &es), Action::Continue));
    assert_eq!(w.phase(), SearchPhase::FallbackLiteral);
    let (found, _) = run(&mut w, &es, None);
    assert_eq!(found, vec![4]);
    assert_eq!(w.phase(), SearchPhase::Completed);
}

#[test]
fn worker_over_an_empty_index_is_done_at_once() {
    let es: Vec<Entry> = Vec::new();
    let mut w = Worker::new("txt", false);
    assert_eq!(w.phase(), SearchPhase::Completed);
    assert!(matches!(w.step(false, &es), Action::Stop));
}

#[test]
fn cancellation_stops_delivery_for_good() {
    let es = entries();
    // cancelled before the first step
    let mut w = Worker::new("txt", true);
    assert!(matches!(w.step(true, &es), Action::Stop));
    assert_eq!(w.phase(), SearchPhase::Cancelled);
    for _ in 0..10 {
        assert!(matches!(w.step(false, &es), Action::Stop));
        assert_eq!(w.phase(), SearchPhase::Cancelled);
    }
    // cancelled after the first result
    let mut w2 = Worker::new("txt", true);
    let (found, _) = run(&mut w2, &es, Some(1));
    assert_eq!(found, vec![1]);
    assert_eq!(w2.phase(), SearchPhase::Cancelled);
    let (after, steps) = run(&mut w2, &es, None);
    assert_eq!(after, vec![]);
    assert_eq!(steps, 1);
}

fn index_of(n: usize) -> Index {
    let mut idx = Index::new();
    let files = (0..n)
        .map(|i| FileRecord {
            name: format!("f{}.txt", i),
            path: format!("/d/f{}.txt", i),
            size: 1,
            mtime: 2,
        })
        .collect();
    idx.build_from_paths(files);
    idx
}

fn result(id: u64) -> SearchResult {
    SearchResult {
        id,
        name: "n".to_string(),
        path: "p".to_string(),
        size: 0,
        mtime: 0,
        highlights: String::new(),
    }
}

#[test]
fn handles_are_fresh_and_ascending() {
    let idx = index_of(2);
    let mut reg = Registry::new();
    let (h1, w1) = start_search_with_index(&mut reg, &idx, "txt");
    let (h2, w2) = start_search_with_index_and_cb(&mut reg, &idx, "(");
    assert_eq!((h1, h2), (1, 2));
    assert_eq!(w1.unwrap().phase(), SearchPhase::Created);
    assert_eq!(w2.unwrap().phase(), SearchPhase::Created);
    assert!(cancel_search(&mut reg, h1));
    let (h3, _) = start_search(&mut reg, Some(&idx), "txt");
    assert_eq!(h3, 3);
    assert!(reg.contains(2) && reg.contains(3) && !reg.contains(1) && !reg.contains(0));
    assert_eq!(reg.len(), 2);
    // without an index there is no search
    let (h0, w0) = start_search(&mut reg, None, "txt");
    assert_eq!(h0, 0);
    assert!(w0.is_none());
    assert_eq!(reg.len(), 2);
    // a search over an empty index is done before it starts
    let (h4, w4) = start_search_with_index(&mut reg, &index_of(0), "txt");
    assert_eq!(h4, 4);
    assert_eq!(w4.unwrap().phase(), SearchPhase::Completed);
    assert_eq!(reg.register(Delivery::Pull), 5);
}

#[test]
fn polling_drains_and_retires_a_finished_search() {
    let idx = index_of(2);
    let mut reg = Registry::new();
    let (h, _) = start_search_with_index(&mut reg, &idx, "txt");
    let got = poll_results(&mut reg, h, vec![result(1)], false);
    assert_eq!(ids(&got), vec![1]);
    assert!(reg.contains(h));
    let last = poll_results(&mut reg, h, vec![result(2)], true);
    assert_eq!(ids(&last), vec![2]);
    assert!(!reg.contains(h));
    // an unknown or expired handle yields nothing
    assert_eq!(poll_results(&mut reg, h, vec![result(3)], false), vec![]);
    assert_eq!(poll_results(&mut reg, 77, vec![result(3)], true), vec![]);
    assert_eq!(poll_results(&mut reg, 0, Vec::new(), true), vec![]);
    // a search that delivers by calls has nothing to poll and stays
    let (p, _) = start_search_with_index_and_cb(&mut reg, &idx, "txt");
    assert_eq!(poll_results(&mut reg, p, vec![result(4)], true), vec![]);
    assert!(reg.contains(p));
}

#[test]
fn nothing_is_polled_after_cancellation() {
    let idx = index_of(3);
    let mut reg = Registry::new();
    let (h, _) = start_search_with_index(&mut reg, &idx, "txt");
    assert!(cancel_search(&mut reg, h));
    assert!(!reg.contains(h));
    assert_eq!(poll_results(&mut reg, h, vec![result(1), result(2)], false), vec![]);
    assert!(!cancel_search(&mut reg, h));
}

#[test]
fn shutdown_cancels_everything_and_may_be_repeated() {
    let idx = index_of(1);
    let mut reg = Registry::new();
    start_search_with_index(&mut reg, &idx, "a");
    start_search_with_index_and_cb(&mut reg, &idx, "b");
    start_search_with_index(&mut reg, &idx, "c");
    cancel_search(&mut reg, 2);
    let mut stopped = shutdown_all(&mut reg);
    stopped.sort();
    assert_eq!(stopped, vec![1, 3]);
    assert_eq!(reg.len(), 0);
    assert_eq!(shutdown_all(&mut reg), vec![]);
    let (h, _) = start_search_with_index(&mut reg, &idx, "d");
    assert_eq!(h, 4);
}
