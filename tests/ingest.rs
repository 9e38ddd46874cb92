use timetracer::aggregate::IngestError;
use timetracer::classify::{Category, Classified};
use timetracer::store::{object_key, AggregateStore};
use timetracer::trace_event::{ArgValue, Args, RawTraceEvent};

fn detail(text: &str) -> Option<Args> {
    Some(vec![("detail".to_string(), ArgValue::Str(text.to_string()))])
}

fn event(name: &str, ph: &str, dur: Option<u64>, args: Option<Args>) -> RawTraceEvent {
    RawTraceEvent {
        name: name.to_string(),
        category: None,
        phase: ph.to_string(),
        timestamp: 0,
        pid: 1,
        tid: 1,
        duration: dur,
        args,
    }
}

fn source(text: &str, dur: u64) -> RawTraceEvent {
    event("Source", "X", Some(dur), detail(text))
}

fn totals(frontend: u64, backend: u64) -> Vec<RawTraceEvent> {
    vec![
        event("Total Frontend", "X", Some(frontend), None),
        event("Total Backend", "X", Some(backend), None),
    ]
}

fn file_a() -> Vec<RawTraceEvent> {
    let mut v = vec![source("x.h", 100), source("x.h", 50)];
    v.extend(totals(100, 50));
    v
}

fn object_row(store: &AggregateStore, path: &str) -> Option<(u64, u64, u64)> {
    store
        .objects
        .iter()
        .find(|o| o.path == path)
        .map(|o| (o.total_time, o.frontend, o.backend))
}

#[test]
fn scenario_single_file() {
    let mut store = AggregateStore::new();
    assert_eq!(store.ingest_raw("a.json", file_a()), Ok(()));
    assert_eq!(object_row(&store, "a"), Some((150, 100, 50)));
    assert_eq!(store.metrics.get(Category::Source, "x.h", "a"), (150, 2));
    assert_eq!(store.metrics.rows.len(), 1);
}

#[test]
fn scenario_second_file_gets_its_own_rows() {
    let mut store = AggregateStore::new();
    assert_eq!(store.ingest_raw("a.json", file_a()), Ok(()));
    let mut b = vec![source("x.h", 10)];
    b.extend(totals(100, 50));
    assert_eq!(store.ingest_raw("b.json", b), Ok(()));
    assert_eq!(store.metrics.get(Category::Source, "x.h", "a"), (150, 2));
    assert_eq!(store.metrics.get(Category::Source, "x.h", "b"), (10, 1));
    assert_eq!(store.metrics.rows.len(), 2);
    assert_eq!(object_row(&store, "b"), Some((150, 100, 50)));
}

#[test]
fn same_object_twice_is_a_duplicate() {
    let mut store = AggregateStore::new();
    assert_eq!(store.ingest_raw("a.json", file_a()), Ok(()));
    assert_eq!(store.ingest_raw("a.json", file_a()), Err(IngestError::DuplicateObject));
    assert_eq!(store.metrics.get(Category::Source, "x.h", "a"), (150, 2));
    assert_eq!(store.objects.len(), 1);
}

#[test]
fn two_independent_runs_agree() {
    let mut first = AggregateStore::new();
    let mut second = AggregateStore::new();
    assert_eq!(first.ingest_raw("dir/a.json", file_a()), Ok(()));
    assert_eq!(second.ingest_raw("dir/a.json", file_a()), Ok(()));
    assert_eq!(object_row(&first, "dir/a"), object_row(&second, "dir/a"));
    assert_eq!(
        first.metrics.get(Category::Source, "x.h", "dir/a"),
        second.metrics.get(Category::Source, "x.h", "dir/a")
    );
    assert_eq!(first.metrics.rows.len(), second.metrics.rows.len());
}

#[test]
fn unknown_phase_skips_the_whole_file() {
    let mut store = AggregateStore::new();
    let mut bad = file_a();
    bad.push(event("Source", "?", Some(5), detail("y.h")));
    assert_eq!(store.ingest_raw("a.json", bad), Err(IngestError::MalformedTrace));
    assert!(store.objects.is_empty());
    assert!(store.metrics.rows.is_empty());
}

#[test]
fn unusable_events_are_ignored_individually() {
    let mut store = AggregateStore::new();
    let mut v = file_a();
    v.push(event("Source", "X", None, detail("x.h")));
    v.push(event("Source", "X", Some(7), Some(vec![("detail".to_string(), ArgValue::Other)])));
    v.push(event("ParseClass", "X", Some(7), None));
    v.push(event("ParseClass", "X", Some(9), detail("K")));
    assert_eq!(store.ingest_raw("a.json", v), Ok(()));
    assert_eq!(store.metrics.get(Category::Source, "x.h", "a"), (150, 2));
    assert_eq!(store.metrics.get(Category::ParseClass, "K", "a"), (9, 1));
    assert_eq!(store.metrics.rows.len(), 2);
}

#[test]
fn totals_are_summed_over_pseudo_events() {
    let mut store = AggregateStore::new();
    let mut v = totals(10, 20);
    v.extend(totals(1, 2));
    assert_eq!(store.ingest_raw("t.json", v), Ok(()));
    assert_eq!(object_row(&store, "t"), Some((33, 11, 22)));
}

#[test]
fn categories_keep_separate_records() {
    let mut store = AggregateStore::new();
    let v = vec![
        event("InstantiateClass", "X", Some(4), detail("V<int>")),
        event("InstantiateFunction", "X", Some(5), detail("V<int>")),
        event("ParseTemplate", "X", Some(6), detail("V<int>")),
        event("InstantiateClass", "X", Some(1), detail("V<int>")),
    ];
    assert_eq!(store.ingest_raw("m.json", v), Ok(()));
    assert_eq!(store.metrics.get(Category::InstantiateClass, "V<int>", "m"), (5, 2));
    assert_eq!(store.metrics.get(Category::InstantiateFunction, "V<int>", "m"), (5, 1));
    assert_eq!(store.metrics.get(Category::ParseTemplate, "V<int>", "m"), (6, 1));
    assert_eq!(store.metrics.get(Category::ParseClass, "V<int>", "m"), (0, 0));
    assert_eq!(object_row(&store, "m"), Some((0, 0, 0)));
}

#[test]
fn sums_beyond_the_store_range_overflow() {
    let mut store = AggregateStore::new();
    let half = (i64::MAX as u64) / 2 + 1;
    let v = vec![source("x.h", half), source("x.h", half)];
    assert_eq!(store.ingest_raw("o.json", v), Err(IngestError::Overflow));
    assert!(store.objects.is_empty());
    let v = totals(half, half);
    assert_eq!(store.ingest_raw("o.json", v), Err(IngestError::Overflow));
    assert!(store.objects.is_empty());
}

#[test]
fn ingest_classified_merges_into_existing_records() {
    let mut store = AggregateStore::new();
    let cs = vec![
        Classified::Metric { category: Category::Source, name: "x.h".to_string(), duration: 3 },
        Classified::Ignore,
        Classified::Metric { category: Category::Source, name: "x.h".to_string(), duration: 4 },
    ];
    assert_eq!(store.ingest_classified("c.json", &cs), Ok(()));
    assert_eq!(store.metrics.get(Category::Source, "x.h", "c"), (7, 2));
    store.metrics.upsert(Category::Source, "x.h", "c", 10, 3);
    assert_eq!(store.metrics.get(Category::Source, "x.h", "c"), (17, 5));
    assert_eq!(store.metrics.rows.len(), 1);
}

#[test]
fn object_key_strips_the_extension() {
    assert_eq!(object_key("a.json"), "a");
    assert_eq!(object_key("build/dir/file.cpp.json"), "build/dir/file.cpp");
    assert_eq!(object_key("a.txt"), "a.txt");
    assert_eq!(object_key("dir/.json"), "dir/.json");
    assert_eq!(object_key(".json"), ".json");
}
