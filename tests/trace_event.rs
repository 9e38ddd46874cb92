use timetracer::classify::{classify, classify_parts, get_detail, Category, Classified, TotalKind};
use timetracer::trace_event::{ArgValue, Args, EventType, RawTraceEvent, TraceError, TraceEvents};

fn detail(text: &str) -> Option<Args> {
    Some(vec![("detail".to_string(), ArgValue::Str(text.to_string()))])
}

fn raw(name: &str, ph: &str, dur: Option<u64>, args: Option<Args>) -> RawTraceEvent {
    RawTraceEvent {
        name: name.to_string(),
        category: None,
        phase: ph.to_string(),
        timestamp: 1502,
        pid: 2607,
        tid: 2607,
        duration: dur,
        args,
    }
}

#[test]
fn test_deserialize_trace_event() {
    let result = TraceEvents::from_raw(
        vec![raw("Source", "X", Some(689), detail("/usr/include/features.h"))],
        Some("ns".to_string()),
        None,
    )
    .unwrap();
    assert_eq!(result.trace_events.len(), 1);

    let event = &result.trace_events[0];
    assert_eq!(event.pid, 2607);
    assert_eq!(event.tid, 2607);
    assert_eq!(event.phase, EventType::X);
    assert_eq!(event.timestamp, 1502);
    assert_eq!(event.duration.unwrap(), 689);
    assert_eq!(event.name, "Source");

    assert_eq!(get_detail(event).unwrap(), "/usr/include/features.h");
    assert_eq!(result.display_time_unit.as_deref(), Some("ns"));
}

#[test]
fn every_listed_tag_decodes() {
    let tags = [
        ("B", EventType::B),
        ("E", EventType::E),
        ("X", EventType::X),
        ("i", EventType::i),
        ("I", EventType::I),
        ("C", EventType::C),
        ("b", EventType::b),
        ("n", EventType::n),
        ("e", EventType::e),
        ("S", EventType::S),
        ("T", EventType::T),
        ("p", EventType::p),
        ("F", EventType::F),
        ("s", EventType::s),
        ("t", EventType::t),
        ("f", EventType::f),
        ("P", EventType::P),
        ("N", EventType::N),
        ("O", EventType::O),
        ("D", EventType::D),
        ("M", EventType::M),
        ("V", EventType::V),
        ("v", EventType::v),
        ("R", EventType::R),
        ("c", EventType::c),
        ("(", EventType::LParenthesis),
        (")", EventType::RPparenthesis),
    ];
    for (tag, expected) in tags {
        assert_eq!(EventType::from_tag(tag), Some(expected));
    }
}

#[test]
fn unknown_tags_do_not_decode() {
    assert_eq!(EventType::from_tag("Q"), None);
    assert_eq!(EventType::from_tag("XX"), None);
    assert_eq!(EventType::from_tag(""), None);
    assert_eq!(EventType::from_tag("x"), None);
}

#[test]
fn one_unknown_tag_fails_the_file() {
    let result = TraceEvents::from_raw(
        vec![raw("Source", "X", Some(1), None), raw("Source", "Z", Some(1), None)],
        None,
        None,
    );
    assert!(matches!(result, Err(TraceError::UnknownPhase)));
}

#[test]
fn decoding_keeps_event_order() {
    let result = TraceEvents::from_raw(
        vec![raw("A", "B", None, None), raw("B", "E", None, None), raw("C", "(", None, None)],
        None,
        None,
    )
    .unwrap();
    let names: Vec<&str> = result.trace_events.iter().map(|e| e.name.as_str()).collect();
    assert_eq!(names, vec!["A", "B", "C"]);
    assert_eq!(result.trace_events[2].phase, EventType::LParenthesis);
}

#[test]
fn classification_table() {
    let cases = [
        ("Source", Category::Source),
        ("InstantiateClass", Category::InstantiateClass),
        ("InstantiateFunction", Category::InstantiateFunction),
        ("ParseClass", Category::ParseClass),
        ("ParseTemplate", Category::ParseTemplate),
    ];
    for (name, category) in cases {
        match classify_parts(name, Some("sym"), Some(7)) {
            Classified::Metric { category: c, name: n, duration } => {
                assert_eq!(c, category);
                assert_eq!(n, "sym");
                assert_eq!(duration, 7);
            }
            other => panic!("unexpected {:?}", other),
        }
    }
    assert!(matches!(
        classify_parts("Total Frontend", None, Some(100)),
        Classified::ObjectTotal { kind: TotalKind::Frontend, duration: 100 }
    ));
    assert!(matches!(
        classify_parts("Total Backend", None, Some(50)),
        Classified::ObjectTotal { kind: TotalKind::Backend, duration: 50 }
    ));
    assert!(matches!(classify_parts("source", Some("x"), Some(1)), Classified::Ignore));
    assert!(matches!(classify_parts("Frontend", None, Some(1)), Classified::Ignore));
}

#[test]
fn missing_duration_or_detail_is_ignored() {
    assert!(matches!(classify_parts("Source", Some("x.h"), None), Classified::Ignore));
    assert!(matches!(classify_parts("Source", None, Some(3)), Classified::Ignore));
    assert!(matches!(classify_parts("Total Frontend", None, None), Classified::Ignore));
}

#[test]
fn duration_out_of_store_range_is_ignored() {
    let too_long = (i64::MAX as u64) + 1;
    assert!(matches!(classify_parts("Source", Some("x.h"), Some(too_long)), Classified::Ignore));
    assert!(matches!(
        classify_parts("Source", Some("x.h"), Some(i64::MAX as u64)),
        Classified::Metric { .. }
    ));
}

#[test]
fn detail_must_be_a_string_member_named_detail() {
    let decode = |args: Option<Args>| {
        TraceEvents::from_raw(vec![raw("Source", "X", Some(5), args)], None, None).unwrap()
    };
    let t = decode(Some(vec![
        ("other".to_string(), ArgValue::Str("no".to_string())),
        ("detail".to_string(), ArgValue::Str("x.h".to_string())),
    ]));
    assert_eq!(get_detail(&t.trace_events[0]), Some("x.h"));
    assert!(matches!(
        classify(&t.trace_events[0]),
        Classified::Metric { category: Category::Source, duration: 5, .. }
    ));
    let t = decode(Some(vec![("detail".to_string(), ArgValue::Other)]));
    assert_eq!(get_detail(&t.trace_events[0]), None);
    assert!(matches!(classify(&t.trace_events[0]), Classified::Ignore));
    let t = decode(Some(vec![("Detail".to_string(), ArgValue::Str("x.h".to_string()))]));
    assert_eq!(get_detail(&t.trace_events[0]), None);
    let t = decode(Some(vec![]));
    assert_eq!(get_detail(&t.trace_events[0]), None);
    let t = decode(None);
    assert_eq!(get_detail(&t.trace_events[0]), None);
}
