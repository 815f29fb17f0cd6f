//! What is forwarded of the events of a run to the trace log.

use recipes_simulation::trace_events::{
    event_details, merge_fields, sanitize, severity, Bindings, DetailVisitor, Level, Origin,
    Severity, SpanContext,
};

fn origin() -> Origin {
    Origin { target: "demo".to_owned(), file: None, line: None }
}

fn event(fields: &[(&str, &str)]) -> DetailVisitor {
    let mut visitor = DetailVisitor::default();
    for (name, value) in fields {
        visitor.push(name, value);
    }
    visitor
}

fn span(name: &str, fields: &[(&str, &str)]) -> SpanContext {
    SpanContext { name: name.to_owned(), fields: event(fields).into_all_fields() }
}

/// What is forwarded of an event inside some spans, the outermost first
fn forwarded(fields: &[(&str, &str)], spans: &[SpanContext]) -> Vec<(String, String)> {
    let scope = if spans.is_empty() { None } else { Some(spans) };
    event_details(&origin(), event(fields), scope)
}

fn has(details: &[(String, String)], key: &str, value: &str) -> bool {
    details.iter().any(|(k, v)| k == key && v == value)
}

fn pairs(list: &[(&str, &str)]) -> Vec<(String, String)> {
    list.iter().map(|(key, value)| (key.to_string(), value.to_string())).collect()
}

#[test]
fn severity_mapping_never_errors() {
    assert!(matches!(severity(Level::Trace), Severity::Debug));
    assert!(matches!(severity(Level::Debug), Severity::Debug));
    assert!(matches!(severity(Level::Info), Severity::Info));
    assert!(matches!(severity(Level::Warn), Severity::Warn));
    assert!(matches!(severity(Level::Error), Severity::WarnAlways));
}

#[test]
fn sanitize_strips_nul_bytes() {
    assert_eq!(sanitize("a\0b\0c"), "abc");
    assert_eq!(sanitize("clean"), "clean");
    assert_eq!(sanitize("\0"), "");
}

#[test]
fn event_splits_message_from_fields() {
    let mut visitor = event(&[("message", "hello world")]);
    visitor.record_i64("client", 3);
    let details = event_details(&origin(), visitor, None);
    assert!(has(&details, "Message", "hello world"));
    assert!(has(&details, "client", "3"));
}

#[test]
fn event_treats_explicit_message_field_as_message() {
    let mut visitor = event(&[("message", "explicit")]);
    visitor.record_i64("other", 1);
    let details = event_details(&origin(), visitor, None);
    assert!(has(&details, "Message", "explicit"));
    assert!(has(&details, "other", "1"));
    assert!(!details.iter().any(|(key, _)| key == "message"));
}

#[test]
fn event_strips_nul_from_keys_and_values() {
    let details = forwarded(&[("dirty", "a\0b"), ("message", "mes\0sage")], &[]);
    assert!(has(&details, "Message", "message"));
    assert!(has(&details, "dirty", "ab"));
    let details = forwarded(&[("di\0rty", "ab")], &[]);
    assert!(has(&details, "dirty", "ab"));
}

#[test]
fn event_in_span_carries_span_context() {
    let details = forwarded(
        &[("message", "inside the span")],
        &[span("demo_span", &[("client", "7")])],
    );
    assert!(has(&details, "Span", "demo_span"));
    assert!(has(&details, "SpanPath", "demo_span"));
    assert!(has(&details, "client", "7"));
    assert!(has(&details, "Message", "inside the span"));
}

#[test]
fn nested_spans_produce_full_path() {
    let details = forwarded(
        &[("message", "deep event")],
        &[span("outer", &[("a", "1")]), span("inner", &[("b", "2")])],
    );
    assert!(has(&details, "Span", "inner"));
    assert!(has(&details, "SpanPath", "outer/inner"));
    assert!(has(&details, "a", "1"));
    assert!(has(&details, "b", "2"));
}

#[test]
fn event_field_wins_over_span_field() {
    let details = forwarded(
        &[("shared", "from_event"), ("message", "msg")],
        &[span("collision", &[("shared", "from_span")])],
    );
    let shared: Vec<_> = details.iter().filter(|(key, _)| key == "shared").collect();
    assert_eq!(shared.len(), 1, "span field must be skipped on collision");
    assert_eq!(shared[0].1, "from_event");
}

#[test]
fn innermost_span_field_wins_over_outer() {
    let details = forwarded(
        &[("message", "event without a shared field")],
        &[
            span("outer", &[("shared", "from_outer")]),
            span("inner", &[("shared", "from_inner")]),
        ],
    );
    let shared: Vec<_> = details.iter().filter(|(key, _)| key == "shared").collect();
    assert_eq!(shared.len(), 1, "outer span field must be skipped on collision");
    assert_eq!(shared[0].1, "from_inner");
}

#[test]
fn guard_clears_slot_on_drop() {
    let mut bindings = Bindings::new();
    let guard = bindings.install();
    assert!(bindings.bound.is_some());
    bindings.release(guard);
    assert_eq!(bindings.bound, None);
}

#[test]
fn newer_install_survives_older_guard_drop() {
    let mut bindings = Bindings::new();
    let guard_a = bindings.install();
    let gen_a = bindings.bound;
    let guard_b = bindings.install();
    let gen_b = bindings.bound;
    assert_ne!(gen_a, gen_b);

    // The older guard must leave the newer binding untouched.
    bindings.release(guard_a);
    assert_eq!(bindings.bound, gen_b);

    // The newer guard owns the current binding and clears it.
    bindings.release(guard_b);
    assert_eq!(bindings.bound, None);
}

#[test]
fn details_come_in_order() {
    let placed = Origin {
        target: "de\0mo".to_owned(),
        file: Some("src/lib.rs".to_owned()),
        line: Some(12),
    };
    let details = event_details(
        &placed,
        event(&[("message", "hello"), ("a", "1")]),
        Some(&[span("outer", &[("b", "2"), ("a", "3")]), span("inner", &[("c", "4")])]),
    );
    assert_eq!(
        details,
        pairs(&[
            ("Target", "demo"),
            ("File", "src/lib.rs"),
            ("Line", "12"),
            ("Message", "hello"),
            ("a", "1"),
            ("Span", "inner"),
            ("SpanPath", "outer/inner"),
            ("b", "2"),
            ("c", "4"),
        ])
    );
}

#[test]
fn span_fields_come_from_root_to_leaf() {
    let details = forwarded(
        &[("message", "deep event")],
        &[
            span("outer", &[("a", "1"), ("shared", "from_outer"), ("Span", "taken")]),
            span("middle", &[("b", "2"), ("b", "twice")]),
            span("inner", &[("shared", "from_inner"), ("c", "3")]),
        ],
    );
    let place = details.iter().position(|(key, _)| key == "SpanPath").expect("a path");
    assert_eq!(
        details[place + 1..],
        pairs(&[("a", "1"), ("b", "2"), ("shared", "from_inner"), ("c", "3")])
    );
}

#[test]
fn every_kind_of_value_is_written_out() {
    let mut visitor = DetailVisitor::default();
    visitor.record_i64("a", i64::MIN);
    visitor.record_u64("b", u64::MAX);
    visitor.record_i128("c", i128::MIN);
    visitor.record_u128("d", u128::MAX);
    visitor.record_bool("e", true);
    visitor.record_bool("f", false);
    visitor.record_i128("g", 5);
    assert_eq!(
        visitor.into_all_fields(),
        vec![
            ("a".to_owned(), i64::MIN.to_string()),
            ("b".to_owned(), u64::MAX.to_string()),
            ("c".to_owned(), i128::MIN.to_string()),
            ("d".to_owned(), u128::MAX.to_string()),
            ("e".to_owned(), "true".to_owned()),
            ("f".to_owned(), "false".to_owned()),
            ("g".to_owned(), "5".to_owned()),
        ]
    );
}

#[test]
fn a_span_keeps_one_value_per_field() {
    let mut fields = pairs(&[("a", "1"), ("b", "2")]);
    merge_fields(&mut fields, pairs(&[("b", "3"), ("c", "4"), ("c", "5")]));
    assert_eq!(fields, pairs(&[("a", "1"), ("b", "3"), ("c", "5")]));

    let with_message = event(&[("a", "1"), ("message", "m")]).into_all_fields();
    assert_eq!(with_message, pairs(&[("message", "m"), ("a", "1")]));
}
