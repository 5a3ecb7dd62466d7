use casm::clock::{Clock, Timestamp};
use casm::record::{Attributes, MetricKind, Outcome, Resource, Severity, Span, SpanId};
use casm::recorder::{reverse_bits, trace_id_from, Dropped, Limits, Recorder};
use casm::sink::{dropped_notice, Format};

#[test]
fn a_stepping_clock_is_a_predictable_sequence() {
    let mut clock = Clock::stepping(1_000, 250);
    assert_eq!(clock.now().as_nanos(), 1_000);
    assert_eq!(clock.now().as_nanos(), 1_250);
    assert_eq!(clock.now().as_nanos(), 1_500);
}

#[test]
fn the_system_clock_is_after_the_epoch_and_moves_forward() {
    let mut clock = Clock::System;
    let first = clock.now();
    let second = clock.now();
    assert!(first.as_nanos() > 1_577_836_800_000_000_000, "{first:?}");
    assert!(second >= first);
}

#[test]
fn elapsed_time_never_runs_backwards() {
    let later = Timestamp::from_nanos(500);
    let earlier = Timestamp::from_nanos(100);
    assert_eq!(earlier.elapsed_to(later), 400);
    assert_eq!(later.elapsed_to(earlier), 0, "a backwards clock is not negative");
}

#[test]
fn a_stepping_clock_saturates_rather_than_wrapping() {
    let mut clock = Clock::stepping(u64::MAX - 1, 1_000);
    assert_eq!(clock.now().as_nanos(), u64::MAX - 1);
    assert_eq!(clock.now().as_nanos(), u64::MAX);
    assert_eq!(clock.now().as_nanos(), u64::MAX);
}

#[test]
fn milliseconds_are_whole_and_truncating() {
    assert_eq!(Timestamp::from_nanos(1_999_999).as_millis(), 1);
    assert_eq!(Timestamp::from_nanos(2_000_000).as_millis(), 2);
    assert_eq!(Timestamp::from_nanos(0).as_millis(), 0);
}

fn span(start: u64, end: u64) -> Span {
    Span {
        name: "validate".to_owned(),
        span_id: SpanId::from_counter(0x0123_4567_89ab_cdef),
        parent_span_id: None,
        start: Timestamp::from_nanos(start),
        end: Timestamp::from_nanos(end),
        outcome: Outcome::Success,
        attributes: Attributes::new(),
    }
}

#[test]
fn a_span_that_ended_before_it_started_is_zero_length() {
    assert_eq!(span(5_000, 1_000).duration_nanos(), 0);
}

#[test]
fn a_span_reports_its_duration_in_nanoseconds() {
    assert_eq!(span(1_000_000, 4_500_000).duration_nanos(), 3_500_000);
}

#[test]
fn outcomes_and_severities_carry_their_wire_values() {
    assert_eq!(Outcome::Unset.otlp_code(), 0);
    assert_eq!(Outcome::Success.otlp_code(), 1);
    assert_eq!(Outcome::Error.otlp_code(), 2);

    assert_eq!(Severity::Debug.otlp_number(), 5);
    assert_eq!(Severity::Info.otlp_number(), 9);
    assert_eq!(Severity::Warn.otlp_number(), 13);
    assert_eq!(Severity::Error.otlp_number(), 17);
}

#[test]
fn severities_order_by_seriousness() {
    assert!(Severity::Debug < Severity::Info);
    assert!(Severity::Info < Severity::Warn);
    assert!(Severity::Warn < Severity::Error);
}

#[test]
fn labels_and_texts_name_each_value() {
    assert_eq!(Outcome::Unset.label(), "unset");
    assert_eq!(Outcome::Success.label(), "ok");
    assert_eq!(Outcome::Error.label(), "error");
    assert_eq!(Severity::Debug.otlp_text(), "DEBUG");
    assert_eq!(Severity::Warn.otlp_text(), "WARN");
}

#[test]
fn a_span_identifier_renders_as_sixteen_hexadecimal_characters() {
    assert_eq!(SpanId::from_counter(1).to_hex(), "0000000000000001");
    assert_eq!(SpanId::from_counter(u64::MAX).to_hex(), "ffffffffffffffff");
    assert_eq!(SpanId::from_counter(0).to_hex().len(), 16);
    assert_eq!(SpanId::from_counter(255).to_hex(), "00000000000000ff");
}

#[test]
fn a_resource_carries_the_attributes_attached_to_it() {
    let resource = Resource::new("casm", "0.2.0")
        .with_attribute("host.name", "runner")
        .with_attribute("casm.command", "validate");
    assert_eq!(resource.service_name, "casm");
    assert_eq!(resource.attributes.len(), 2);
    assert_eq!(resource.attributes.get("casm.command"), Some("validate"));
}

#[test]
fn attributes_keep_one_value_per_key_in_key_order() {
    let mut attributes = Attributes::new();
    attributes.insert("b", "1");
    attributes.insert("a", "2");
    attributes.insert("b", "3");
    attributes.insert("ab", "4");
    let keys: Vec<&str> = attributes.entries().iter().map(|(k, _)| k.as_str()).collect();
    assert_eq!(keys, ["a", "ab", "b"]);
    assert_eq!(attributes.get("b"), Some("3"));
    assert_eq!(attributes.get("c"), None);
    assert_eq!(attributes.clone(), attributes);
}

fn recorder() -> Recorder {
    Recorder::with_clock(Resource::new("casm", "0.2.0"), Clock::stepping(1_000, 500))
}

#[test]
fn a_span_records_the_time_between_its_ends() {
    let mut recorder = recorder();
    let span = recorder.start("validate");
    recorder.finish(span, Outcome::Success);
    assert_eq!(recorder.spans().len(), 1);
    let stored = &recorder.spans()[0];
    assert_eq!(stored.name, "validate");
    assert_eq!(stored.duration_nanos(), 500, "one clock step");
    assert_eq!(stored.outcome, Outcome::Success);
}

#[test]
fn a_span_started_inside_another_names_it_as_its_parent() {
    let mut recorder = recorder();
    let outer = recorder.start("check");
    let inner = recorder.start("validate");
    let outer_id = outer.span_id();
    let inner_parent = inner.parent_span_id();
    recorder.finish(inner, Outcome::Success);
    recorder.finish(outer, Outcome::Success);
    assert_eq!(inner_parent, Some(outer_id));
    assert_eq!(recorder.spans()[0].name, "validate", "innermost finishes first");
    assert!(recorder.spans()[1].parent_span_id.is_none());
}

#[test]
fn sibling_spans_do_not_become_each_others_parents() {
    let mut recorder = recorder();
    let first = recorder.start("parse");
    recorder.finish(first, Outcome::Success);
    let second = recorder.start("validate");
    recorder.finish(second, Outcome::Success);
    assert!(recorder.spans().iter().all(|s| s.parent_span_id.is_none()));
}

#[test]
fn every_span_in_a_run_gets_a_distinct_identifier() {
    let mut recorder = recorder();
    for _ in 0..8 {
        let span = recorder.start("work");
        recorder.finish(span, Outcome::Unset);
    }
    let mut ids: Vec<SpanId> = recorder.spans().iter().map(|s| s.span_id).collect();
    ids.sort_unstable();
    ids.dedup();
    assert_eq!(ids.len(), 8);
    assert!(ids.iter().all(|id| id.to_hex().len() == 16), "{ids:?}");
}

#[test]
fn an_event_is_correlated_with_the_span_it_happened_inside() {
    let mut recorder = recorder();
    recorder.event(Severity::Info, "before any span");
    let span = recorder.start("validate");
    let span_id = span.span_id();
    recorder.event(Severity::Warn, "inside");
    recorder.finish(span, Outcome::Success);
    recorder.event(Severity::Info, "after");
    assert_eq!(recorder.events().len(), 3);
    assert_eq!(recorder.events()[0].span_id, None);
    assert_eq!(recorder.events()[1].span_id, Some(span_id));
    assert_eq!(recorder.events()[2].span_id, None);
}

#[test]
fn spans_past_the_ceiling_are_dropped_and_counted() {
    let mut recorder = recorder().with_limits(Limits { max_spans: 2, ..Limits::default() });
    for _ in 0..5 {
        let span = recorder.start("work");
        recorder.finish(span, Outcome::Success);
    }
    assert_eq!(recorder.spans().len(), 2);
    assert_eq!(recorder.dropped().spans, 3);
    assert!(!recorder.dropped().is_none());
    assert_eq!(recorder.dropped().total(), 3);
}

#[test]
fn events_and_metric_series_have_their_own_ceilings() {
    let mut recorder = recorder().with_limits(Limits { max_spans: 64, max_events: 1, max_metrics: 1 });
    recorder.event(Severity::Info, "kept");
    recorder.event(Severity::Info, "dropped");
    assert_eq!(recorder.observe_series("first", MetricKind::Counter, "1"), Some(0));
    assert_eq!(recorder.observe_series("second", MetricKind::Counter, "1"), None);
    assert_eq!(recorder.observe_series("first", MetricKind::Counter, "1"), Some(0));
    assert_eq!(recorder.events().len(), 1);
    assert_eq!(recorder.dropped().events, 1);
    assert_eq!(recorder.series().len(), 1);
    assert_eq!(recorder.dropped().metrics, 1);
    assert_eq!(
        recorder.series()[0].count,
        2,
        "an existing series still accepts observations at the ceiling"
    );
}

#[test]
fn one_run_shares_one_trace_identifier() {
    let recorder = recorder();
    assert_eq!(recorder.trace_id().len(), 32);
    assert!(recorder.trace_id().bytes().all(|b| b.is_ascii_hexdigit()));
    assert_eq!(recorder.trace_id(), "00000000000003e817c0000000000000");
}

#[test]
fn two_runs_a_nanosecond_apart_do_not_share_a_trace() {
    let first = Recorder::with_clock(Resource::new("casm", "0.2.0"), Clock::stepping(1, 1));
    let second = Recorder::with_clock(Resource::new("casm", "0.2.0"), Clock::stepping(2, 1));
    assert_ne!(first.trace_id(), second.trace_id());
}

#[test]
fn a_supplied_trace_identifier_is_used_when_it_is_well_formed() {
    let joined = recorder().with_trace_id("0af7651916cd43dd8448eb211c80319c");
    assert_eq!(joined.trace_id(), "0af7651916cd43dd8448eb211c80319c");
}

#[test]
fn a_malformed_trace_identifier_is_refused_rather_than_corrected() {
    let generated = recorder().trace_id().to_owned();
    for bad in ["too-short", "", &"z".repeat(32), &"0".repeat(31), &"é".repeat(16)] {
        let recorder = recorder().with_trace_id(bad);
        assert_eq!(recorder.trace_id(), generated, "{bad:?} should be refused");
    }
}

#[test]
fn finishing_out_of_order_still_records_the_measurement() {
    let mut recorder = recorder();
    let outer = recorder.start("outer");
    let inner = recorder.start("inner");
    recorder.finish(outer, Outcome::Success);
    recorder.finish(inner, Outcome::Success);
    assert_eq!(recorder.spans().len(), 2);
    assert_eq!(recorder.spans()[0].name, "outer");
}

#[test]
fn an_abandoned_span_records_nothing() {
    let mut recorder = recorder();
    let span = recorder.start("abandoned");
    drop(span);
    assert!(recorder.spans().is_empty());
}

#[test]
fn attributes_survive_onto_the_recorded_span() {
    let mut recorder = recorder();
    let span = recorder
        .start("validate")
        .with_attribute("casm.file", "storefront.yaml")
        .with_attribute("casm.nodes", "6");
    recorder.finish(span, Outcome::Success);
    let stored = &recorder.spans()[0];
    assert_eq!(stored.attributes.len(), 2);
    assert_eq!(stored.attributes.get("casm.file"), Some("storefront.yaml"));
}

#[test]
fn bit_reversal_matches_the_standard_library() {
    for x in [0u64, 1, 2, 0x8000_0000_0000_0000, 1_000, u64::MAX, 0x0123_4567_89ab_cdef] {
        assert_eq!(reverse_bits(x), x.reverse_bits(), "{x:#x}");
    }
    assert_eq!(trace_id_from(1), "00000000000000018000000000000000");
}

#[test]
fn format_names_round_trip_and_unknown_ones_are_refused() {
    for name in Format::names() {
        assert!(Format::parse(name).is_some(), "{name}");
    }
    assert_eq!(Format::parse("jsonl"), Some(Format::JsonLines));
    assert_eq!(Format::parse("prometheus"), None);
    assert_eq!(Format::parse(""), None);
    assert_eq!(Format::parse("JSON"), None, "matching is exact, not fuzzy");
}

#[test]
fn the_dropped_notice_names_each_kind() {
    assert_eq!(dropped_notice(&Dropped::default()), None);
    let dropped = Dropped { spans: 3, events: 1, metrics: 0 };
    assert_eq!(
        dropped_notice(&dropped).as_deref(),
        Some("4 telemetry record(s) were dropped at the retention ceiling (3 span(s), 1 event(s), 0 metric series)")
    );
}

#[test]
fn default_limits_are_the_documented_ceilings() {
    let limits = Limits::default();
    assert_eq!(limits.max_spans, 4_096);
    assert_eq!(limits.max_events, 4_096);
    assert_eq!(limits.max_metrics, 256);
}

#[test]
fn a_span_duration_is_recorded_under_a_name_derived_from_the_operation() {
    assert_eq!(casm::recorder::span_series("validate"), "casm.validate.duration");
    assert_eq!(casm::recorder::span_series(""), "casm..duration");
}

#[test]
fn nested_spans_sit_one_level_deeper_than_their_parent() {
    let mut recorder = Recorder::with_clock(Resource::new("casm", "0.2.0"), Clock::stepping(1_000_000, 500_000));
    let outer = recorder.start("validate");
    let middle = recorder.start("parse");
    let inner = recorder.start("lex");
    recorder.finish(inner, Outcome::Success);
    recorder.finish(middle, Outcome::Success);
    recorder.finish(outer, Outcome::Success);
    let spans = recorder.spans();
    let depth_of = |name: &str| {
        let span = spans.iter().find(|s| s.name == name).unwrap();
        casm::recorder::span_depth(spans, span)
    };
    assert_eq!(depth_of("validate"), 0);
    assert_eq!(depth_of("parse"), 1);
    assert_eq!(depth_of("lex"), 2, "a third-level span is indented deeper than the second");
}
