use casm::clock::Clock;
use casm::otlp::{KeyValue, Payload, SCOPE_NAME};
use casm::record::{Outcome, Resource, Severity};
use casm::recorder::Recorder;

fn populated() -> Recorder {
    let mut recorder = Recorder::with_clock(
        Resource::new("casm", "0.2.0").with_attribute("casm.command", "validate"),
        Clock::stepping(1_000_000, 500_000),
    );
    let outer = recorder.start("check");
    let inner = recorder
        .start("validate")
        .with_attribute("casm.file", "storefront.yaml");
    recorder.event(Severity::Warn, "a claim was unchecked");
    recorder.finish(inner, Outcome::Success);
    recorder.finish(outer, Outcome::Error);
    recorder
}

fn kv(key: &str, value: &str) -> KeyValue {
    KeyValue {
        key: key.to_owned(),
        value: value.to_owned(),
    }
}

#[test]
fn the_payload_names_its_scope_and_the_service_version() {
    let payload = Payload::of(&populated());
    assert_eq!(payload.scope_name, SCOPE_NAME);
    assert_eq!(payload.scope_name, "casm-telemetry");
    assert_eq!(payload.scope_version, "0.2.0");
}

#[test]
fn the_service_name_is_present_because_otlp_requires_it() {
    let payload = Payload::of(&populated());
    assert_eq!(
        payload.resource_attributes,
        vec![
            kv("casm.command", "validate"),
            kv("service.name", "casm"),
            kv("service.version", "0.2.0"),
        ]
    );
}

#[test]
fn the_service_name_replaces_an_attribute_of_the_same_key() {
    let recorder = Recorder::with_clock(
        Resource::new("casm", "0.2.0").with_attribute("service.name", "impostor"),
        Clock::stepping(0, 1),
    );
    let payload = Payload::of(&recorder);
    assert_eq!(
        payload.resource_attributes,
        vec![kv("service.name", "casm"), kv("service.version", "0.2.0")]
    );
}

#[test]
fn a_span_carries_its_trace_parent_status_and_decimal_timestamps() {
    let recorder = populated();
    let payload = Payload::of(&recorder);
    assert_eq!(payload.spans.len(), 2);

    let inner = &payload.spans[0];
    assert_eq!(inner.name, "validate");
    assert_eq!(inner.trace_id, recorder.trace_id());
    assert_eq!(inner.kind, 1);
    assert_eq!(inner.status_code, 1, "ok");
    assert_eq!(inner.span_id, "0000000000000002");
    assert_eq!(inner.parent_span_id.as_deref(), Some("0000000000000001"));
    // The first reading seeds the trace id; the outer span starts on the second.
    assert_eq!(inner.start_time_unix_nano, "2000000");
    assert_eq!(inner.end_time_unix_nano, "3000000");
    assert_eq!(inner.attributes, vec![kv("casm.file", "storefront.yaml")]);

    let outer = &payload.spans[1];
    assert_eq!(outer.name, "check");
    assert_eq!(outer.status_code, 2, "error");
    assert!(outer.parent_span_id.is_none(), "the outer span has none");
    assert_eq!(outer.start_time_unix_nano, "1500000");
    assert_eq!(outer.end_time_unix_nano, "3500000");
}

#[test]
fn an_event_becomes_a_log_record_correlated_to_its_span() {
    let recorder = populated();
    let payload = Payload::of(&recorder);
    assert_eq!(payload.log_records.len(), 1);
    let record = &payload.log_records[0];
    assert_eq!(record.severity_number, 13);
    assert_eq!(record.severity_text, "WARN");
    assert_eq!(record.body, "a claim was unchecked");
    assert_eq!(record.trace_id, recorder.trace_id());
    assert_eq!(record.span_id.as_deref(), Some("0000000000000002"));
    assert_eq!(record.time_unix_nano, "2500000");
}

#[test]
fn an_event_outside_any_span_omits_the_span_id() {
    let mut recorder = Recorder::with_clock(Resource::new("casm", "0.2.0"), Clock::stepping(0, 1));
    recorder.event(Severity::Info, "no span");
    let payload = Payload::of(&recorder);
    assert!(payload.log_records[0].span_id.is_none());
    assert_eq!(payload.log_records[0].severity_number, 9);
    assert_eq!(payload.log_records[0].severity_text, "INFO");
}

#[test]
fn an_empty_recorder_still_produces_a_well_formed_payload() {
    let recorder = Recorder::with_clock(Resource::new("casm", "0.2.0"), Clock::stepping(0, 1));
    let payload = Payload::of(&recorder);
    assert!(payload.spans.is_empty());
    assert!(payload.log_records.is_empty());
    assert_eq!(payload.resource_attributes.len(), 2);
}

#[test]
fn encoding_is_deterministic_for_a_fixed_clock() {
    assert_eq!(Payload::of(&populated()), Payload::of(&populated()));
}
