//! A recorder's spans and events in the shape OTLP/HTTP JSON defines.
//!
//! OTLP nests every signal three deep (resource, scope, then records) so
//! that one payload can carry several libraries of several processes; here
//! there is one resource and one scope. Attribute values are strings, and
//! 64-bit integers (timestamps) travel as decimal strings, because JSON
//! numbers are doubles. Identifiers travel as zero-padded lowercase
//! hexadecimal.
use vstd::prelude::*;

use crate::chars::owned;
use crate::fmt::{decimal, decimal_string, hex_padded};
use crate::record::{with_entry, Attributes, Event, Outcome, Severity, Span};
use crate::recorder::Recorder;

verus! {

/// The scope name every record is attributed to.
pub const SCOPE_NAME: &'static str = "casm-telemetry";

/// One attribute: a key and its string value.
#[derive(Clone, Debug, PartialEq, Eq)]
pub struct KeyValue {
    /// The attribute's key.
    pub key: String,
    /// The attribute's value.
    pub value: String,
}

/// The view of a list of attributes: its pairs, in order.
pub open spec fn pairs_of(kvs: Seq<KeyValue>) -> Seq<(Seq<char>, Seq<char>)> {
    kvs.map_values(|kv: KeyValue| (kv.key@, kv.value@))
}

/// Converts attributes into OTLP's array of pairs, in key order.
pub fn attributes(source: &Attributes) -> (r: Vec<KeyValue>)
    ensures
        pairs_of(r@) == source@,
{
    let entries = source.entries();
    let ghost all = source@;
    let mut r: Vec<KeyValue> = Vec::new();
    let mut i: usize = 0;
    while i < entries.len()
        invariant
            i <= entries@.len(),
            entries@.map_values(|e: (String, String)| (e.0@, e.1@)) == all,
            pairs_of(r@) == all.take(i as int),
        decreases entries@.len() - i,
    {
        let ghost before = pairs_of(r@);
        r.push(KeyValue { key: owned(entries[i].0.as_str()), value: owned(entries[i].1.as_str()) });
        assert(all[i as int] == (entries@[i as int].0@, entries@[i as int].1@));
        assert(pairs_of(r@) =~= before.push(all[i as int]));
        assert(all.take(i + 1) =~= all.take(i as int).push(all[i as int]));
        i = i + 1;
    }
    assert(all.take(i as int) =~= all);
    r
}

/// The resource's attributes with the service name and version OTLP
/// requires, which replace any attribute of the same key.
pub open spec fn resource_pairs(resource: crate::record::Resource) -> Seq<(Seq<char>, Seq<char>)> {
    with_entry(
        with_entry(resource.attributes@, "service.name"@, resource.service_name@),
        "service.version"@,
        resource.service_version@,
    )
}

/// The resource attributes, including the service name OTLP requires.
pub fn resource_attributes(resource: &crate::record::Resource) -> (r: Vec<KeyValue>)
    ensures
        pairs_of(r@) == resource_pairs(*resource),
{
    let mut merged = resource.attributes.clone();
    merged.insert("service.name", resource.service_name.as_str());
    merged.insert("service.version", resource.service_version.as_str());
    attributes(&merged)
}

/// One span, in OTLP's encoding.
#[derive(Clone, Debug, PartialEq, Eq)]
pub struct OtlpSpan {
    pub trace_id: String,
    pub span_id: String,
    pub parent_span_id: Option<String>,
    pub name: String,
    /// Always 1, `SPAN_KIND_INTERNAL`: everything recorded is work inside
    /// this process.
    pub kind: u8,
    pub start_time_unix_nano: String,
    pub end_time_unix_nano: String,
    pub attributes: Vec<KeyValue>,
    /// The status code: 0 unset, 1 ok, 2 error.
    pub status_code: u8,
}

/// The model of an [`OtlpSpan`].
pub struct OtlpSpanV {
    pub trace_id: Seq<char>,
    pub span_id: Seq<char>,
    pub parent_span_id: Option<Seq<char>>,
    pub name: Seq<char>,
    pub kind: u8,
    pub start_time_unix_nano: Seq<char>,
    pub end_time_unix_nano: Seq<char>,
    pub attributes: Seq<(Seq<char>, Seq<char>)>,
    pub status_code: u8,
}

impl View for OtlpSpan {
    type V = OtlpSpanV;

    open spec fn view(&self) -> OtlpSpanV {
        OtlpSpanV {
            trace_id: self.trace_id@,
            span_id: self.span_id@,
            parent_span_id: match self.parent_span_id {
                Some(p) => Some(p@),
                None => None,
            },
            name: self.name@,
            kind: self.kind,
            start_time_unix_nano: self.start_time_unix_nano@,
            end_time_unix_nano: self.end_time_unix_nano@,
            attributes: pairs_of(self.attributes@),
            status_code: self.status_code,
        }
    }
}

/// The OTLP status code of an outcome.
pub open spec fn status_code_of(o: Outcome) -> u8 {
    match o {
        Outcome::Unset => 0u8,
        Outcome::Success => 1u8,
        Outcome::Error => 2u8,
    }
}

/// The encoding of a span within the trace `trace_id`.
pub open spec fn span_record(trace_id: Seq<char>, s: Span) -> OtlpSpanV {
    OtlpSpanV {
        trace_id,
        span_id: hex_padded(s.span_id.counter() as nat, 16),
        parent_span_id: match s.parent_span_id {
            Some(p) => Some(hex_padded(p.counter() as nat, 16)),
            None => None,
        },
        name: s.name@,
        kind: 1,
        start_time_unix_nano: decimal(s.start.nanos() as nat),
        end_time_unix_nano: decimal(s.end.nanos() as nat),
        attributes: s.attributes@,
        status_code: status_code_of(s.outcome),
    }
}

/// Encodes one span.
pub fn encode_span(trace_id: &str, span: &Span) -> (r: OtlpSpan)
    ensures
        r@ == span_record(trace_id@, *span),
{
    OtlpSpan {
        trace_id: owned(trace_id),
        span_id: span.span_id.to_hex(),
        parent_span_id: match span.parent_span_id {
            Some(p) => Some(p.to_hex()),
            None => None,
        },
        name: owned(span.name.as_str()),
        kind: 1,
        start_time_unix_nano: decimal_string(span.start.as_nanos()),
        end_time_unix_nano: decimal_string(span.end.as_nanos()),
        attributes: attributes(&span.attributes),
        status_code: span.outcome.otlp_code(),
    }
}

/// One event as an OTLP log record.
#[derive(Clone, Debug, PartialEq, Eq)]
pub struct OtlpLogRecord {
    pub time_unix_nano: String,
    pub severity_number: u8,
    pub severity_text: String,
    /// The message, carried as the record's string body.
    pub body: String,
    pub trace_id: String,
    pub span_id: Option<String>,
    pub attributes: Vec<KeyValue>,
}

/// The model of an [`OtlpLogRecord`].
pub struct OtlpLogRecordV {
    pub time_unix_nano: Seq<char>,
    pub severity_number: u8,
    pub severity_text: Seq<char>,
    pub body: Seq<char>,
    pub trace_id: Seq<char>,
    pub span_id: Option<Seq<char>>,
    pub attributes: Seq<(Seq<char>, Seq<char>)>,
}

impl View for OtlpLogRecord {
    type V = OtlpLogRecordV;

    open spec fn view(&self) -> OtlpLogRecordV {
        OtlpLogRecordV {
            time_unix_nano: self.time_unix_nano@,
            severity_number: self.severity_number,
            severity_text: self.severity_text@,
            body: self.body@,
            trace_id: self.trace_id@,
            span_id: match self.span_id {
                Some(s) => Some(s@),
                None => None,
            },
            attributes: pairs_of(self.attributes@),
        }
    }
}

/// The OTLP severity number of an event severity.
pub open spec fn severity_number_of(s: Severity) -> u8 {
    match s {
        Severity::Debug => 5u8,
        Severity::Info => 9u8,
        Severity::Warn => 13u8,
        Severity::Error => 17u8,
    }
}

/// The OTLP severity text of an event severity.
pub open spec fn severity_text_of(s: Severity) -> Seq<char> {
    match s {
        Severity::Debug => "DEBUG"@,
        Severity::Info => "INFO"@,
        Severity::Warn => "WARN"@,
        Severity::Error => "ERROR"@,
    }
}

/// The encoding of an event within the trace `trace_id`.
pub open spec fn event_record(trace_id: Seq<char>, e: Event) -> OtlpLogRecordV {
    OtlpLogRecordV {
        time_unix_nano: decimal(e.at.nanos() as nat),
        severity_number: severity_number_of(e.severity),
        severity_text: severity_text_of(e.severity),
        body: e.message@,
        trace_id,
        span_id: match e.span_id {
            Some(p) => Some(hex_padded(p.counter() as nat, 16)),
            None => None,
        },
        attributes: e.attributes@,
    }
}

/// Encodes one event as a log record.
pub fn encode_event(trace_id: &str, event: &Event) -> (r: OtlpLogRecord)
    ensures
        r@ == event_record(trace_id@, *event),
{
    OtlpLogRecord {
        time_unix_nano: decimal_string(event.at.as_nanos()),
        severity_number: event.severity.otlp_number(),
        severity_text: owned(event.severity.otlp_text()),
        body: owned(event.message.as_str()),
        trace_id: owned(trace_id),
        span_id: match event.span_id {
            Some(p) => Some(p.to_hex()),
            None => None,
        },
        attributes: attributes(&event.attributes),
    }
}

/// The spans and log records of a run, under its one resource and one
/// scope. Metrics travel beside them; their values are floating point and
/// are encoded by the caller.
#[derive(Clone, Debug, PartialEq, Eq)]
pub struct Payload {
    /// The resource's attributes, service name and version included.
    pub resource_attributes: Vec<KeyValue>,
    /// The instrumentation scope's name.
    pub scope_name: String,
    /// The instrumentation scope's version: the service version.
    pub scope_version: String,
    /// Every completed span, in completion order.
    pub spans: Vec<OtlpSpan>,
    /// Every event, in recording order.
    pub log_records: Vec<OtlpLogRecord>,
}

/// The model of a [`Payload`].
pub struct PayloadV {
    pub resource_attributes: Seq<(Seq<char>, Seq<char>)>,
    pub scope_name: Seq<char>,
    pub scope_version: Seq<char>,
    pub spans: Seq<OtlpSpanV>,
    pub log_records: Seq<OtlpLogRecordV>,
}

impl View for Payload {
    type V = PayloadV;

    open spec fn view(&self) -> PayloadV {
        PayloadV {
            resource_attributes: pairs_of(self.resource_attributes@),
            scope_name: self.scope_name@,
            scope_version: self.scope_version@,
            spans: self.spans@.map_values(|s: OtlpSpan| s@),
            log_records: self.log_records@.map_values(|l: OtlpLogRecord| l@),
        }
    }
}

impl Payload {
    /// Encodes the spans and events a recorder holds.
    pub fn of(recorder: &Recorder) -> (p: Self)
        ensures
            p@.resource_attributes == resource_pairs(recorder@.resource),
            p@.scope_name == SCOPE_NAME@,
            p@.scope_version == recorder@.resource.service_version@,
            p@.spans == recorder@.spans.map_values(|s: Span| span_record(recorder@.trace_id, s)),
            p@.log_records == recorder@.events.map_values(|e: Event| event_record(recorder@.trace_id, e)),
    {
        let resource = recorder.resource();
        let trace_id = recorder.trace_id();
        let source_spans = recorder.spans();
        let ghost rs = recorder@.spans;
        let mut spans: Vec<OtlpSpan> = Vec::new();
        let mut i: usize = 0;
        while i < source_spans.len()
            invariant
                i <= source_spans@.len(),
                source_spans@ == rs,
                trace_id@ == recorder@.trace_id,
                spans@.map_values(|s: OtlpSpan| s@) == rs.take(i as int).map_values(
                    |s: Span| span_record(recorder@.trace_id, s),
                ),
            decreases source_spans@.len() - i,
        {
            let ghost before = spans@.map_values(|s: OtlpSpan| s@);
            spans.push(encode_span(trace_id, &source_spans[i]));
            assert(spans@.map_values(|s: OtlpSpan| s@) =~= before.push(span_record(recorder@.trace_id, rs[i as int])));
            assert(rs.take(i + 1).map_values(|s: Span| span_record(recorder@.trace_id, s)) =~= rs.take(i as int).map_values(
                |s: Span| span_record(recorder@.trace_id, s),
            ).push(span_record(recorder@.trace_id, rs[i as int])));
            i = i + 1;
        }
        assert(rs.take(i as int) =~= rs);
        let source_events = recorder.events();
        let ghost es = recorder@.events;
        let mut log_records: Vec<OtlpLogRecord> = Vec::new();
        let mut k: usize = 0;
        while k < source_events.len()
            invariant
                k <= source_events@.len(),
                source_events@ == es,
                trace_id@ == recorder@.trace_id,
                log_records@.map_values(|l: OtlpLogRecord| l@) == es.take(k as int).map_values(
                    |e: Event| event_record(recorder@.trace_id, e),
                ),
            decreases source_events@.len() - k,
        {
            let ghost before = log_records@.map_values(|l: OtlpLogRecord| l@);
            log_records.push(encode_event(trace_id, &source_events[k]));
            assert(log_records@.map_values(|l: OtlpLogRecord| l@) =~= before.push(event_record(recorder@.trace_id, es[k as int])));
            assert(es.take(k + 1).map_values(|e: Event| event_record(recorder@.trace_id, e)) =~= es.take(k as int).map_values(
                |e: Event| event_record(recorder@.trace_id, e),
            ).push(event_record(recorder@.trace_id, es[k as int])));
            k = k + 1;
        }
        assert(es.take(k as int) =~= es);
        Payload {
            resource_attributes: resource_attributes(resource),
            scope_name: owned(SCOPE_NAME),
            scope_version: owned(resource.service_version.as_str()),
            spans,
            log_records,
        }
    }
}

} // verus!
