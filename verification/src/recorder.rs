//! Collecting spans, events and metric series under a hard memory bound.
//!
//! Each kind of record has a fixed ceiling; past it, new records are dropped
//! and counted, so a reader can tell "nothing happened" from "the ceiling was
//! hit and this is a prefix". [`Recorder::start`] hands out an [`OpenSpan`]
//! and [`Recorder::finish`] closes it, so nothing holds the recorder for the
//! length of a span.
//!
//! The recorder keeps the identity and observation count of each metric
//! series; the floating-point aggregates that go with them are the caller's.
use vstd::prelude::*;

use vstd::arithmetic::power2::{lemma2_to64, lemma_pow2_unfold, pow2};

use crate::chars::{chars_of, concat_strs, joined, owned, str_eq};
use crate::clock::{sat_add_u64, Clock, Timestamp};
use crate::fmt::{hex16, hex_padded};
use crate::seqs::first_match;
use crate::record::{Attributes, Event, MetricKind, Outcome, Resource, Severity, Span, SpanId};

verus! {

/// How many records of each kind the recorder will retain.
#[derive(Clone, Copy, Debug, PartialEq, Eq, Structural)]
pub struct Limits {
    /// The most spans to keep.
    pub max_spans: usize,
    /// The most events to keep.
    pub max_events: usize,
    /// The most distinct metric series to keep.
    pub max_metrics: usize,
}

impl Default for Limits {
    /// Generous for one command invocation, still a firm ceiling.
    fn default() -> (l: Self)
        ensures
            l == (Limits { max_spans: 4_096, max_events: 4_096, max_metrics: 256 }),
    {
        Limits { max_spans: 4_096, max_events: 4_096, max_metrics: 256 }
    }
}

/// How many records were discarded because a ceiling was reached.
#[derive(Clone, Copy, Debug, PartialEq, Eq, Structural)]
pub struct Dropped {
    /// Spans discarded.
    pub spans: usize,
    /// Events discarded.
    pub events: usize,
    /// Metric series discarded.
    pub metrics: usize,
}

impl Default for Dropped {
    fn default() -> (d: Self)
        ensures
            d == (Dropped { spans: 0, events: 0, metrics: 0 }),
    {
        Dropped { spans: 0, events: 0, metrics: 0 }
    }
}

/// `a + b`, saturating at `usize::MAX`.
pub open spec fn sat_add(a: usize, b: usize) -> usize {
    if a + b > usize::MAX {
        usize::MAX
    } else {
        (a + b) as usize
    }
}

impl Dropped {
    /// Whether nothing was discarded.
    pub fn is_none(&self) -> (b: bool)
        ensures
            b == (self.spans == 0 && self.events == 0 && self.metrics == 0),
    {
        self.spans == 0 && self.events == 0 && self.metrics == 0
    }

    /// The total number of records discarded, saturating.
    pub fn total(&self) -> (n: usize)
        ensures
            n == sat_add(sat_add(self.spans, self.events), self.metrics),
    {
        self.spans.saturating_add(self.events).saturating_add(self.metrics)
    }
}

/// A span that has started and not yet finished. Not `Copy`: finishing the
/// same span twice would record it twice.
#[derive(Clone, Debug, PartialEq, Eq)]
pub struct OpenSpan {
    name: String,
    span_id: SpanId,
    parent_span_id: Option<SpanId>,
    start: Timestamp,
    attributes: Attributes,
}

/// The model of an [`OpenSpan`].
pub struct OpenSpanV {
    pub name: Seq<char>,
    pub span_id: SpanId,
    pub parent_span_id: Option<SpanId>,
    pub start: Timestamp,
    pub attributes: Seq<(Seq<char>, Seq<char>)>,
}

impl View for OpenSpan {
    type V = OpenSpanV;

    closed spec fn view(&self) -> OpenSpanV {
        OpenSpanV {
            name: self.name@,
            span_id: self.span_id,
            parent_span_id: self.parent_span_id,
            start: self.start,
            attributes: self.attributes@,
        }
    }
}

impl OpenSpan {
    /// The span's identifier, for correlating events recorded inside it.
    pub fn span_id(&self) -> (id: SpanId)
        ensures
            id == self@.span_id,
    {
        self.span_id
    }

    /// The span this one was opened inside, if any.
    pub fn parent_span_id(&self) -> (id: Option<SpanId>)
        ensures
            id == self@.parent_span_id,
    {
        self.parent_span_id
    }

    /// Attaches an attribute, consuming and returning the handle.
    pub fn with_attribute(self, key: &str, value: &str) -> (s: Self)
        ensures
            s@ == (OpenSpanV {
                attributes: crate::record::with_entry(self@.attributes, key@, value@),
                ..self@
            }),
    {
        let mut s = self;
        s.attributes.insert(key, value);
        s
    }
}

/// The identity of a metric series and how many observations it has folded
/// in; the aggregated values themselves are floating-point and kept by the
/// caller.
#[derive(Clone, Debug, PartialEq, Eq)]
pub struct MetricSeries {
    /// The series name, such as `casm.validation.duration`.
    pub name: String,
    /// Counter or histogram.
    pub kind: MetricKind,
    /// The unit, in UCUM notation: `ns`, `1`, `By`.
    pub unit: String,
    /// How many observations were folded in, saturating.
    pub count: u64,
}

/// The model of a [`MetricSeries`].
pub struct SeriesV {
    pub name: Seq<char>,
    pub kind: MetricKind,
    pub unit: Seq<char>,
    pub count: u64,
}

impl View for MetricSeries {
    type V = SeriesV;

    open spec fn view(&self) -> SeriesV {
        SeriesV { name: self.name@, kind: self.kind, unit: self.unit@, count: self.count }
    }
}

/// The bits of `x`'s low `k` bits pushed onto `acc` from the least
/// significant end: with `k` 64 and `acc` 0, `x` with its bit order reversed.
pub open spec fn reversed_into(x: nat, k: nat, acc: nat) -> nat
    decreases k,
{
    if k == 0 {
        acc
    } else {
        reversed_into(x / 2, (k - 1) as nat, 2 * acc + x % 2)
    }
}

/// `x` with the order of its 64 bits reversed.
pub open spec fn reversed_bits(x: u64) -> nat {
    reversed_into(x as nat, 64, 0)
}

/// Bounds the accumulator of a bit reversal.
proof fn lemma_reversed_into_bound(x: nat, k: nat, acc: nat, done: nat)
    requires
        acc < pow2(done),
    ensures
        reversed_into(x, k, acc) < pow2(done + k),
    decreases k,
{
    if k > 0 {
        lemma_pow2_unfold(done + 1);
        lemma_reversed_into_bound(x / 2, (k - 1) as nat, 2 * acc + x % 2, done + 1);
    }
}

/// `x` with its bit order reversed: the least significant bit becomes the
/// most significant.
pub fn reverse_bits(x: u64) -> (r: u64)
    ensures
        r == reversed_bits(x),
{
    let mut rest: u64 = x;
    let mut acc: u64 = 0;
    let mut i: u64 = 0;
    proof {
        lemma2_to64();
        lemma_reversed_into_bound(x as nat, 64, 0, 0);
    }
    while i < 64
        invariant
            i <= 64,
            acc < pow2(i as nat),
            pow2(64) == 0x1_0000_0000_0000_0000,
            reversed_into(x as nat, 64, 0) == reversed_into(rest as nat, (64 - i) as nat, acc as nat),
        decreases 64 - i,
    {
        proof {
            lemma_pow2_unfold((i + 1) as nat);
            if i + 1 < 64 {
                vstd::arithmetic::power2::lemma_pow2_strictly_increases((i + 1) as nat, 64);
            }
            if i + 1 == 64 {
                assert(pow2((i + 1) as nat) == pow2(64));
            }
        }
        acc = 2 * acc + rest % 2;
        rest = rest / 2;
        i = i + 1;
    }
    acc
}

/// The trace identifier derived from a seed: the seed and its bit-reversal,
/// each as sixteen hexadecimal digits.
pub open spec fn trace_text(seed: u64) -> Seq<char> {
    hex_padded(seed as nat, 16) + hex_padded(reversed_bits(seed), 16)
}

/// Derives a 32-character trace identifier from a seed. Not random: one run's
/// records share it, and the reversed low half keeps two hosts seeded in the
/// same nanosecond apart across the full width.
pub fn trace_id_from(seed: u64) -> (s: String)
    ensures
        s@ == trace_text(seed),
{
    let high = hex16(seed);
    let low = hex16(reverse_bits(seed));
    let s = concat_strs(&[high.as_str(), low.as_str()]);
    proof {
        reveal_with_fuel(joined, 3);
    }
    s
}

/// Whether `c` is an ASCII hexadecimal digit.
pub open spec fn is_hex_digit(c: char) -> bool {
    ('0' <= c <= '9') || ('a' <= c <= 'f') || ('A' <= c <= 'F')
}

/// Whether `s` has the shape of a trace identifier: 32 hexadecimal digits.
pub open spec fn is_trace_id(s: Seq<char>) -> bool {
    s.len() == 32 && forall|i: int| 0 <= i < s.len() ==> is_hex_digit(#[trigger] s[i])
}

/// `open` without the last occurrence of `id`, if there is one.
pub open spec fn without_last(open: Seq<SpanId>, id: SpanId) -> Seq<SpanId>
    decreases open.len(),
{
    if open.len() == 0 {
        open
    } else if open.last() == id {
        open.drop_last()
    } else {
        without_last(open.drop_last(), id).push(open.last())
    }
}

/// The innermost open span, if any.
pub open spec fn innermost(open: Seq<SpanId>) -> Option<SpanId> {
    if open.len() == 0 {
        None
    } else {
        Some(open.last())
    }
}

/// The model of a [`Recorder`].
pub struct RecorderV {
    pub resource: Resource,
    pub trace_id: Seq<char>,
    pub clock: Clock,
    pub limits: Limits,
    pub spans: Seq<Span>,
    pub events: Seq<Event>,
    pub series: Seq<SeriesV>,
    pub dropped: Dropped,
    pub next_span: u64,
    pub open: Seq<SpanId>,
}

/// The clock after one reading.
pub open spec fn advanced(clock: Clock) -> Clock {
    match clock {
        Clock::System => Clock::System,
        Clock::Stepping { next, step } => Clock::Stepping { next: sat_add_u64(next, step), step },
    }
}

/// Whether `nanos` is a reading `clock` can give: any value for the system
/// clock, the next value of a stepping one.
pub open spec fn reading_of(clock: Clock, nanos: u64) -> bool {
    match clock {
        Clock::System => true,
        Clock::Stepping { next, .. } => nanos == next,
    }
}

/// Collects telemetry for one run of one process.
#[derive(Clone, Debug)]
pub struct Recorder {
    resource: Resource,
    trace_id: String,
    clock: Clock,
    limits: Limits,
    spans: Vec<Span>,
    events: Vec<Event>,
    series: Vec<MetricSeries>,
    dropped: Dropped,
    next_span: u64,
    open: Vec<SpanId>,
}

impl View for Recorder {
    type V = RecorderV;

    closed spec fn view(&self) -> RecorderV {
        RecorderV {
            resource: self.resource,
            trace_id: self.trace_id@,
            clock: self.clock,
            limits: self.limits,
            spans: self.spans@,
            events: self.events@,
            series: self.series@.map_values(|m: MetricSeries| m@),
            dropped: self.dropped,
            next_span: self.next_span,
            open: self.open@,
        }
    }
}

impl Recorder {
    /// A recorder for `resource`, with default limits and the system clock.
    pub fn new(resource: Resource) -> (r: Self)
        ensures
            r@.resource == resource,
            r@.clock == Clock::System,
            exists|seed: u64| r@.trace_id == trace_text(seed),
            r@.limits == (Limits { max_spans: 4_096, max_events: 4_096, max_metrics: 256 }),
            r@.spans.len() == 0,
            r@.events.len() == 0,
            r@.series.len() == 0,
            r@.dropped == (Dropped { spans: 0, events: 0, metrics: 0 }),
            r@.next_span == 1,
            r@.open.len() == 0,
    {
        Recorder::with_clock(resource, Clock::System)
    }

    /// A recorder reading `clock`, which a test can make deterministic. The
    /// trace identifier is derived from the clock's first reading.
    pub fn with_clock(resource: Resource, clock: Clock) -> (r: Self)
        ensures
            r@.resource == resource,
            r@.clock == advanced(clock),
            exists|seed: u64| r@.trace_id == trace_text(seed) && reading_of(clock, seed),
            r@.limits == (Limits { max_spans: 4_096, max_events: 4_096, max_metrics: 256 }),
            r@.spans.len() == 0,
            r@.events.len() == 0,
            r@.series.len() == 0,
            r@.dropped == (Dropped { spans: 0, events: 0, metrics: 0 }),
            r@.next_span == 1,
            r@.open.len() == 0,
    {
        let mut reader = clock;
        let first = reader.now();
        let seed = first.as_nanos();
        let r = Recorder {
            resource,
            trace_id: trace_id_from(seed),
            clock: reader,
            limits: Limits::default(),
            spans: Vec::new(),
            events: Vec::new(),
            series: Vec::new(),
            dropped: Dropped::default(),
            next_span: 1,
            open: Vec::new(),
        };
        assert(r@.trace_id == trace_text(seed) && reading_of(clock, seed));
        r
    }

    /// Replaces the retention limits.
    pub fn with_limits(self, limits: Limits) -> (r: Self)
        ensures
            r@ == (RecorderV { limits, ..self@ }),
    {
        let mut r = self;
        r.limits = limits;
        r
    }

    /// Replaces the trace identifier with `trace_id` when it is 32
    /// hexadecimal digits; one of any other shape is refused, because
    /// collectors silently drop a malformed trace id.
    pub fn with_trace_id(self, trace_id: &str) -> (r: Self)
        ensures
            r@ == if is_trace_id(trace_id@) {
                RecorderV { trace_id: trace_id@, ..self@ }
            } else {
                self@
            },
    {
        let cs = chars_of(trace_id);
        let mut ok = cs.len() == 32;
        let mut i: usize = 0;
        while ok && i < cs.len()
            invariant
                i <= cs.len(),
                cs@ == trace_id@,
                ok ==> cs.len() == 32,
                ok ==> forall|j: int| 0 <= j < i ==> is_hex_digit(#[trigger] cs@[j]),
                !ok ==> !is_trace_id(trace_id@),
            decreases cs.len() - i,
        {
            let c = cs[i];
            if !(('0' <= c && c <= '9') || ('a' <= c && c <= 'f') || ('A' <= c && c <= 'F')) {
                ok = false;
            }
            i = i + 1;
        }
        let mut r = self;
        if ok {
            r.trace_id = owned(trace_id);
        }
        r
    }

    /// What produced this telemetry.
    pub fn resource(&self) -> (r: &Resource)
        ensures
            *r == self@.resource,
    {
        &self.resource
    }

    /// The trace identifier every record in this run shares.
    pub fn trace_id(&self) -> (t: &str)
        ensures
            t@ == self@.trace_id,
    {
        self.trace_id.as_str()
    }

    /// Every retained span, in completion order.
    pub fn spans(&self) -> (r: &[Span])
        ensures
            r@ == self@.spans,
    {
        self.spans.as_slice()
    }

    /// Every retained event, in occurrence order.
    pub fn events(&self) -> (r: &[Event])
        ensures
            r@ == self@.events,
    {
        self.events.as_slice()
    }

    /// Every retained metric series, in creation order.
    pub fn series(&self) -> (r: &[MetricSeries])
        ensures
            r@.map_values(|m: MetricSeries| m@) == self@.series,
    {
        self.series.as_slice()
    }

    /// How many records were discarded for want of room.
    pub fn dropped(&self) -> (d: Dropped)
        ensures
            d == self@.dropped,
    {
        self.dropped
    }

    /// The innermost open span.
    fn innermost_open(&self) -> (r: Option<SpanId>)
        ensures
            r == innermost(self@.open),
    {
        if self.open.len() == 0 {
            None
        } else {
            Some(self.open[self.open.len() - 1])
        }
    }

    /// Starts an operation, returning a handle to finish it with. Its parent
    /// is the innermost span already open, which makes nesting automatic.
    pub fn start(&mut self, name: &str) -> (s: OpenSpan)
        ensures
            span_started(old(self)@, final(self)@, s@, name@),
    {
        let span_id = SpanId::from_counter(self.next_span);
        self.next_span = self.next_span.saturating_add(1);
        let parent_span_id = self.innermost_open();
        self.open.push(span_id);
        let start = self.clock.now();
        OpenSpan { name: owned(name), span_id, parent_span_id, start, attributes: Attributes::new() }
    }

    /// Forgets the last occurrence of `id` among the open spans.
    fn close(&mut self, id: SpanId)
        ensures
            final(self)@ == (RecorderV { open: without_last(old(self)@.open, id), ..old(self)@ }),
    {
        let ghost before = self.open@;
        let mut i = self.open.len();
        assert(before.take(i as int) =~= before);
        assert(before.skip(i as int) =~= Seq::<SpanId>::empty());
        assert(without_last(before, id) + Seq::<SpanId>::empty() =~= without_last(before, id));
        while i > 0
            invariant
                i <= self.open.len(),
                self.open@ == before,
                without_last(before, id) == without_last(before.take(i as int), id) + before.skip(
                    i as int,
                ),
                forall|j: int| i <= j < before.len() ==> before[j] != id,
            ensures
                i <= self.open.len(),
                self.open@ == before,
                without_last(before, id) == without_last(before.take(i as int), id) + before.skip(
                    i as int,
                ),
                i > 0 ==> before[i - 1] == id,
                i == 0 ==> forall|j: int| 0 <= j < before.len() ==> before[j] != id,
            decreases i,
        {
            if self.open[i - 1] == id {
                break;
            }
            proof {
                let t = before.take(i as int);
                assert(t.drop_last() =~= before.take(i - 1));
                assert(before.skip(i - 1) =~= seq![before[i - 1]] + before.skip(i as int));
                assert(without_last(before.take(i - 1), id).push(before[i - 1]) + before.skip(
                    i as int,
                ) =~= without_last(before.take(i - 1), id) + before.skip(i - 1));
            }
            i = i - 1;
        }
        if i > 0 {
            self.open.remove(i - 1);
            proof {
                let t = before.take(i as int);
                assert(t.drop_last() =~= before.take(i - 1));
                assert(self.open@ =~= before.take(i - 1) + before.skip(i as int));
            }
        } else {
            proof {
                assert(before.take(0) =~= Seq::<SpanId>::empty());
                assert(before.skip(0) =~= before);
            }
        }
    }

    /// Finishes an operation and records it, unless the span ceiling has been
    /// reached, in which case it is counted as dropped. A span finished out of
    /// order is still recorded, with the parent it was opened under.
    pub fn finish(&mut self, span: OpenSpan, outcome: Outcome)
        ensures
            span_finished(old(self)@, final(self)@, span@, outcome),
    {
        let end = self.clock.now();
        self.close(span.span_id);
        if self.spans.len() >= self.limits.max_spans {
            self.dropped.spans = self.dropped.spans.saturating_add(1);
            return;
        }
        let ghost before = self@.spans;
        let OpenSpan { name, span_id, parent_span_id, start, attributes } = span;
        self.spans.push(Span { name, span_id, parent_span_id, start, end, outcome, attributes });
        assert(self@.spans.drop_last() =~= before);
    }

    /// Records an event at the current time, inside whatever span is open.
    pub fn event(&mut self, severity: Severity, message: &str)
        ensures
            event_recorded(old(self)@, final(self)@, severity, message@, Seq::empty()),
    {
        self.event_with(severity, message, Attributes::new());
    }

    /// Records an event carrying attributes, unless the event ceiling has
    /// been reached, in which case it is counted as dropped.
    pub fn event_with(&mut self, severity: Severity, message: &str, attributes: Attributes)
        ensures
            event_recorded(old(self)@, final(self)@, severity, message@, attributes@),
    {
        let at = self.clock.now();
        if self.events.len() >= self.limits.max_events {
            self.dropped.events = self.dropped.events.saturating_add(1);
            return;
        }
        let span_id = self.innermost_open();
        let ghost before = self@.events;
        self.events.push(Event { at, severity, message: owned(message), span_id, attributes });
        assert(self@.events.drop_last() =~= before);
    }

    /// Folds one observation into the series called `name`, creating it when
    /// absent; returns the series' position, or `None` when the series
    /// ceiling left no room and the observation was counted as dropped.
    pub fn observe_series(&mut self, name: &str, kind: MetricKind, unit: &str) -> (r: Option<usize>)
        ensures
            series_observed(old(self)@, final(self)@, name@, kind, unit@, r),
    {
        let ghost before = self@.series;
        let mut i: usize = 0;
        while i < self.series.len()
            invariant
                i <= self.series.len(),
                before == self@.series,
                forall|j: int| 0 <= j < i ==> before[j].name != name@,
            ensures
                i <= self.series.len(),
                forall|j: int| 0 <= j < i ==> before[j].name != name@,
                i < self.series.len() ==> before[i as int].name == name@,
            decreases self.series.len() - i,
        {
            assert(before[i as int] == self.series@[i as int]@);
            if str_eq(self.series[i].name.as_str(), name) {
                break;
            }
            i = i + 1;
        }
        proof {
            crate::seqs::lemma_first_match_is(before, named_series(name@), i as int);
        }
        if i < self.series.len() {
            let mut series = Vec::new();
            std::mem::swap(&mut series, &mut self.series);
            let mut entry = series.remove(i);
            entry.count = entry.count.saturating_add(1);
            series.insert(i, entry);
            self.series = series;
            assert(self@.series =~= before.update(
                i as int,
                SeriesV { count: sat_add_u64(before[i as int].count, 1), ..before[i as int] },
            ));
            return Some(i);
        }
        if self.series.len() >= self.limits.max_metrics {
            self.dropped.metrics = self.dropped.metrics.saturating_add(1);
            return None;
        }
        let position = self.series.len();
        self.series.push(MetricSeries { name: owned(name), kind, unit: owned(unit), count: 1 });
        assert(self@.series =~= before.push(SeriesV { name: name@, kind, unit: unit@, count: 1 }));
        Some(position)
    }
}

/// Series called `name`.
pub open spec fn named_series(name: Seq<char>) -> spec_fn(SeriesV) -> bool {
    |m: SeriesV| m.name == name
}

/// The recorder after an event: appended, correlated with the innermost open
/// span, or counted as dropped past the ceiling; the clock read once.
pub open spec fn event_recorded(
    old: RecorderV,
    new: RecorderV,
    severity: Severity,
    message: Seq<char>,
    attributes: Seq<(Seq<char>, Seq<char>)>,
) -> bool {
    &&& new.clock == advanced(old.clock)
    &&& if old.events.len() >= old.limits.max_events {
        &&& new.events == old.events
        &&& new.dropped == (Dropped { events: sat_add(old.dropped.events, 1), ..old.dropped })
    } else {
        &&& new.dropped == old.dropped
        &&& new.events.len() == old.events.len() + 1
        &&& new.events.drop_last() == old.events
        &&& new.events.last().severity == severity
        &&& new.events.last().message@ == message
        &&& new.events.last().span_id == innermost(old.open)
        &&& new.events.last().attributes@ == attributes
        &&& reading_of(old.clock, new.events.last().at.nanos())
    }
    &&& new.resource == old.resource
    &&& new.trace_id == old.trace_id
    &&& new.limits == old.limits
    &&& new.spans == old.spans
    &&& new.series == old.series
    &&& new.next_span == old.next_span
    &&& new.open == old.open
}

/// The recorder after one observation into the series called `name`: an
/// existing series counts it, a new series is created with one observation
/// while there is room, and past the ceiling it is counted as dropped.
pub open spec fn series_observed(
    old: RecorderV,
    new: RecorderV,
    name: Seq<char>,
    kind: MetricKind,
    unit: Seq<char>,
    r: Option<usize>,
) -> bool {
    let k = crate::seqs::first_match(old.series, named_series(name));
    &&& if k < old.series.len() {
        &&& r == Some(k as usize)
        &&& new.series == old.series.update(
            k,
            SeriesV { count: sat_add_u64(old.series[k].count, 1), ..old.series[k] },
        )
        &&& new.dropped == old.dropped
    } else if old.series.len() >= old.limits.max_metrics {
        &&& r is None
        &&& new.series == old.series
        &&& new.dropped == (Dropped { metrics: sat_add(old.dropped.metrics, 1), ..old.dropped })
    } else {
        &&& r == Some(old.series.len() as usize)
        &&& new.series == old.series.push(SeriesV { name, kind, unit, count: 1 })
        &&& new.dropped == old.dropped
    }
    &&& new.resource == old.resource
    &&& new.trace_id == old.trace_id
    &&& new.clock == old.clock
    &&& new.limits == old.limits
    &&& new.spans == old.spans
    &&& new.events == old.events
    &&& new.next_span == old.next_span
    &&& new.open == old.open
}

/// The recorder after starting a span called `name`: the span takes the next
/// identifier, its parent is the innermost open span, and it becomes the
/// innermost open span itself.
pub open spec fn span_started(old: RecorderV, new: RecorderV, s: OpenSpanV, name: Seq<char>) -> bool {
    &&& s.name == name
    &&& s.span_id.counter() == old.next_span
    &&& s.parent_span_id == innermost(old.open)
    &&& reading_of(old.clock, s.start.nanos())
    &&& s.attributes.len() == 0
    &&& new == RecorderV {
        next_span: sat_add_u64(old.next_span, 1),
        open: old.open.push(s.span_id),
        clock: advanced(old.clock),
        ..old
    }
}

/// The recorder after finishing span `s`: no longer open, and either recorded
/// with its end time and outcome or, past the ceiling, counted as dropped.
pub open spec fn span_finished(old: RecorderV, new: RecorderV, s: OpenSpanV, outcome: Outcome) -> bool {
    &&& new.open == without_last(old.open, s.span_id)
    &&& new.clock == advanced(old.clock)
    &&& if old.spans.len() >= old.limits.max_spans {
        &&& new.spans == old.spans
        &&& new.dropped == (Dropped { spans: sat_add(old.dropped.spans, 1), ..old.dropped })
    } else {
        &&& new.dropped == old.dropped
        &&& new.spans.len() == old.spans.len() + 1
        &&& new.spans.drop_last() == old.spans
        &&& new.spans.last().name@ == s.name
        &&& new.spans.last().span_id == s.span_id
        &&& new.spans.last().parent_span_id == s.parent_span_id
        &&& new.spans.last().start == s.start
        &&& reading_of(old.clock, new.spans.last().end.nanos())
        &&& new.spans.last().outcome == outcome
        &&& new.spans.last().attributes@ == s.attributes
    }
    &&& new.resource == old.resource
    &&& new.trace_id == old.trace_id
    &&& new.limits == old.limits
    &&& new.events == old.events
    &&& new.series == old.series
    &&& new.next_span == old.next_span
}

/// A span started while another is open names it as its parent, and two
/// starts hand out distinct identifiers until the counter saturates.
pub proof fn law_nested_starts(
    r0: RecorderV,
    r1: RecorderV,
    r2: RecorderV,
    outer: OpenSpanV,
    inner: OpenSpanV,
    outer_name: Seq<char>,
    inner_name: Seq<char>,
)
    requires
        span_started(r0, r1, outer, outer_name),
        span_started(r1, r2, inner, inner_name),
    ensures
        inner.parent_span_id == Some(outer.span_id),
        r0.next_span < u64::MAX ==> inner.span_id != outer.span_id,
{
    if r0.next_span < u64::MAX {
        crate::record::lemma_span_id_counter_injective(inner.span_id, outer.span_id);
    }
}

/// Finishing the span most recently started restores the open spans to what
/// they were before it started, so a later sibling gets the same parent.
pub proof fn law_start_then_finish_restores_nesting(
    r0: RecorderV,
    r1: RecorderV,
    r2: RecorderV,
    s: OpenSpanV,
    name: Seq<char>,
    outcome: Outcome,
)
    requires
        span_started(r0, r1, s, name),
        span_finished(r1, r2, s, outcome),
    ensures
        r2.open == r0.open,
{
    assert(r1.open.drop_last() =~= r0.open);
}

/// Every finished span is either retained or counted as dropped, and the
/// number retained never grows past the ceiling.
pub proof fn law_finished_spans_are_kept_or_counted(
    old: RecorderV,
    new: RecorderV,
    s: OpenSpanV,
    outcome: Outcome,
)
    requires
        span_finished(old, new, s, outcome),
        old.dropped.spans < usize::MAX,
    ensures
        new.spans.len() + new.dropped.spans == old.spans.len() + old.dropped.spans + 1,
        old.spans.len() <= old.limits.max_spans ==> new.spans.len() <= new.limits.max_spans,
{
}

/// Every recorded event is either retained or counted as dropped, and the
/// number retained never grows past the ceiling.
pub proof fn law_events_are_kept_or_counted(
    old: RecorderV,
    new: RecorderV,
    severity: Severity,
    message: Seq<char>,
    attributes: Seq<(Seq<char>, Seq<char>)>,
)
    requires
        event_recorded(old, new, severity, message, attributes),
        old.dropped.events < usize::MAX,
    ensures
        new.events.len() + new.dropped.events == old.events.len() + old.dropped.events + 1,
        old.events.len() <= old.limits.max_events ==> new.events.len() <= new.limits.max_events,
{
}

/// The number of metric series never grows past the ceiling, and an
/// observation into a series that exists always lands.
pub proof fn law_series_stay_within_the_ceiling(
    old: RecorderV,
    new: RecorderV,
    name: Seq<char>,
    kind: MetricKind,
    unit: Seq<char>,
    r: Option<usize>,
)
    requires
        series_observed(old, new, name, kind, unit, r),
    ensures
        old.series.len() <= old.limits.max_metrics ==> new.series.len() <= new.limits.max_metrics,
        (exists|i: int| 0 <= i < old.series.len() && old.series[i].name == name) ==> r is Some,
{
    let p = named_series(name);
    crate::seqs::lemma_first_match(old.series, p);
    if exists|i: int| 0 <= i < old.series.len() && old.series[i].name == name {
        let i = choose|i: int| 0 <= i < old.series.len() && old.series[i].name == name;
        assert(p(old.series[i]));
    }
}

/// The histogram a finished span's duration is recorded into: named after
/// the operation, so a caller never spells the same measurement two ways.
pub open spec fn span_series_name(operation: Seq<char>) -> Seq<char> {
    "casm."@ + operation + ".duration"@
}

/// The name of the histogram recording durations of `operation`.
pub fn span_series(operation: &str) -> (s: String)
    ensures
        s@ == span_series_name(operation@),
{
    let s = concat_strs(&["casm.", operation, ".duration"]);
    proof {
        reveal_with_fuel(joined, 4);
    }
    s
}

/// Spans carrying identifier `id`.
pub open spec fn span_with_id(id: SpanId) -> spec_fn(Span) -> bool {
    |s: Span| s.span_id == id
}

/// How deep a span whose parent is `parent` sits in the trace: one level for
/// each ancestor found among `spans` by following parents, a parent that was
/// not recorded counting once, and at most `fuel` ancestors followed.
pub open spec fn parent_depth(spans: Seq<Span>, parent: Option<SpanId>, fuel: nat) -> nat
    decreases fuel,
{
    match parent {
        None => 0,
        Some(id) => if fuel == 0 {
            1
        } else {
            let k = first_match(spans, span_with_id(id));
            if k < spans.len() {
                1 + parent_depth(spans, spans[k].parent_span_id, (fuel - 1) as nat)
            } else {
                1
            }
        },
    }
}

/// How deep `span` sits in the trace recorded as `spans`: 0 for a root, one
/// more for each enclosing operation, so a summary can indent nested
/// measurements under the ones that already count them.
pub fn span_depth(spans: &[Span], span: &Span) -> (d: usize)
    requires
        spans@.len() < usize::MAX,
    ensures
        d == parent_depth(spans@, span.parent_span_id, spans@.len()),
{
    let ghost want = parent_depth(spans@, span.parent_span_id, spans@.len());
    let mut depth: usize = 0;
    let mut parent = span.parent_span_id;
    let mut fuel: usize = spans.len();
    loop
        invariant
            fuel <= spans@.len(),
            depth + fuel == spans@.len(),
            spans@.len() < usize::MAX,
            want == depth + parent_depth(spans@, parent, fuel as nat),
            want == parent_depth(spans@, span.parent_span_id, spans@.len()),
        decreases fuel,
    {
        match parent {
            None => {
                return depth;
            },
            Some(id) => {
                if fuel == 0 {
                    return depth + 1;
                }
                let mut k: usize = 0;
                while k < spans.len() && spans[k].span_id != id
                    invariant
                        k <= spans@.len(),
                        forall|j: int| 0 <= j < k ==> !span_with_id(id)(#[trigger] spans@[j]),
                    decreases spans@.len() - k,
                {
                    k = k + 1;
                }
                proof {
                    crate::seqs::lemma_first_match_is(spans@, span_with_id(id), k as int);
                }
                if k == spans.len() {
                    return depth + 1;
                }
                parent = spans[k].parent_span_id;
                depth = depth + 1;
                fuel = fuel - 1;
            },
        }
    }
}

} // verus!

