//! What a recorder collects: spans, events and metric series, plus what
//! produced them.
//!
//! Attribute values are strings: typed attributes would mean every call site
//! choosing a variant for a value it is about to render as text anyway.
//! Numbers that need aggregating belong in a metric.
use vstd::prelude::*;

use crate::chars::{chars_of, owned, str_eq};
use crate::clock::Timestamp;
use crate::fmt::{hex16, hex_padded};

verus! {

/// A span's identifier, held as an integer and rendered to hexadecimal only
/// on the way out.
#[derive(Clone, Copy, Debug, Default, PartialEq, Eq, Structural, PartialOrd, Ord, Hash)]
pub struct SpanId(u64);

impl SpanId {
    /// The counter value behind the identifier.
    pub closed spec fn counter(self) -> u64 {
        self.0
    }

    /// An identifier from a per-run counter.
    pub fn from_counter(counter: u64) -> (id: Self)
        ensures
            id.counter() == counter,
    {
        SpanId(counter)
    }

    /// The sixteen-character zero-padded lowercase hexadecimal form OTLP
    /// carries on the wire.
    pub fn to_hex(self) -> (s: String)
        ensures
            s@ == hex_padded(self.counter() as nat, 16),
            s@.len() == 16,
    {
        hex16(self.0)
    }
}

/// Identifiers are equal exactly when their counters are.
pub proof fn lemma_span_id_counter_injective(a: SpanId, b: SpanId)
    ensures
        a.counter() == b.counter() <==> a == b,
{
}

/// Lexicographic order on character sequences, which for strings is the order
/// of their UTF-8 bytes.
pub open spec fn key_lt(a: Seq<char>, b: Seq<char>) -> bool
    decreases a.len(),
{
    if a.len() == 0 {
        b.len() > 0
    } else if b.len() == 0 {
        false
    } else if a[0] != b[0] {
        (a[0] as int) < (b[0] as int)
    } else {
        key_lt(a.drop_first(), b.drop_first())
    }
}

/// No key sorts before itself.
pub proof fn lemma_key_lt_irreflexive(a: Seq<char>)
    ensures
        !key_lt(a, a),
    decreases a.len(),
{
    if a.len() > 0 {
        lemma_key_lt_irreflexive(a.drop_first());
    }
}

/// Of two distinct keys exactly one sorts first.
pub proof fn lemma_key_lt_total(a: Seq<char>, b: Seq<char>)
    ensures
        key_lt(a, b) ==> !key_lt(b, a),
        a != b ==> key_lt(a, b) || key_lt(b, a),
    decreases a.len(),
{
    if a.len() > 0 && b.len() > 0 && a[0] == b[0] {
        lemma_key_lt_total(a.drop_first(), b.drop_first());
        if a != b {
            assert(a.drop_first() != b.drop_first()) by {
                if a.drop_first() == b.drop_first() {
                    assert(a =~= seq![a[0]] + a.drop_first());
                    assert(b =~= seq![b[0]] + b.drop_first());
                }
            }
        }
    }
    if a.len() == 0 && b.len() == 0 {
        assert(a =~= b);
    }
}

/// The order is transitive.
pub proof fn lemma_key_lt_transitive(a: Seq<char>, b: Seq<char>, c: Seq<char>)
    requires
        key_lt(a, b),
        key_lt(b, c),
    ensures
        key_lt(a, c),
    decreases a.len(),
{
    if a.len() > 0 && b.len() > 0 && c.len() > 0 && a[0] == b[0] && b[0] == c[0] {
        lemma_key_lt_transitive(a.drop_first(), b.drop_first(), c.drop_first());
    }
}

/// `key_lt` is a strict total order.
pub proof fn lemma_key_lt_order(a: Seq<char>, b: Seq<char>, c: Seq<char>)
    ensures
        !key_lt(a, a),
        key_lt(a, b) ==> !key_lt(b, a),
        a != b ==> key_lt(a, b) || key_lt(b, a),
        key_lt(a, b) && key_lt(b, c) ==> key_lt(a, c),
{
    lemma_key_lt_irreflexive(a);
    lemma_key_lt_total(a, b);
    if key_lt(a, b) && key_lt(b, c) {
        lemma_key_lt_transitive(a, b, c);
    }
}

/// Whether `a` sorts before `b`.
pub fn key_lt_exec(a: &[char], b: &[char]) -> (r: bool)
    ensures
        r == key_lt(a@, b@),
{
    let mut i: usize = 0;
    assert(a@.skip(0) =~= a@ && b@.skip(0) =~= b@);
    while i < a.len() && i < b.len() && a[i] == b[i]
        invariant
            i <= a.len(),
            i <= b.len(),
            key_lt(a@, b@) == key_lt(a@.skip(i as int), b@.skip(i as int)),
        decreases a.len() - i,
    {
        assert(a@.skip(i as int).drop_first() =~= a@.skip(i + 1));
        assert(b@.skip(i as int).drop_first() =~= b@.skip(i + 1));
        i = i + 1;
    }
    if i == a.len() {
        i < b.len()
    } else if i == b.len() {
        false
    } else {
        a[i] < b[i]
    }
}

/// Whether the keys of `entries` strictly increase.
pub open spec fn strictly_sorted(entries: Seq<(Seq<char>, Seq<char>)>) -> bool {
    forall|i: int, j: int| 0 <= i < j < entries.len() ==> key_lt(#[trigger] entries[i].0, #[trigger] entries[j].0)
}

/// Entries whose key does not sort before `key`.
pub open spec fn not_before_pred(key: Seq<char>) -> spec_fn((Seq<char>, Seq<char>)) -> bool {
    |e: (Seq<char>, Seq<char>)| !key_lt(e.0, key)
}

/// The entries with `key` set to `value`: replaced in place when present,
/// otherwise inserted where the order puts it.
pub open spec fn with_entry(entries: Seq<(Seq<char>, Seq<char>)>, key: Seq<char>, value: Seq<char>) -> Seq<(Seq<char>, Seq<char>)> {
    let p = crate::seqs::first_match(entries, not_before_pred(key));
    if p < entries.len() && entries[p].0 == key {
        entries.update(p, (key, value))
    } else {
        entries.insert(p, (key, value))
    }
}

/// The key-value map the entries hold.
pub open spec fn entries_map(entries: Seq<(Seq<char>, Seq<char>)>) -> Map<Seq<char>, Seq<char>> {
    Map::new(
        |k: Seq<char>| exists|i: int| 0 <= i < entries.len() && entries[i].0 == k,
        |k: Seq<char>| entries[choose|i: int| 0 <= i < entries.len() && entries[i].0 == k].1,
    )
}

/// String attributes, one value per key, kept in key order.
///
/// An ordered map of text to text, held as a `Vec` of pairs whose keys
/// strictly increase (the type invariant) rather than as a `BTreeMap`: the
/// order is that of the keys' characters, which is the byte order a map of
/// `String` keys walks in, and lookups and inserts are proved over the
/// sequence, which a map keyed by text would not let the proofs reach.
#[derive(Debug, PartialEq, Eq)]
pub struct Attributes {
    entries: Vec<(String, String)>,
}

impl View for Attributes {
    type V = Seq<(Seq<char>, Seq<char>)>;

    closed spec fn view(&self) -> Seq<(Seq<char>, Seq<char>)> {
        self.entries@.map_values(|e: (String, String)| (e.0@, e.1@))
    }
}

impl Clone for Attributes {
    fn clone(&self) -> (r: Self)
        ensures
            r@ == self@,
    {
        proof {
            use_type_invariant(self);
        }
        let mut entries: Vec<(String, String)> = Vec::new();
        let mut i: usize = 0;
        while i < self.entries.len()
            invariant
                i <= self.entries.len(),
                entries@.map_values(|e: (String, String)| (e.0@, e.1@)) == self@.take(i as int),
            decreases self.entries.len() - i,
        {
            let (k, v) = &self.entries[i];
            assert(self@[i as int] == (k@, v@));
            let ghost before = entries@.map_values(|e: (String, String)| (e.0@, e.1@));
            let kc = k.clone();
            let vc = v.clone();
            entries.push((kc, vc));
            assert(entries@.map_values(|e: (String, String)| (e.0@, e.1@)) =~= before.push((k@, v@)));
            assert(entries@.map_values(|e: (String, String)| (e.0@, e.1@)) =~= self@.take(i + 1));
            i = i + 1;
        }
        assert(self@.take(i as int) =~= self@);
        Attributes { entries }
    }
}

impl Attributes {
    #[verifier::type_invariant]
    closed spec fn sorted(self) -> bool {
        strictly_sorted(self@)
    }

    /// No attributes.
    pub fn new() -> (a: Self)
        ensures
            a@ == Seq::<(Seq<char>, Seq<char>)>::empty(),
    {
        let a = Attributes { entries: Vec::new() };
        assert(a@ =~= Seq::<(Seq<char>, Seq<char>)>::empty());
        a
    }

    /// How many keys are set.
    pub fn len(&self) -> (n: usize)
        ensures
            n == self@.len(),
    {
        self.entries.len()
    }

    /// The entries, in key order.
    pub fn entries(&self) -> (r: &[(String, String)])
        ensures
            r@.map_values(|e: (String, String)| (e.0@, e.1@)) == self@,
            strictly_sorted(self@),
    {
        proof {
            use_type_invariant(self);
        }
        self.entries.as_slice()
    }

    /// The value set for `key`, if any.
    pub fn get(&self, key: &str) -> (r: Option<&str>)
        ensures
            match r {
                Some(v) => entries_map(self@).contains_key(key@) && entries_map(self@)[key@] == v@,
                None => !entries_map(self@).contains_key(key@),
            },
    {
        proof {
            use_type_invariant(self);
        }
        let ghost es = self@;
        let mut i: usize = 0;
        while i < self.entries.len()
            invariant
                i <= self.entries.len(),
                es == self@,
                es.len() == self.entries@.len(),
                strictly_sorted(es),
                forall|j: int| 0 <= j < i ==> es[j].0 != key@,
            decreases self.entries.len() - i,
        {
            assert(es[i as int] == (self.entries@[i as int].0@, self.entries@[i as int].1@));
            if str_eq(self.entries[i].0.as_str(), key) {
                proof {
                    lemma_unique_key(es, i as int);
                }
                return Some(self.entries[i].1.as_str());
            }
            i = i + 1;
        }
        None
    }

    /// Sets `key` to `value`, replacing any earlier value.
    pub fn insert(&mut self, key: &str, value: &str)
        ensures
            final(self)@ == with_entry(old(self)@, key@, value@),
    {
        proof {
            use_type_invariant(&*self);
        }
        let ghost es = self@;
        let ghost p = not_before_pred(key@);
        let k = chars_of(key);
        let mut i: usize = 0;
        while i < self.entries.len()
            invariant
                i <= self.entries.len(),
                es == self@,
                es.len() == self.entries@.len(),
                k@ == key@,
                p == not_before_pred(key@),
                forall|j: int| 0 <= j < i ==> !p(#[trigger] es[j]),
            ensures
                i <= self.entries.len(),
                forall|j: int| 0 <= j < i ==> !p(#[trigger] es[j]),
                i < self.entries.len() ==> p(es[i as int]),
            decreases self.entries.len() - i,
        {
            assert(es[i as int] == (self.entries@[i as int].0@, self.entries@[i as int].1@));
            let existing = chars_of(self.entries[i].0.as_str());
            if !key_lt_exec(existing.as_slice(), k.as_slice()) {
                break;
            }
            i = i + 1;
        }
        proof {
            crate::seqs::lemma_first_match_is(es, p, i as int);
            lemma_with_entry_sorted(es, key@, value@);
        }
        let same = i < self.entries.len() && str_eq(self.entries[i].0.as_str(), key);
        let mut entries: Vec<(String, String)> = Vec::new();
        std::mem::swap(&mut entries, &mut self.entries);
        assert(entries@.map_values(|e: (String, String)| (e.0@, e.1@)) == es);
        if same {
            entries.set(i, (owned(key), owned(value)));
            assert(entries@.map_values(|e: (String, String)| (e.0@, e.1@)) =~= es.update(
                i as int,
                (key@, value@),
            ));
        } else {
            entries.insert(i, (owned(key), owned(value)));
            assert(entries@.map_values(|e: (String, String)| (e.0@, e.1@)) =~= es.insert(
                i as int,
                (key@, value@),
            ));
        }
        self.entries = entries;
    }
}

/// In strictly sorted entries a key occurs once.
proof fn lemma_unique_key(es: Seq<(Seq<char>, Seq<char>)>, i: int)
    requires
        strictly_sorted(es),
        0 <= i < es.len(),
    ensures
        forall|j: int| 0 <= j < es.len() && j != i ==> es[j].0 != es[i].0,
{
    assert forall|j: int| 0 <= j < es.len() && j != i implies es[j].0 != es[i].0 by {
        lemma_key_lt_order(es[i].0, es[i].0, es[i].0);
        if j < i {
            assert(key_lt(es[j].0, es[i].0));
        } else {
            assert(key_lt(es[i].0, es[j].0));
        }
    }
}

/// Setting a key keeps the entries in key order.
proof fn lemma_with_entry_sorted(es: Seq<(Seq<char>, Seq<char>)>, key: Seq<char>, value: Seq<char>)
    requires
        strictly_sorted(es),
    ensures
        strictly_sorted(with_entry(es, key, value)),
{
    let pr = not_before_pred(key);
    let p = crate::seqs::first_match(es, pr);
    crate::seqs::lemma_first_match(es, pr);
    let r = with_entry(es, key, value);
    if p < es.len() && es[p].0 == key {
        assert forall|i: int, j: int| 0 <= i < j < r.len() implies key_lt(#[trigger] r[i].0, #[trigger] r[j].0) by {
            assert(r[i].0 == es[i].0 && r[j].0 == es[j].0);
        }
    } else {
        es.insert_ensures(p, (key, value));
        assert forall|i: int, j: int| 0 <= i < j < r.len() implies key_lt(#[trigger] r[i].0, #[trigger] r[j].0) by {
            if j < p {
                assert(r[i] == es[i] && r[j] == es[j]);
            } else if j == p {
                assert(r[i] == es[i]);
                assert(!pr(es[i]));
            } else if i < p {
                assert(r[i] == es[i] && r[j] == es[j - 1]);
            } else if i == p {
                assert(r[j] == es[j - 1]);
                assert(pr(es[p]));
                lemma_key_lt_order(key, es[p].0, es[j - 1].0);
                lemma_key_lt_order(es[p].0, key, key);
                if j - 1 > p {
                    assert(key_lt(es[p].0, es[j - 1].0));
                }
            } else {
                assert(r[i] == es[i - 1] && r[j] == es[j - 1]);
            }
        }
    }
}

/// Setting a key sets it in the map the entries hold and changes no other key.
pub proof fn law_attribute_insert_is_map_insert(es: Seq<(Seq<char>, Seq<char>)>, key: Seq<char>, value: Seq<char>)
    requires
        strictly_sorted(es),
    ensures
        entries_map(with_entry(es, key, value)) == entries_map(es).insert(key, value),
        strictly_sorted(with_entry(es, key, value)),
{
    lemma_with_entry_sorted(es, key, value);
    let pr = not_before_pred(key);
    let p = crate::seqs::first_match(es, pr);
    crate::seqs::lemma_first_match(es, pr);
    let r = with_entry(es, key, value);
    let m = entries_map(es).insert(key, value);
    let mr = entries_map(r);
    let replaced = p < es.len() && es[p].0 == key;
    if !replaced {
        es.insert_ensures(p, (key, value));
    }
    assert forall|k: Seq<char>| #[trigger] mr.contains_key(k) <==> m.contains_key(k) by {
        if k == key {
            assert(r[p].0 == key);
        } else {
            if m.contains_key(k) {
                let i = choose|i: int| 0 <= i < es.len() && es[i].0 == k;
                if replaced {
                    assert(r[i].0 == k);
                } else if i < p {
                    assert(r[i].0 == k);
                } else {
                    assert(r[i + 1].0 == k);
                }
            }
            if mr.contains_key(k) {
                let i = choose|i: int| 0 <= i < r.len() && r[i].0 == k;
                if replaced {
                    assert(es[i].0 == k);
                } else if i < p {
                    assert(es[i].0 == k);
                } else {
                    assert(i != p);
                    assert(es[i - 1].0 == k);
                }
            }
        }
    }
    assert forall|k: Seq<char>| mr.contains_key(k) implies #[trigger] mr[k] == m[k] by {
        let i = choose|i: int| 0 <= i < r.len() && r[i].0 == k;
        lemma_unique_key(r, i);
        if k == key {
            assert(r[p].0 == key);
            assert(i == p);
        } else {
            let j = choose|j: int| 0 <= j < es.len() && es[j].0 == k;
            lemma_unique_key(es, j);
            if replaced {
                assert(r[j].0 == k);
                assert(i == j);
            } else if j < p {
                assert(r[j].0 == k);
                assert(i == j);
            } else {
                assert(r[j + 1].0 == k);
                assert(i == j + 1);
            }
        }
    }
    assert(mr =~= m);
}

/// What produced the telemetry: the service, and its version.
#[derive(Clone, Debug, PartialEq, Eq)]
pub struct Resource {
    /// The service name, such as `casm` or `casm-lsp`.
    pub service_name: String,
    /// The service version.
    pub service_version: String,
    /// Anything else worth attaching to every record.
    pub attributes: Attributes,
}

impl Resource {
    /// A resource naming a service and its version.
    pub fn new(service_name: &str, service_version: &str) -> (r: Self)
        ensures
            r.service_name@ == service_name@,
            r.service_version@ == service_version@,
            r.attributes@ == Seq::<(Seq<char>, Seq<char>)>::empty(),
    {
        Resource {
            service_name: owned(service_name),
            service_version: owned(service_version),
            attributes: Attributes::new(),
        }
    }

    /// Attaches an attribute to every record this resource produces.
    pub fn with_attribute(self, key: &str, value: &str) -> (r: Self)
        ensures
            r.service_name@ == self.service_name@,
            r.service_version@ == self.service_version@,
            r.attributes@ == with_entry(self.attributes@, key@, value@),
    {
        let mut r = self;
        r.attributes.insert(key, value);
        r
    }
}

/// How an operation ended.
#[derive(Clone, Copy, Debug, Default, PartialEq, Eq, Structural)]
pub enum Outcome {
    /// Finished, with no opinion about the result. The OTLP default.
    #[default]
    Unset,
    /// Finished, and the caller asserts it succeeded.
    Success,
    /// Failed.
    Error,
}

impl Outcome {
    /// The OTLP status code: 0 unset, 1 ok, 2 error.
    pub fn otlp_code(self) -> (c: u8)
        ensures
            c == match self {
                Outcome::Unset => 0u8,
                Outcome::Success => 1u8,
                Outcome::Error => 2u8,
            },
    {
        match self {
            Outcome::Unset => 0,
            Outcome::Success => 1,
            Outcome::Error => 2,
        }
    }

    /// The canonical lowercase label.
    pub fn label(self) -> (s: &'static str)
        ensures
            s@ == match self {
                Outcome::Unset => "unset"@,
                Outcome::Success => "ok"@,
                Outcome::Error => "error"@,
            },
    {
        match self {
            Outcome::Unset => "unset",
            Outcome::Success => "ok",
            Outcome::Error => "error",
        }
    }
}

/// A completed operation: what it was, when it ran, and how it ended.
#[derive(Clone, Debug, PartialEq, Eq)]
pub struct Span {
    /// The operation's name, such as `validate` or `parse`.
    pub name: String,
    /// The span identifier.
    pub span_id: SpanId,
    /// The identifier of the span this one ran inside, if any.
    pub parent_span_id: Option<SpanId>,
    /// When it started.
    pub start: Timestamp,
    /// When it finished.
    pub end: Timestamp,
    /// How it ended.
    pub outcome: Outcome,
    /// Whatever the caller attached.
    pub attributes: Attributes,
}

impl Span {
    /// How long the operation took, in nanoseconds; zero if the clock ran
    /// backwards.
    pub fn duration_nanos(&self) -> (n: u64)
        ensures
            n == if self.end.nanos() >= self.start.nanos() {
                (self.end.nanos() - self.start.nanos()) as u64
            } else {
                0u64
            },
    {
        self.start.elapsed_to(self.end)
    }
}

/// How serious an event is, from least to most.
#[derive(Clone, Copy, Debug, Default, PartialEq, Eq, Structural, PartialOrd, Ord)]
pub enum Severity {
    /// Detail useful only when diagnosing.
    Debug,
    /// The ordinary running commentary.
    #[default]
    Info,
    /// Something is off but the operation continued.
    Warn,
    /// The operation failed.
    Error,
}

impl Severity {
    /// The OTLP severity number.
    pub fn otlp_number(self) -> (n: u8)
        ensures
            n == match self {
                Severity::Debug => 5u8,
                Severity::Info => 9u8,
                Severity::Warn => 13u8,
                Severity::Error => 17u8,
            },
    {
        match self {
            Severity::Debug => 5,
            Severity::Info => 9,
            Severity::Warn => 13,
            Severity::Error => 17,
        }
    }

    /// The uppercase name OTLP carries alongside the number.
    pub fn otlp_text(self) -> (s: &'static str)
        ensures
            s@ == match self {
                Severity::Debug => "DEBUG"@,
                Severity::Info => "INFO"@,
                Severity::Warn => "WARN"@,
                Severity::Error => "ERROR"@,
            },
    {
        match self {
            Severity::Debug => "DEBUG",
            Severity::Info => "INFO",
            Severity::Warn => "WARN",
            Severity::Error => "ERROR",
        }
    }
}

/// Something that happened at a moment.
#[derive(Clone, Debug, PartialEq, Eq)]
pub struct Event {
    /// When it happened.
    pub at: Timestamp,
    /// How serious it is.
    pub severity: Severity,
    /// What happened, in one line.
    pub message: String,
    /// The span it happened inside, if any: the correlation id.
    pub span_id: Option<SpanId>,
    /// Whatever the caller attached.
    pub attributes: Attributes,
}

/// What kind of number a metric series is.
#[derive(Clone, Copy, Debug, PartialEq, Eq, Structural)]
pub enum MetricKind {
    /// A running total that only increases, such as documents validated.
    Counter,
    /// A distribution of observations, such as validation durations.
    Histogram,
}

} // verus!
