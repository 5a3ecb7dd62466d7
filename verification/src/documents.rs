//! How much the language server keeps of the documents it has open, and how a
//! document's URI becomes the path its errors are attributed to.
use vstd::prelude::*;

use vstd::utf8::{decode_utf8, valid_utf8};

use crate::chars::{chars_of, chars_start_with, clamp_usize, owned, str_eq, string_from_chars, sub_chars};
use crate::architecture::{opt_architecture_view, Architecture, ArchitectureV};
use crate::config::{ConfigV, ValidatorConfig};
use crate::diagnostics::{
    analyse, analysis_diagnostics, findings_located, locate_report, parsed_architecture, Diagnostic,
    DiagnosticV,
};
use crate::error::ParseError;
use crate::pattern::{Pattern, PatternV};
use crate::validator::validate_with_built_in;
use crate::index::{DocumentIndex, IndexV};
use crate::record::{key_lt, key_lt_exec, lemma_key_lt_order};

verus! {

/// How much the document store may retain.
#[derive(Clone, Copy, Debug, PartialEq, Eq, Structural)]
pub struct Limits {
    /// The most documents to keep analysed at once.
    pub max_documents: usize,
    /// The total source bytes to keep at once.
    pub max_total_bytes: usize,
}

impl Default for Limits {
    /// Sixty-four documents in 8 MiB: far beyond a plausible working set,
    /// still a firm ceiling.
    fn default() -> (l: Self)
        ensures
            l == (Limits { max_documents: 64, max_total_bytes: 8_388_608 }),
    {
        Limits { max_documents: 64, max_total_bytes: 8 * 1024 * 1024 }
    }
}

/// Whether `c` is an ASCII letter.
pub open spec fn is_ascii_letter(c: char) -> bool {
    ('a' <= c <= 'z') || ('A' <= c <= 'Z')
}

/// Whether `path` opens with a Windows drive specification such as `C:`.
pub open spec fn drive_letter_spec(path: Seq<char>) -> bool {
    path.len() >= 2 && is_ascii_letter(path[0]) && path[1] == ':'
}

/// The URI without a leading `file://`.
pub open spec fn without_scheme(uri: Seq<char>) -> Seq<char> {
    if uri.len() >= 7 && uri.take(7) == "file://"@ {
        uri.skip(7)
    } else {
        uri
    }
}

/// The path part of a URI: the scheme removed, and the slash before a drive
/// letter removed too, since `/C:/dir` is no path a Windows API will open.
pub open spec fn path_part(uri: Seq<char>) -> Seq<char> {
    let t = without_scheme(uri);
    if t.len() > 0 && t[0] == '/' && drive_letter_spec(t.skip(1)) {
        t.skip(1)
    } else {
        t
    }
}

/// The value of an ASCII hexadecimal digit.
pub open spec fn hex_value(b: u8) -> Option<u8> {
    if 0x30 <= b <= 0x39 {
        Some((b - 0x30) as u8)
    } else if 0x61 <= b <= 0x66 {
        Some((b - 0x61 + 10) as u8)
    } else if 0x41 <= b <= 0x46 {
        Some((b - 0x41 + 10) as u8)
    } else {
        None
    }
}

/// The byte two characters after a `%` stand for, as `u8::from_str_radix`
/// reads them in base 16: two hexadecimal digits, or a `+` sign and one.
pub open spec fn escape_value(high: u8, low: u8) -> Option<u8> {
    if high == 0x2B {
        hex_value(low)
    } else {
        match (hex_value(high), hex_value(low)) {
            (Some(h), Some(l)) => Some((16 * h + l) as u8),
            _ => None,
        }
    }
}

/// `bytes` with every well-formed `%XX` escape replaced by the byte it
/// stands for, and anything else left as it was.
pub open spec fn unescape(bytes: Seq<u8>) -> Seq<u8>
    decreases bytes.len(),
{
    if bytes.len() == 0 {
        Seq::empty()
    } else if bytes[0] == 0x25 && bytes.len() >= 3 && escape_value(bytes[1], bytes[2]) is Some {
        seq![escape_value(bytes[1], bytes[2])->0] + unescape(bytes.skip(3))
    } else {
        seq![bytes[0]] + unescape(bytes.skip(1))
    }
}

/// The text with its escapes decoded, or the text unchanged when the decoded
/// bytes are not UTF-8.
pub open spec fn percent_decode_spec(text: Seq<char>) -> Seq<char> {
    let bytes = unescape(vstd::utf8::encode_utf8(text));
    if valid_utf8(bytes) {
        decode_utf8(bytes)
    } else {
        text
    }
}

/// std's `String::from_utf8`: the text the bytes encode, or `None` when they
/// are not valid UTF-8.
#[verifier::external_body]
fn string_from_utf8(bytes: Vec<u8>) -> (r: Option<String>)
    ensures
        r is Some <==> valid_utf8(bytes@),
        r matches Some(s) ==> s@ == decode_utf8(bytes@),
{
    String::from_utf8(bytes).ok()
}

/// The value of a hexadecimal digit.
fn hex_value_exec(b: u8) -> (r: Option<u8>)
    ensures
        r == hex_value(b),
{
    if 0x30 <= b && b <= 0x39 {
        Some(b - 0x30)
    } else if 0x61 <= b && b <= 0x66 {
        Some(b - 0x61 + 10)
    } else if 0x41 <= b && b <= 0x46 {
        Some(b - 0x41 + 10)
    } else {
        None
    }
}

/// The byte an escape's two characters stand for.
fn escape_value_exec(high: u8, low: u8) -> (r: Option<u8>)
    ensures
        r == escape_value(high, low),
{
    if high == 0x2B {
        hex_value_exec(low)
    } else {
        match (hex_value_exec(high), hex_value_exec(low)) {
            (Some(h), Some(l)) => Some(16 * h + l),
            _ => None,
        }
    }
}

/// Decodes `%XX` escapes, leaving anything malformed exactly as it was
/// found: `+` is not a space in a path, and a truncated or non-hexadecimal
/// escape is likelier a literal `%` in a file name than an error.
pub fn percent_decode(text: &str) -> (r: String)
    ensures
        r@ == percent_decode_spec(text@),
{
    let bytes = text.as_bytes();
    let ghost all = bytes@;
    let mut out: Vec<u8> = Vec::new();
    let mut i: usize = 0;
    assert(all.skip(0) =~= all);
    while i < bytes.len()
        invariant
            i <= bytes.len(),
            all == bytes@,
            out@ + unescape(all.skip(i as int)) == unescape(all),
        decreases bytes.len() - i,
    {
        let ghost rest = all.skip(i as int);
        let decoded = if bytes[i] == 0x25 && bytes.len() - i >= 3 {
            escape_value_exec(bytes[i + 1], bytes[i + 2])
        } else {
            None
        };
        proof {
            assert(rest[0] == all[i as int]);
            if rest.len() >= 3 {
                assert(rest[1] == all[i + 1] && rest[2] == all[i + 2]);
            }
        }
        match decoded {
            Some(value) => {
                out.push(value);
                proof {
                    assert(rest.skip(3) =~= all.skip(i + 3));
                    assert(out@ + unescape(all.skip(i + 3)) =~= out@.drop_last() + unescape(rest));
                }
                i = i + 3;
            },
            None => {
                out.push(bytes[i]);
                proof {
                    assert(rest.skip(1) =~= all.skip(i + 1));
                    assert(out@ + unescape(all.skip(i + 1)) =~= out@.drop_last() + unescape(rest));
                }
                i = i + 1;
            },
        }
    }
    assert(all.skip(i as int) =~= Seq::<u8>::empty());
    assert(out@ + Seq::<u8>::empty() =~= out@);
    match string_from_utf8(out) {
        Some(s) => s,
        None => crate::chars::owned(text),
    }
}

/// Whether `path` opens with a Windows drive specification such as `C:`.
pub fn has_drive_letter(path: &[char]) -> (b: bool)
    ensures
        b == drive_letter_spec(path@),
{
    path.len() >= 2 && (('a' <= path[0] && path[0] <= 'z') || ('A' <= path[0] && path[0] <= 'Z'))
        && path[1] == ':'
}

/// The path a document or workspace URI names. Total: a URI that does not
/// decode cleanly is used as it stands, since for a document the path only
/// reaches error messages.
pub fn uri_to_path(uri: &str) -> (p: String)
    ensures
        p@ == percent_decode_spec(path_part(uri@)),
{
    let cs = chars_of(uri);
    let scheme = chars_of("file://");
    proof {
        reveal_strlit("file://");
        assert(scheme@.len() == 7);
    }
    let trimmed = if chars_start_with(cs.as_slice(), scheme.as_slice()) {
        sub_chars(cs.as_slice(), 7, cs.len())
    } else {
        cs
    };
    proof {
        reveal_strlit("file://");
        assert(scheme@.len() == 7);
        if uri@.len() >= 7 && uri@.take(7) == "file://"@ {
            assert(uri@.take(scheme@.len() as int) == scheme@);
        }
        assert(trimmed@ =~= without_scheme(uri@));
    }
    let path = if trimmed.len() > 0 && trimmed[0] == '/' {
        let rest = sub_chars(trimmed.as_slice(), 1, trimmed.len());
        if has_drive_letter(rest.as_slice()) {
            rest
        } else {
            trimmed
        }
    } else {
        trimmed
    };
    assert(path@ =~= path_part(uri@));
    let text = string_from_chars(path.as_slice());
    percent_decode(text.as_str())
}

/// One open document and everything derived from it.
#[derive(Clone, Debug)]
pub struct Document {
    /// The full source, as the client last sent it.
    pub text: String,
    /// The client's version counter.
    pub version: i32,
    /// The position-aware index.
    pub index: DocumentIndex,
    /// The diagnostics of the last analysis.
    pub diagnostics: Vec<Diagnostic>,
    /// The architecture of the last analysis, when the document parsed.
    pub architecture: Option<Architecture>,
    /// Logical access time, for least-recently-used eviction.
    accessed: u64,
}

/// The model of a [`Document`].
pub struct DocumentV {
    pub text: Seq<char>,
    pub version: i32,
    pub index: IndexV,
    pub diagnostics: Seq<DiagnosticV>,
    pub architecture: Option<ArchitectureV>,
    pub accessed: u64,
}

impl View for Document {
    type V = DocumentV;

    closed spec fn view(&self) -> DocumentV {
        DocumentV {
            text: self.text@,
            version: self.version,
            index: self.index@,
            diagnostics: self.diagnostics@.map_values(|d: Diagnostic| d@),
            architecture: opt_architecture_view(self.architecture),
            accessed: self.accessed,
        }
    }
}

/// The bytes a document's source occupies.
pub open spec fn doc_size(d: DocumentV) -> nat {
    vstd::utf8::encode_utf8(d.text).len()
}

impl Document {
    /// The document's diagnostics.
    pub fn diagnostics(&self) -> (r: &[Diagnostic])
        ensures
            r@.map_values(|d: Diagnostic| d@) == self@.diagnostics,
    {
        self.diagnostics.as_slice()
    }

    /// The architecture of the last analysis, when the document parsed.
    pub fn architecture(&self) -> (r: Option<&Architecture>)
        ensures
            match r {
                Some(a) => self@.architecture == Some(a@),
                None => self@.architecture is None,
            },
    {
        self.architecture.as_ref()
    }

    /// How many source bytes this document occupies.
    pub fn size(&self) -> (n: usize)
        ensures
            n == doc_size(self@),
    {
        self.text.as_str().as_bytes().len()
    }
}

/// An entry of the store: a URI and its document.
pub type EntryV = (Seq<char>, DocumentV);

/// The total source bytes held.
pub open spec fn total_size(es: Seq<EntryV>) -> nat
    decreases es.len(),
{
    if es.len() == 0 {
        0
    } else {
        total_size(es.drop_last()) + doc_size(es.last().1)
    }
}

/// Whether no URI occurs twice.
pub open spec fn uris_unique(es: Seq<EntryV>) -> bool {
    forall|i: int, j: int| 0 <= i < es.len() && 0 <= j < es.len() && i != j ==> #[trigger] es[i].0 != #[trigger] es[j].0
}

/// Whether a document's architecture, if any, is small enough to validate:
/// its node and relationship counts fit the graph's 32-bit indices.
pub open spec fn doc_bounded(d: DocumentV) -> bool {
    d.architecture matches Some(a) ==> a.nodes.len() < u32::MAX && a.relationships.len() < u32::MAX
}

/// Whether every held document is small enough to validate.
pub open spec fn entries_bounded(es: Seq<EntryV>) -> bool {
    forall|i: int| 0 <= i < es.len() ==> doc_bounded(#[trigger] es[i].1)
}

/// Whether entry `a` was used less recently than `b`, ties broken by URI so
/// that eviction never depends on anything but the store's contents.
pub open spec fn used_before(a: EntryV, b: EntryV) -> bool {
    a.1.accessed < b.1.accessed || (a.1.accessed == b.1.accessed && key_lt(a.0, b.0))
}

/// Whether entry `i` is the least recently used one other than `protected`.
pub open spec fn is_victim(es: Seq<EntryV>, i: int, protected: Seq<char>) -> bool {
    &&& 0 <= i < es.len()
    &&& es[i].0 != protected
    &&& forall|j: int| 0 <= j < es.len() && j != i && es[j].0 != protected ==> used_before(es[i], #[trigger] es[j])
}

/// Whether the store exceeds either limit.
pub open spec fn over_limits(es: Seq<EntryV>, limits: Limits) -> bool {
    es.len() > limits.max_documents || clamp_usize(total_size(es) as int) > limits.max_total_bytes
}

/// Whether some entry other than `protected` is least recently used.
pub open spec fn has_victim(es: Seq<EntryV>, protected: Seq<char>) -> bool {
    exists|i: int| is_victim(es, i, protected)
}

/// The least recently used entry other than `protected`.
pub open spec fn victim_of(es: Seq<EntryV>, protected: Seq<char>) -> int {
    choose|i: int| is_victim(es, i, protected)
}

/// The entries after evicting least-recently-used documents, never
/// `protected`, until both limits hold or nothing else is left to evict.
pub open spec fn evicted(es: Seq<EntryV>, limits: Limits, protected: Seq<char>) -> Seq<EntryV>
    decreases es.len(),
{
    if over_limits(es, limits) && has_victim(es, protected) {
        evicted(es.remove(victim_of(es, protected)), limits, protected)
    } else {
        es
    }
}

/// The entries with `uri` holding `doc`: replaced in place when open,
/// appended otherwise.
pub open spec fn with_document(es: Seq<EntryV>, uri: Seq<char>, doc: DocumentV) -> Seq<EntryV> {
    match position_of(es, uri) {
        Some(i) => es.update(i, (uri, doc)),
        None => es.push((uri, doc)),
    }
}

/// The model of a [`DocumentStore`].
pub struct StoreV {
    pub entries: Seq<EntryV>,
    pub limits: Limits,
    pub clock: u64,
    pub config: ConfigV,
    pub patterns: Seq<PatternV>,
}

/// The set of documents the server has analysed, within a document count and
/// a byte budget, evicting the least recently used to stay inside them.
///
/// The documents are held as a `Vec` of URI and document, with distinct URIs
/// as the type invariant, rather than in a map keyed by URI: eviction walks
/// the documents in a fixed order so that which one leaves never depends on
/// a hasher, and every operation here is stated and proved over that
/// sequence, which a map keyed by text would not let the proofs reach.
#[derive(Debug)]
pub struct DocumentStore {
    entries: Vec<(String, Document)>,
    limits: Limits,
    clock: u64,
    config: ValidatorConfig,
    patterns: Vec<Pattern>,
}

impl View for DocumentStore {
    type V = StoreV;

    closed spec fn view(&self) -> StoreV {
        StoreV {
            entries: self.entries@.map_values(|e: (String, Document)| (e.0@, e.1@)),
            limits: self.limits,
            clock: self.clock,
            config: self.config@,
            patterns: self.patterns@.map_values(|p: Pattern| p@),
        }
    }
}

/// The position of the entry for `uri`, if the store holds one.
pub open spec fn position_of(es: Seq<EntryV>, uri: Seq<char>) -> Option<int> {
    if has_uri(es, uri) {
        Some(uri_index(es, uri))
    } else {
        None
    }
}

/// Whether an entry holds `uri`.
pub open spec fn has_uri(es: Seq<EntryV>, uri: Seq<char>) -> bool {
    exists|i: int| 0 <= i < es.len() && es[i].0 == uri
}

/// An entry holding `uri`.
pub open spec fn uri_index(es: Seq<EntryV>, uri: Seq<char>) -> int {
    choose|i: int| 0 <= i < es.len() && es[i].0 == uri
}

impl DocumentStore {
    #[verifier::type_invariant]
    closed spec fn unique(self) -> bool {
        uris_unique(self@.entries) && entries_bounded(self@.entries)
    }

    /// An empty store with the given limits and validator configuration. The
    /// pattern library starts empty, the honest state before a workspace has
    /// been resolved.
    pub fn new(limits: Limits, config: ValidatorConfig) -> (s: Self)
        ensures
            s@ == (StoreV {
                entries: Seq::empty(),
                limits,
                clock: 0,
                config: config@,
                patterns: Seq::empty(),
            }),
    {
        let s = DocumentStore { entries: Vec::new(), limits, clock: 0, config, patterns: Vec::new() };
        assert(s@.entries =~= Seq::<EntryV>::empty());
        assert(s@.patterns =~= Seq::<PatternV>::empty());
        s
    }

    /// The validator configuration in force.
    pub fn config(&self) -> (c: &ValidatorConfig)
        ensures
            c@ == self@.config,
    {
        &self.config
    }

    /// The pattern library in force.
    pub fn patterns(&self) -> (r: &[Pattern])
        ensures
            r@.map_values(|p: Pattern| p@) == self@.patterns,
    {
        self.patterns.as_slice()
    }

    /// The limits in force.
    pub fn limits(&self) -> (l: Limits)
        ensures
            l == self@.limits,
    {
        self.limits
    }

    /// How many documents are held.
    pub fn len(&self) -> (n: usize)
        ensures
            n == self@.entries.len(),
    {
        self.entries.len()
    }

    /// Whether nothing is held.
    pub fn is_empty(&self) -> (b: bool)
        ensures
            b == (self@.entries.len() == 0),
    {
        self.entries.len() == 0
    }

    /// The total source bytes held, saturating.
    pub fn total_bytes(&self) -> (n: usize)
        ensures
            n == clamp_usize(total_size(self@.entries) as int),
    {
        let ghost es = self@.entries;
        let mut n: usize = 0;
        let mut i: usize = 0;
        while i < self.entries.len()
            invariant
                i <= self.entries.len(),
                es == self@.entries,
                n == clamp_usize(total_size(es.take(i as int)) as int),
            decreases self.entries.len() - i,
        {
            assert(es.take(i + 1).drop_last() =~= es.take(i as int));
            assert(es[i as int] == (self.entries@[i as int].0@, self.entries@[i as int].1@));
            let size = self.entries[i].1.size();
            n = n.saturating_add(size);
            i = i + 1;
        }
        assert(es.take(i as int) =~= es);
        n
    }

    /// The URIs currently held, in the store's order.
    pub fn uris(&self) -> (r: Vec<String>)
        ensures
            r@.map_values(|u: String| u@) == self@.entries.map_values(|e: EntryV| e.0),
    {
        let mut r: Vec<String> = Vec::new();
        let mut i: usize = 0;
        while i < self.entries.len()
            invariant
                i <= self.entries.len(),
                r@.len() == i,
                forall|j: int| 0 <= j < i ==> #[trigger] r@[j]@ == self@.entries[j].0,
            decreases self.entries.len() - i,
        {
            r.push(owned(self.entries[i].0.as_str()));
            i = i + 1;
        }
        assert(r@.map_values(|u: String| u@) =~= self@.entries.map_values(|e: EntryV| e.0));
        r
    }

    /// The position of `uri`'s entry.
    fn find(&self, uri: &str) -> (r: Option<usize>)
        ensures
            match r {
                Some(i) => i < self@.entries.len() && self@.entries[i as int].0 == uri@,
                None => forall|i: int| 0 <= i < self@.entries.len() ==> self@.entries[i].0 != uri@,
            },
    {
        let mut i: usize = 0;
        while i < self.entries.len()
            invariant
                i <= self.entries.len(),
                forall|j: int| 0 <= j < i ==> self@.entries[j].0 != uri@,
            decreases self.entries.len() - i,
        {
            assert(self@.entries[i as int].0 == self.entries@[i as int].0@);
            if str_eq(self.entries[i].0.as_str(), uri) {
                return Some(i);
            }
            i = i + 1;
        }
        None
    }

    /// Retrieves a document without affecting eviction order.
    pub fn peek(&self, uri: &str) -> (r: Option<&Document>)
        ensures
            match r {
                Some(d) => exists|i: int| 0 <= i < self@.entries.len() && self@.entries[i] == (uri@, d@),
                None => forall|i: int| 0 <= i < self@.entries.len() ==> self@.entries[i].0 != uri@,
            },
            r matches Some(d) ==> forall|i: int|
                0 <= i < self@.entries.len() && #[trigger] self@.entries[i].0 == uri@ ==> self@.entries[i].1 == d@,
    {
        proof {
            use_type_invariant(self);
        }
        match self.find(uri) {
            Some(i) => {
                assert(self@.entries[i as int] == (self.entries@[i as int].0@, self.entries@[i as int].1@));
                proof {
                    assert forall|j: int|
                        0 <= j < self@.entries.len() && #[trigger] self@.entries[j].0 == uri@ implies self@.entries[j].1
                        == self@.entries[i as int].1 by {
                        if j != i {
                            assert(self@.entries[j].0 == self@.entries[i as int].0);
                        }
                    }
                }
                Some(&self.entries[i].1)
            },
            None => None,
        }
    }

    /// Retrieves a document, marking it as the most recently used.
    pub fn get(&mut self, uri: &str) -> (r: Option<&Document>)
        ensures
            final(self)@.clock == crate::clock::sat_add_u64(old(self)@.clock, 1),
            final(self)@.limits == old(self)@.limits,
            final(self)@.config == old(self)@.config,
            final(self)@.patterns == old(self)@.patterns,
            match position_of(old(self)@.entries, uri@) {
                Some(i) => final(self)@.entries == old(self)@.entries.update(
                    i,
                    (uri@, DocumentV { accessed: final(self)@.clock, ..old(self)@.entries[i].1 }),
                ) && (r matches Some(d) && d@ == final(self)@.entries[i].1),
                None => final(self)@.entries == old(self)@.entries && r is None,
            },
    {
        proof {
            use_type_invariant(&*self);
        }
        self.clock = self.clock.saturating_add(1);
        let now = self.clock;
        let ghost before = self@.entries;
        match self.find(uri) {
            Some(i) => {
                proof {
                    let k = choose|k: int| 0 <= k < before.len() && before[k].0 == uri@;
                    if k != i {
                        assert(before[k].0 == before[i as int].0);
                    }
                }
                let mut entries: Vec<(String, Document)> = Vec::new();
                std::mem::swap(&mut entries, &mut self.entries);
                let (key, mut doc) = entries.remove(i);
                doc.accessed = now;
                entries.insert(i, (key, doc));
                proof {
                    assert(entries@.map_values(|e: (String, Document)| (e.0@, e.1@)) =~= before.update(
                        i as int,
                        (uri@, DocumentV { accessed: now, ..before[i as int].1 }),
                    ));
                }
                self.entries = entries;
                Some(&self.entries[i].1)
            },
            None => None,
        }
    }

    /// Forgets a document the client has closed, handing it back.
    pub fn close(&mut self, uri: &str) -> (r: Option<Document>)
        ensures
            final(self)@.limits == old(self)@.limits,
            final(self)@.clock == old(self)@.clock,
            final(self)@.config == old(self)@.config,
            final(self)@.patterns == old(self)@.patterns,
            match position_of(old(self)@.entries, uri@) {
                Some(i) => final(self)@.entries == old(self)@.entries.remove(i) && (r matches Some(
                    d,
                ) && d@ == old(self)@.entries[i].1),
                None => final(self)@.entries == old(self)@.entries && r is None,
            },
    {
        proof {
            use_type_invariant(&*self);
        }
        let ghost before = self@.entries;
        match self.find(uri) {
            Some(i) => {
                proof {
                    let k = choose|k: int| 0 <= k < before.len() && before[k].0 == uri@;
                    if k != i {
                        assert(before[k].0 == before[i as int].0);
                    }
                }
                let mut entries: Vec<(String, Document)> = Vec::new();
                std::mem::swap(&mut entries, &mut self.entries);
                let (_, doc) = entries.remove(i);
                proof {
                    assert(entries@.map_values(|e: (String, Document)| (e.0@, e.1@)) =~= before.remove(i as int));
                    assert forall|a: int, b: int| 0 <= a < before.len() - 1 && 0 <= b < before.len() - 1 && a != b implies #[trigger] before.remove(i as int)[a].0 != #[trigger] before.remove(i as int)[b].0 by {
                        let a2 = if a < i { a } else { a + 1 };
                        let b2 = if b < i { b } else { b + 1 };
                        assert(before[a2].0 != before[b2].0);
                    }
                    lemma_remove_keeps_bounded(before, i as int);
                }
                self.entries = entries;
                Some(doc)
            },
            None => None,
        }
    }

    /// The least recently used entry other than `protected`.
    fn least_recently_used(&self, protected: &str) -> (r: Option<usize>)
        ensures
            match r {
                Some(i) => is_victim(self@.entries, i as int, protected@),
                None => forall|i: int| 0 <= i < self@.entries.len() ==> self@.entries[i].0 == protected@,
            },
    {
        proof {
            use_type_invariant(self);
        }
        let ghost es = self@.entries;
        let mut best: Option<usize> = None;
        let mut i: usize = 0;
        while i < self.entries.len()
            invariant
                i <= self.entries.len(),
                es == self@.entries,
                uris_unique(es),
                best is None ==> forall|j: int| 0 <= j < i ==> es[j].0 == protected@,
                best matches Some(b) ==> b < i && es[b as int].0 != protected@ && forall|j: int|
                    0 <= j < i && j != b && es[j].0 != protected@ ==> used_before(es[b as int], #[trigger] es[j]),
            decreases self.entries.len() - i,
        {
            assert(es[i as int] == (self.entries@[i as int].0@, self.entries@[i as int].1@));
            if !str_eq(self.entries[i].0.as_str(), protected) {
                match best {
                    None => {
                        best = Some(i);
                    },
                    Some(b) => {
                        assert(es[b as int] == (self.entries@[b as int].0@, self.entries@[b as int].1@));
                        let ours = &self.entries[i];
                        let theirs = &self.entries[b];
                        let earlier = ours.1.accessed < theirs.1.accessed || (ours.1.accessed
                            == theirs.1.accessed && key_lt_exec(
                            chars_of(ours.0.as_str()).as_slice(),
                            chars_of(theirs.0.as_str()).as_slice(),
                        ));
                        proof {
                            lemma_key_lt_order(es[i as int].0, es[b as int].0, es[b as int].0);
                            assert forall|j: int| 0 <= j < i && j != b && es[j].0 != protected@ implies
                                #[trigger] used_before(es[b as int], es[j]) by {}
                        }
                        if earlier {
                            proof {
                                assert forall|j: int| 0 <= j < i + 1 && j != i && es[j].0 != protected@ implies
                                    used_before(es[i as int], #[trigger] es[j]) by {
                                    if j != b {
                                        assert(used_before(es[b as int], es[j]));
                                        lemma_key_lt_order(es[i as int].0, es[b as int].0, es[j].0);
                                    }
                                }
                            }
                            best = Some(i);
                        } else {
                            proof {
                                assert(es[i as int].0 != es[b as int].0);
                                assert(used_before(es[b as int], es[i as int]));
                            }
                        }
                    },
                }
            }
            i = i + 1;
        }
        best
    }

    /// Evicts least-recently-used documents until both limits hold; the
    /// `protected` document is never evicted, however large it is.
    fn enforce_limits(&mut self, protected: &str)
        ensures
            final(self)@ == (StoreV { entries: evicted(old(self)@.entries, old(self)@.limits, protected@), ..old(self)@ }),
    {
        proof {
            use_type_invariant(&*self);
        }
        let ghost target = evicted(self@.entries, self.limits, protected@);
        loop
            invariant
                evicted(self@.entries, self@.limits, protected@) == target,
                self@.limits == old(self)@.limits,
                self@.clock == old(self)@.clock,
                self@.config == old(self)@.config,
                self@.patterns == old(self)@.patterns,
            ensures
                self@.entries == target,
                self@.limits == old(self)@.limits,
                self@.clock == old(self)@.clock,
                self@.config == old(self)@.config,
                self@.patterns == old(self)@.patterns,
            decreases self@.entries.len(),
        {
            proof {
                use_type_invariant(&*self);
            }
            let over = self.entries.len() > self.limits.max_documents || self.total_bytes() > self.limits.max_total_bytes;
            if !over {
                break;
            }
            let victim = match self.least_recently_used(protected) {
                Some(v) => v,
                None => {
                    break;
                },
            };
            let ghost before = self@.entries;
            proof {
                lemma_victim_unique(before, victim_of(before, protected@), victim as int, protected@);
            }
            let mut entries: Vec<(String, Document)> = Vec::new();
            std::mem::swap(&mut entries, &mut self.entries);
            entries.remove(victim);
            proof {
                assert(entries@.map_values(|e: (String, Document)| (e.0@, e.1@)) =~= before.remove(victim as int));
                lemma_remove_keeps_unique(before, victim as int);
                lemma_remove_keeps_bounded(before, victim as int);
            }
            self.entries = entries;
        }
    }

    /// Stores `text` for `uri`, analysing it from what parsing it gave under
    /// the configuration in force, indexing it, marking it most recently
    /// used, and evicting others to stay within the limits. Analysis runs on
    /// every change, so diagnostics never lag the text.
    pub fn upsert(&mut self, uri: &str, text: String, version: i32, parsed: Result<Architecture, ParseError>) -> (r: &Document)
        requires
            parsed matches Ok(a) ==> a@.nodes.len() < u32::MAX && a@.relationships.len() < u32::MAX,
        ensures
            final(self)@.clock == crate::clock::sat_add_u64(old(self)@.clock, 1),
            final(self)@.limits == old(self)@.limits,
            final(self)@.config == old(self)@.config,
            final(self)@.patterns == old(self)@.patterns,
            final(self)@.entries == evicted(
                with_document(
                    old(self)@.entries,
                    uri@,
                    DocumentV {
                        text: text@,
                        version,
                        index: crate::index::index_spec(text@),
                        diagnostics: analysis_diagnostics(parsed, crate::index::index_spec(text@), old(self)@.config, old(self)@.patterns),
                        architecture: parsed_architecture(parsed),
                        accessed: final(self)@.clock,
                    },
                ),
                old(self)@.limits,
                uri@,
            ),
            r@ == (DocumentV {
                text: text@,
                version,
                index: crate::index::index_spec(text@),
                diagnostics: analysis_diagnostics(parsed, crate::index::index_spec(text@), old(self)@.config, old(self)@.patterns),
                architecture: parsed_architecture(parsed),
                accessed: final(self)@.clock,
            }),
    {
        proof {
            use_type_invariant(&*self);
        }
        let index = DocumentIndex::build(text.as_str());
        let analysis = analyse(parsed, &index, &self.config, self.patterns.as_slice());
        self.clock = self.clock.saturating_add(1);
        let ghost before = self@.entries;
        let ghost doc_view = DocumentV {
            text: text@,
            version,
            index: crate::index::index_spec(text@),
            diagnostics: analysis_diagnostics(parsed, crate::index::index_spec(text@), self@.config, self@.patterns),
            architecture: parsed_architecture(parsed),
            accessed: self.clock,
        };
        let doc = Document {
            text,
            version,
            index,
            diagnostics: analysis.diagnostics,
            architecture: analysis.architecture,
            accessed: self.clock,
        };
        assert(doc@ == doc_view);
        self.store_document(uri, doc);
        proof {
            law_the_written_document_is_kept(before, uri@, doc_view, self@.limits);
            let k = choose|k: int| 0 <= k < self@.entries.len() && self@.entries[k] == (uri@, doc_view);
            assert(self@.entries[k].0 == uri@);
        }
        let found = self.peek(uri);
        proof {
            let k = choose|k: int| 0 <= k < self@.entries.len() && self@.entries[k] == (uri@, doc_view);
            assert(self@.entries[k].0 == uri@);
        }
        found.unwrap()
    }

    /// Puts `doc` under `uri`, replacing any document held there, and evicts
    /// others to stay within the limits.
    fn store_document(&mut self, uri: &str, doc: Document)
        requires
            doc_bounded(doc@),
        ensures
            final(self)@ == (StoreV {
                entries: evicted(with_document(old(self)@.entries, uri@, doc@), old(self)@.limits, uri@),
                ..old(self)@
            }),
    {
        proof {
            use_type_invariant(&*self);
        }
        let ghost before = self@.entries;
        let ghost doc_view = doc@;
        let found = self.find(uri);
        let mut entries: Vec<(String, Document)> = Vec::new();
        std::mem::swap(&mut entries, &mut self.entries);
        match found {
            Some(i) => {
                proof {
                    let k = choose|k: int| 0 <= k < before.len() && before[k].0 == uri@;
                    if k != i {
                        assert(before[k].0 == before[i as int].0);
                    }
                }
                entries.set(i, (owned(uri), doc));
                proof {
                    assert(entries@.map_values(|e: (String, Document)| (e.0@, e.1@)) =~= with_document(before, uri@, doc_view));
                }
            },
            None => {
                entries.push((owned(uri), doc));
                proof {
                    assert(entries@.map_values(|e: (String, Document)| (e.0@, e.1@)) =~= with_document(before, uri@, doc_view));
                }
            },
        }
        proof {
            lemma_with_document_unique(before, uri@, doc_view);
            lemma_with_document_bounded(before, uri@, doc_view);
        }
        self.entries = entries;
        self.enforce_limits(uri);
    }

    /// Replaces the validator configuration and re-analyses every open
    /// document, so the next keystroke shows findings consistent with the
    /// new thresholds rather than stale ones.
    pub fn reconfigure(&mut self, config: ValidatorConfig)
        ensures
            final(self)@ == reanalysed_store(StoreV { config: config@, ..old(self)@ }),
    {
        proof {
            use_type_invariant(&*self);
        }
        self.config = config;
        self.reanalyse_all();
    }

    /// Replaces the pattern library and re-analyses every open document.
    pub fn load_patterns(&mut self, patterns: Vec<Pattern>)
        ensures
            final(self)@ == reanalysed_store(
                StoreV { patterns: patterns@.map_values(|p: Pattern| p@), ..old(self)@ },
            ),
    {
        proof {
            use_type_invariant(&*self);
        }
        self.patterns = patterns;
        self.reanalyse_all();
    }

    /// Re-runs analysis over every open document in the store's order, each
    /// marked used as it is re-analysed.
    fn reanalyse_all(&mut self)
        ensures
            final(self)@ == reanalysed_store(old(self)@),
    {
        proof {
            use_type_invariant(&*self);
        }
        let ghost start = self@;
        let n = self.entries.len();
        let mut i: usize = 0;
        while i < n
            invariant
                n == start.entries.len(),
                i <= n,
                self@.limits == start.limits,
                self@.config == start.config,
                self@.patterns == start.patterns,
                self@.clock == crate::clock::sat_add_u64(start.clock, i as u64),
                self@.entries.len() == n,
                forall|j: int| 0 <= j < i ==> #[trigger] self@.entries[j] == reanalysed_entry(start, j),
                forall|j: int| i <= j < n ==> #[trigger] self@.entries[j] == start.entries[j],
            decreases n - i,
        {
            proof {
                use_type_invariant(&*self);
                assert(doc_bounded(self@.entries[i as int].1));
            }
            self.clock = self.clock.saturating_add(1);
            let ghost before = self@.entries;
            let mut entries: Vec<(String, Document)> = Vec::new();
            std::mem::swap(&mut entries, &mut self.entries);
            let (key, mut doc) = entries.remove(i);
            assert((key@, doc@) == before[i as int]);
            let fresh = match &doc.architecture {
                Some(a) => {
                    let report = validate_with_built_in(&self.config, a, self.patterns.as_slice());
                    Some(locate_report(&doc.index, &report))
                },
                None => None,
            };
            match fresh {
                Some(d) => {
                    doc.diagnostics = d;
                },
                None => {},
            }
            doc.accessed = self.clock;
            entries.insert(i, (key, doc));
            proof {
                let after = entries@.map_values(|e: (String, Document)| (e.0@, e.1@));
                assert(after =~= before.update(i as int, reanalysed_entry(start, i as int)));
                assert forall|a: int, b: int| 0 <= a < after.len() && 0 <= b < after.len() && a != b implies #[trigger] after[a].0 != #[trigger] after[b].0 by {
                    assert(after[a].0 == before[a].0 && after[b].0 == before[b].0);
                }
                assert forall|a: int| 0 <= a < after.len() implies doc_bounded(#[trigger] after[a].1) by {
                    assert(after[a].1.architecture == before[a].1.architecture);
                }
            }
            self.entries = entries;
            i = i + 1;
        }
        assert(self@.entries =~= reanalysed_store(start).entries);
    }

    /// Retrieves a document together with the pattern library its features
    /// need, marking the document as the most recently used.
    pub fn get_with_patterns(&mut self, uri: &str) -> (r: Option<(&Document, &[Pattern])>)
        ensures
            final(self)@.clock == crate::clock::sat_add_u64(old(self)@.clock, 1),
            final(self)@.limits == old(self)@.limits,
            final(self)@.config == old(self)@.config,
            final(self)@.patterns == old(self)@.patterns,
            match position_of(old(self)@.entries, uri@) {
                Some(i) => final(self)@.entries == old(self)@.entries.update(
                    i,
                    (uri@, DocumentV { accessed: final(self)@.clock, ..old(self)@.entries[i].1 }),
                ) && (r matches Some((d, ps)) && d@ == final(self)@.entries[i].1
                    && ps@.map_values(|p: Pattern| p@) == old(self)@.patterns),
                None => final(self)@.entries == old(self)@.entries && r is None,
            },
    {
        let found = self.get(uri).is_some();
        if found {
            let i = self.find(uri).unwrap();
            proof {
                use_type_invariant(&*self);
                let k = position_of(old(self)@.entries, uri@).unwrap();
                assert(self@.entries[k].0 == uri@);
                if k != i {
                    assert(self@.entries[k].0 == self@.entries[i as int].0);
                }
            }
            Some((&self.entries[i].1, self.patterns.as_slice()))
        } else {
            None
        }
    }
}

impl Default for DocumentStore {
    /// An empty store with the default limits and thresholds.
    fn default() -> (s: Self)
        ensures
            s@.entries == Seq::<EntryV>::empty(),
            s@.limits == (Limits { max_documents: 64, max_total_bytes: 8_388_608 }),
            s@.clock == 0,
            s@.config.max_critical_path_ms == crate::config::DEFAULT_MAX_CRITICAL_PATH_MS,
            s@.config.min_security_controls_per_service == crate::config::DEFAULT_MIN_SECURITY_CONTROLS,
            s@.config.allow == Seq::<Seq<char>>::empty(),
            s@.patterns == Seq::<PatternV>::empty(),
    {
        DocumentStore::new(Limits::default(), ValidatorConfig::default())
    }
}

/// A document re-analysed under `config`: re-validated from the
/// architecture it last parsed into, its parse failure otherwise standing
/// unchanged, since neither depends on anything but the text.
pub open spec fn reanalysed_doc(d: DocumentV, config: ConfigV, patterns: Seq<PatternV>, accessed: u64) -> DocumentV {
    DocumentV {
        diagnostics: match d.architecture {
            Some(a) => findings_located(d.index, a, config, patterns),
            None => d.diagnostics,
        },
        accessed,
        ..d
    }
}

/// Entry `j` of `s` after every document is re-analysed in order.
pub open spec fn reanalysed_entry(s: StoreV, j: int) -> EntryV {
    (s.entries[j].0, reanalysed_doc(s.entries[j].1, s.config, s.patterns, crate::clock::sat_add_u64(s.clock, (j + 1) as u64)))
}

/// The store after every document is re-analysed, in order, each marked
/// used as it is.
pub open spec fn reanalysed_store(s: StoreV) -> StoreV {
    StoreV {
        entries: Seq::new(s.entries.len(), |j: int| reanalysed_entry(s, j)),
        clock: crate::clock::sat_add_u64(s.clock, s.entries.len() as u64),
        ..s
    }
}

/// Eviction never removes the protected document, and keeps only entries the
/// store held.
proof fn lemma_evicted_keeps(es: Seq<EntryV>, limits: Limits, protected: Seq<char>, e: EntryV)
    ensures
        es.contains(e) && e.0 == protected ==> evicted(es, limits, protected).contains(e),
        evicted(es, limits, protected).contains(e) ==> es.contains(e),
    decreases es.len(),
{
    if over_limits(es, limits) && has_victim(es, protected) {
        let v = victim_of(es, protected);
        let rest = es.remove(v);
        lemma_evicted_keeps(rest, limits, protected, e);
        if es.contains(e) && e.0 == protected {
            let k = choose|k: int| 0 <= k < es.len() && es[k] == e;
            assert(k != v);
            if k < v {
                assert(rest[k] == e);
            } else {
                assert(rest[k - 1] == e);
            }
        }
        if rest.contains(e) {
            let k = choose|k: int| 0 <= k < rest.len() && rest[k] == e;
            if k < v {
                assert(es[k] == e);
            } else {
                assert(es[k + 1] == e);
            }
        }
    }
}

/// Among distinct URIs, some unprotected entry is least recently used as soon
/// as any entry is unprotected.
proof fn lemma_victim_exists(es: Seq<EntryV>, protected: Seq<char>, i: int)
    requires
        uris_unique(es),
        0 <= i < es.len(),
        es[i].0 != protected,
    ensures
        exists|v: int| is_victim(es, v, protected),
    decreases es.len(),
{
    let n = es.len() - 1;
    let init = es.drop_last();
    let last = es[n];
    assert(uris_unique(init)) by {
        assert forall|a: int, b: int| 0 <= a < init.len() && 0 <= b < init.len() && a != b implies #[trigger] init[a].0 != #[trigger] init[b].0 by {
            assert(init[a] == es[a] && init[b] == es[b]);
        }
    }
    if exists|k: int| 0 <= k < init.len() && init[k].0 != protected {
        let k = choose|k: int| 0 <= k < init.len() && init[k].0 != protected;
        lemma_victim_exists(init, protected, k);
        let w = choose|v: int| is_victim(init, v, protected);
        if last.0 != protected && used_before(last, init[w]) {
            assert forall|j: int| 0 <= j < es.len() && j != n && es[j].0 != protected implies used_before(last, #[trigger] es[j]) by {
                assert(es[j] == init[j]);
                if j != w {
                    assert(used_before(init[w], init[j]));
                    lemma_key_lt_order(last.0, init[w].0, init[j].0);
                }
            }
            assert(is_victim(es, n, protected));
        } else {
            assert forall|j: int| 0 <= j < es.len() && j != w && es[j].0 != protected implies used_before(es[w], #[trigger] es[j]) by {
                if j == n {
                    assert(es[w] == init[w]);
                    assert(es[w].0 != last.0);
                    lemma_key_lt_order(last.0, init[w].0, init[w].0);
                } else {
                    assert(es[j] == init[j]);
                }
            }
            assert(is_victim(es, w, protected));
        }
    } else {
        if i < n {
            assert(init[i] == es[i]);
            assert(init[i].0 != protected);
        }
        assert(i == n);
        assert forall|j: int| 0 <= j < es.len() && j != n && es[j].0 != protected implies used_before(last, #[trigger] es[j]) by {
            assert(init[j] == es[j]);
        }
        assert(is_victim(es, n, protected));
    }
}

/// After eviction both limits hold, unless nothing but the protected
/// document is left to evict.
pub proof fn law_eviction_restores_the_limits(es: Seq<EntryV>, limits: Limits, protected: Seq<char>)
    requires
        uris_unique(es),
    ensures
        !over_limits(evicted(es, limits, protected), limits) || forall|i: int|
            0 <= i < evicted(es, limits, protected).len() ==> #[trigger] evicted(es, limits, protected)[i].0
                == protected,
    decreases es.len(),
{
    if over_limits(es, limits) && has_victim(es, protected) {
        let v = victim_of(es, protected);
        lemma_remove_keeps_unique(es, v);
        law_eviction_restores_the_limits(es.remove(v), limits, protected);
    } else if over_limits(es, limits) {
        assert forall|i: int| 0 <= i < es.len() implies #[trigger] es[i].0 == protected by {
            if es[i].0 != protected {
                lemma_victim_exists(es, protected, i);
            }
        }
    }
}

/// The document just written is never evicted: after an upsert the store
/// holds it, exactly as written.
pub proof fn law_the_written_document_is_kept(
    es: Seq<EntryV>,
    uri: Seq<char>,
    doc: DocumentV,
    limits: Limits,
)
    ensures
        evicted(with_document(es, uri, doc), limits, uri).contains((uri, doc)),
{
    let w = with_document(es, uri, doc);
    if has_uri(es, uri) {
        let i = uri_index(es, uri);
        assert(w[i] == (uri, doc));
    } else {
        assert(w[es.len() as int] == (uri, doc));
    }
    lemma_evicted_keeps(w, limits, uri, (uri, doc));
}

/// Eviction waits for a limit to be exceeded: a store within both limits
/// loses nothing.
pub proof fn law_within_limits_nothing_is_evicted(es: Seq<EntryV>, limits: Limits, protected: Seq<char>)
    requires
        !over_limits(es, limits),
    ensures
        evicted(es, limits, protected) == es,
{
}

/// Eviction goes one document at a time, least recently used first: while a
/// limit is exceeded and some document other than `protected` is held, the
/// least recently used of those is the one removed next, and it is the only
/// one.
pub proof fn law_least_recently_used_goes_first(es: Seq<EntryV>, limits: Limits, protected: Seq<char>, v: int)
    requires
        uris_unique(es),
        over_limits(es, limits),
        is_victim(es, v, protected),
    ensures
        evicted(es, limits, protected) == evicted(es.remove(v), limits, protected),
        forall|w: int| #[trigger] is_victim(es, w, protected) ==> w == v,
{
    assert(has_victim(es, protected));
    let c = victim_of(es, protected);
    lemma_victim_unique(es, c, v, protected);
    assert forall|w: int| #[trigger] is_victim(es, w, protected) implies w == v by {
        lemma_victim_unique(es, w, v, protected);
    }
}

/// Eviction only ever removes documents: whatever remains was held before.
pub proof fn law_eviction_only_removes(es: Seq<EntryV>, limits: Limits, protected: Seq<char>, e: EntryV)
    requires
        evicted(es, limits, protected).contains(e),
    ensures
        es.contains(e),
{
    lemma_evicted_keeps(es, limits, protected, e);
}

/// With distinct URIs there is at most one least recently used entry.
proof fn lemma_victim_unique(es: Seq<EntryV>, a: int, b: int, protected: Seq<char>)
    requires
        uris_unique(es),
        is_victim(es, a, protected),
        is_victim(es, b, protected),
    ensures
        a == b,
{
    if a != b {
        assert(used_before(es[a], es[b]));
        assert(used_before(es[b], es[a]));
        lemma_key_lt_order(es[a].0, es[b].0, es[a].0);
    }
}

/// Removing an entry keeps URIs distinct.
proof fn lemma_remove_keeps_unique(es: Seq<EntryV>, i: int)
    requires
        uris_unique(es),
        0 <= i < es.len(),
    ensures
        uris_unique(es.remove(i)),
{
    let r = es.remove(i);
    assert forall|a: int, b: int| 0 <= a < r.len() && 0 <= b < r.len() && a != b implies #[trigger] r[a].0 != #[trigger] r[b].0 by {
        let a2 = if a < i { a } else { a + 1 };
        let b2 = if b < i { b } else { b + 1 };
        assert(r[a] == es[a2] && r[b] == es[b2]);
    }
}

/// Storing a document keeps URIs distinct.
proof fn lemma_with_document_unique(es: Seq<EntryV>, uri: Seq<char>, doc: DocumentV)
    requires
        uris_unique(es),
    ensures
        uris_unique(with_document(es, uri, doc)),
{
    let r = with_document(es, uri, doc);
    if has_uri(es, uri) {
        let k = uri_index(es, uri);
        assert forall|a: int, b: int| 0 <= a < r.len() && 0 <= b < r.len() && a != b implies #[trigger] r[a].0 != #[trigger] r[b].0 by {
            if a == k {
                assert(es[b].0 != es[k].0);
            } else if b == k {
                assert(es[a].0 != es[k].0);
            }
        }
    } else {
        assert forall|a: int, b: int| 0 <= a < r.len() && 0 <= b < r.len() && a != b implies #[trigger] r[a].0 != #[trigger] r[b].0 by {
            if a == es.len() {
                assert(es[b].0 != uri);
            } else if b == es.len() {
                assert(es[a].0 != uri);
            }
        }
    }
}

/// Storing a bounded document keeps every document bounded.
proof fn lemma_with_document_bounded(es: Seq<EntryV>, uri: Seq<char>, doc: DocumentV)
    requires
        entries_bounded(es),
        doc_bounded(doc),
    ensures
        entries_bounded(with_document(es, uri, doc)),
{
    let r = with_document(es, uri, doc);
    assert forall|a: int| 0 <= a < r.len() implies doc_bounded(#[trigger] r[a].1) by {
        if has_uri(es, uri) {
            if a != uri_index(es, uri) {
                assert(r[a] == es[a]);
            }
        } else if a < es.len() {
            assert(r[a] == es[a]);
        }
    }
}

/// Removing an entry keeps every document bounded.
proof fn lemma_remove_keeps_bounded(es: Seq<EntryV>, i: int)
    requires
        entries_bounded(es),
        0 <= i < es.len(),
    ensures
        entries_bounded(es.remove(i)),
{
    let r = es.remove(i);
    assert forall|a: int| 0 <= a < r.len() implies doc_bounded(#[trigger] r[a].1) by {
        let a2 = if a < i { a } else { a + 1 };
        assert(r[a] == es[a2]);
    }
}

/// Eviction keeps URIs distinct.
proof fn lemma_evicted_unique(es: Seq<EntryV>, limits: Limits, protected: Seq<char>)
    requires
        uris_unique(es),
    ensures
        uris_unique(evicted(es, limits, protected)),
    decreases es.len(),
{
    if over_limits(es, limits) && has_victim(es, protected) {
        let v = victim_of(es, protected);
        lemma_remove_keeps_unique(es, v);
        lemma_evicted_unique(es.remove(v), limits, protected);
    }
}

/// After writing `doc` under `uri`, reading `uri` gives exactly what was
/// written; the store is back within both limits unless nothing but that
/// document is left; and every document still held was held before or is
/// the one written.
pub proof fn law_upsert_then_peek(es: Seq<EntryV>, uri: Seq<char>, doc: DocumentV, limits: Limits)
    requires
        uris_unique(es),
    ensures
        ({
            let after = evicted(with_document(es, uri, doc), limits, uri);
            &&& after.contains((uri, doc))
            &&& forall|i: int| 0 <= i < after.len() && #[trigger] after[i].0 == uri ==> after[i].1 == doc
            &&& !over_limits(after, limits) || forall|i: int| 0 <= i < after.len() ==> #[trigger] after[i].0 == uri
            &&& forall|e: EntryV| after.contains(e) ==> e == (uri, doc) || es.contains(e)
        }),
{
    let w = with_document(es, uri, doc);
    let after = evicted(w, limits, uri);
    lemma_with_document_unique(es, uri, doc);
    law_the_written_document_is_kept(es, uri, doc, limits);
    law_eviction_restores_the_limits(w, limits, uri);
    lemma_evicted_unique(w, limits, uri);
    let k = choose|k: int| 0 <= k < after.len() && after[k] == (uri, doc);
    assert forall|i: int| 0 <= i < after.len() && #[trigger] after[i].0 == uri implies after[i].1 == doc by {
        if i != k {
            assert(after[i].0 == after[k].0);
        }
    }
    assert forall|e: EntryV| after.contains(e) implies e == (uri, doc) || es.contains(e) by {
        lemma_evicted_keeps(w, limits, uri, e);
        let j = choose|j: int| 0 <= j < w.len() && w[j] == e;
        match position_of(es, uri) {
            Some(p) => {
                if j != p {
                    assert(es[j] == e);
                }
            },
            None => {
                if j < es.len() {
                    assert(es[j] == e);
                }
            },
        }
    }
}

} // verus!
