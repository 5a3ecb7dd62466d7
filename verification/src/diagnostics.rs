//! Turning parse failures and validation findings into squiggles at the
//! right place.
//!
//! The validator reports against architectural elements ("node `orders-db`"),
//! an editor needs a line and a column. Each subject is looked back up in the
//! [`crate::index`]: a node is anchored on its `name:` value, a relationship on
//! its `source:`, a set of nodes on its earliest member with the rest as
//! related locations, and the architecture on line 1. A subject that cannot be
//! located falls back to the first line rather than being dropped.
use vstd::prelude::*;

use crate::chars::{clamp_u32, concat_strs, joined, owned, str_eq, utf16_units};
use crate::diagnostic::{Diagnostic as Finding, DiagnosticV as FindingV, Report, Subject, SubjectV};
use crate::architecture::{opt_architecture_view, Architecture, ArchitectureV};
use crate::config::{ConfigV, ValidatorConfig};
use crate::error::{Location, ParseError};
use crate::pattern::{Pattern, PatternV};
use crate::validator::{built_in_findings, context_of, validate_with_built_in};
use crate::index::{
    index_spans_before, index_spec, lemma_index_spans, anchor_span_of, connects_pred, named_pred, refers_pred, DocumentIndex, IndexV, SymbolKind,
};
use crate::seqs::{first_match, lemma_first_match};
use crate::text::{span_le, utf16_len, Span};

verus! {

/// How serious a located diagnostic is.
#[derive(Clone, Copy, Debug, PartialEq, Eq, Structural, PartialOrd, Ord)]
pub enum Severity {
    /// Advisory.
    Info,
    /// A risk or smell.
    Warning,
    /// A violation, or a document that will not parse.
    Error,
}

/// The editor severity of a validator severity.
pub open spec fn severity_of(s: crate::diagnostic::Severity) -> Severity {
    match s {
        crate::diagnostic::Severity::Info => Severity::Info,
        crate::diagnostic::Severity::Warning => Severity::Warning,
        crate::diagnostic::Severity::Error => Severity::Error,
    }
}

impl From<crate::diagnostic::Severity> for Severity {
    fn from(severity: crate::diagnostic::Severity) -> (s: Self) {
        match severity {
            crate::diagnostic::Severity::Info => Severity::Info,
            crate::diagnostic::Severity::Warning => Severity::Warning,
            crate::diagnostic::Severity::Error => Severity::Error,
        }
    }
}

impl vstd::std_specs::convert::FromSpecImpl<crate::diagnostic::Severity> for Severity {
    open spec fn obeys_from_spec() -> bool {
        true
    }

    open spec fn from_spec(v: crate::diagnostic::Severity) -> Severity {
        severity_of(v)
    }
}

/// A finding, located in the document.
#[derive(Clone, Debug, PartialEq, Eq)]
pub struct Diagnostic {
    /// Where to underline.
    pub span: Span,
    /// How serious it is.
    pub severity: Severity,
    /// The rule identifier, or `"syntax"` for a parse failure.
    pub code: String,
    /// What is wrong.
    pub message: String,
    /// Other places implicated in the same finding, such as the rest of a cycle.
    pub related: Vec<(String, Span)>,
}

/// The model of a located [`Diagnostic`].
pub struct DiagnosticV {
    pub span: Span,
    pub severity: Severity,
    pub code: Seq<char>,
    pub message: Seq<char>,
    pub related: Seq<(Seq<char>, Span)>,
}

impl View for Diagnostic {
    type V = DiagnosticV;

    open spec fn view(&self) -> DiagnosticV {
        DiagnosticV {
            span: self.span,
            severity: self.severity,
            code: self.code@,
            message: self.message@,
            related: self.related@.map_values(|r: (String, Span)| (r.0@, r.1)),
        }
    }
}

/// A 1-indexed count read as a 0-indexed `u32`: a value past `u32::MAX`
/// reads as 1, and zero stays zero.
pub open spec fn zero_based(n: usize) -> u32 {
    let v: u32 = if n <= u32::MAX {
        n as u32
    } else {
        1
    };
    if v == 0 {
        0
    } else {
        (v - 1) as u32
    }
}

/// `n + 1`, saturating.
pub open spec fn sat_inc(n: u32) -> u32 {
    if n == u32::MAX {
        u32::MAX
    } else {
        (n + 1) as u32
    }
}

/// The UTF-16 width of line `line`, or `fallback` when there is no such line.
pub open spec fn line_width(ix: IndexV, line: u32, fallback: u32) -> u32 {
    if line < ix.raw_lines.len() {
        clamp_u32(utf16_units(ix.raw_lines[line as int]) as int)
    } else {
        fallback
    }
}

/// The span covering the document's first line.
pub open spec fn first_line_span_of(ix: IndexV) -> Span {
    Span { line: 0, start: 0, end: line_width(ix, 0, 0) }
}

/// Where a positioned syntax error is underlined: from its column to the end
/// of its line, and at least one unit wide.
pub open spec fn syntax_span(ix: IndexV, location: Location) -> Span {
    let line = zero_based(location.line);
    let column = zero_based(location.column);
    let width = line_width(ix, line, sat_inc(column));
    Span {
        line,
        start: column,
        end: if width >= sat_inc(column) {
            width
        } else {
            sat_inc(column)
        },
    }
}

/// Where an unpositioned parse error is underlined: on the first reference to
/// the node it could not resolve, else at the start of the document.
pub open spec fn reference_span(ix: IndexV, error: ParseError) -> Span {
    let fallback = Span { line: 0, start: 0, end: 0 };
    match error {
        ParseError::UnresolvedReference { reference, .. } => {
            let k = first_match(ix.symbols, refers_pred(reference@));
            if k < ix.symbols.len() {
                ix.symbols[k].span
            } else {
                fallback
            }
        },
        _ => fallback,
    }
}

/// Where a parse error is underlined.
pub open spec fn parse_error_span(ix: IndexV, error: ParseError) -> Span {
    match error {
        ParseError::Syntax { location, .. } => syntax_span(ix, location),
        _ => reference_span(ix, error),
    }
}

/// The message of a parse error, its hint appended after a blank line.
pub open spec fn parse_error_message(error: ParseError) -> Seq<char> {
    match error.hint() {
        Some(h) => error.text() + "\n\n"@ + h,
        None => error.text(),
    }
}

/// The span covering the document's first line.
pub fn first_line_span(index: &DocumentIndex) -> (s: Span)
    ensures
        s == first_line_span_of(index@),
{
    let width = match index.raw_line(0) {
        Some(line) => utf16_len(line),
        None => 0,
    };
    Span::new(0, 0, width)
}

/// Locates an unresolved-reference error on the endpoint that failed. Such
/// errors carry no line or column, but the offending text is known.
pub fn unresolved_reference_span(error: &ParseError, index: &DocumentIndex) -> (s: Span)
    ensures
        s == reference_span(index@, *error),
{
    if let ParseError::UnresolvedReference { reference, .. } = error {
        let ghost p = refers_pred(reference@);
        let ghost syms = index@.symbols;
        let symbols = index.symbols();
        let ghost fallback = Span { line: 0, start: 0, end: 0 };
        assert(reference_span(index@, *error) == if first_match(syms, p) < syms.len() {
            syms[first_match(syms, p)].span
        } else {
            fallback
        });
        let mut i: usize = 0;
        while i < symbols.len()
            invariant
                i <= symbols.len(),
                reference_span(index@, *error) == if first_match(syms, p) < syms.len() {
                    syms[first_match(syms, p)].span
                } else {
                    fallback
                },
                syms == index@.symbols,
                crate::index::symbols_view(symbols@) == syms,
                p == refers_pred(reference@),
                forall|j: int| 0 <= j < i ==> !p(#[trigger] syms[j]),
            decreases symbols.len() - i,
        {
            let symbol = &symbols[i];
            assert(syms[i as int] == symbol@);
            let is_reference = match symbol.kind {
                SymbolKind::NodeReference(_) => true,
                _ => false,
            };
            if is_reference && str_eq(symbol.text.as_str(), reference.as_str()) {
                proof {
                    assert(p(syms[i as int]));
                    crate::seqs::lemma_first_match_is(syms, p, i as int);
                }
                return symbol.span;
            }
            i = i + 1;
        }
        proof {
            crate::seqs::lemma_first_match_is(syms, p, i as int);
        }
    }
    Span::line_start(0)
}

/// `n - 1` for a 1-indexed position, read into `u32`.
fn zero_based_exec(n: usize) -> (r: u32)
    ensures
        r == zero_based(n),
{
    let v: u32 = if n <= u32::MAX as usize {
        n as u32
    } else {
        1
    };
    v.saturating_sub(1)
}

/// Converts a parse failure into a located diagnostic. The parser reports
/// 1-indexed positions; editors count from zero.
pub fn from_parse_error(error: &ParseError, index: &DocumentIndex) -> (d: Diagnostic)
    ensures
        d@ == (DiagnosticV {
            span: parse_error_span(index@, *error),
            severity: Severity::Error,
            code: "syntax"@,
            message: parse_error_message(*error),
            related: Seq::empty(),
        }),
{
    let span = match error.location() {
        Some(location) => {
            let line = zero_based_exec(location.line);
            let column = zero_based_exec(location.column);
            let next = column.saturating_add(1);
            let width = match index.raw_line(line) {
                Some(text) => utf16_len(text),
                None => next,
            };
            Span::new(line, column, if width >= next {
                width
            } else {
                next
            })
        },
        None => unresolved_reference_span(error, index),
    };
    let text = error.describe();
    let message = match error.suggestion() {
        Some(hint) => {
            let m = concat_strs(&[text.as_str(), "\n\n", hint]);
            proof {
                reveal_with_fuel(joined, 4);
            }
            m
        },
        None => text,
    };
    let d = Diagnostic {
        span,
        severity: Severity::Error,
        code: owned("syntax"),
        message,
        related: Vec::new(),
    };
    assert(d@.related =~= Seq::<(Seq<char>, Span)>::empty());
    d
}

/// The span of the first declaration of `name`, if it is declared.
pub open spec fn node_span(ix: IndexV, name: Seq<char>) -> Option<Span> {
    let k = first_match(ix.nodes, named_pred(name));
    if k < ix.nodes.len() {
        Some(ix.nodes[k].name_span)
    } else {
        None
    }
}

/// The declaration spans of those of `names` that are declared, in order.
pub open spec fn found_spans(ix: IndexV, names: Seq<Seq<char>>) -> Seq<Span>
    decreases names.len(),
{
    if names.len() == 0 {
        Seq::empty()
    } else {
        found_spans(ix, names.drop_last()) + match node_span(ix, names.last()) {
            Some(s) => seq![s],
            None => Seq::empty(),
        }
    }
}

/// The earliest span in document order, if there is one.
pub open spec fn least_span(spans: Seq<Span>) -> Option<Span>
    decreases spans.len(),
{
    if spans.len() == 0 {
        None
    } else {
        match least_span(spans.drop_last()) {
            Some(m) => if span_le(m, spans.last()) {
                Some(m)
            } else {
                Some(spans.last())
            },
            None => Some(spans.last()),
        }
    }
}

/// Where a finding about `subject` is underlined.
pub open spec fn anchor_spec(ix: IndexV, subject: SubjectV) -> Span {
    match subject {
        SubjectV::Node { name, .. } => match node_span(ix, name) {
            Some(s) => s,
            None => first_line_span_of(ix),
        },
        SubjectV::Relationship { source, target } => {
            let k = first_match(ix.relationships, connects_pred(source, target));
            if k < ix.relationships.len() {
                anchor_span_of(ix.relationships[k])
            } else {
                first_line_span_of(ix)
            }
        },
        SubjectV::NodeSet { names } => match least_span(found_spans(ix, names)) {
            Some(s) => s,
            None => first_line_span_of(ix),
        },
        _ => first_line_span_of(ix),
    }
}

/// The related locations of a cycle: each declared participant, named.
pub open spec fn cycle_members(ix: IndexV, names: Seq<Seq<char>>) -> Seq<(Seq<char>, Span)>
    decreases names.len(),
{
    if names.len() == 0 {
        Seq::empty()
    } else {
        cycle_members(ix, names.drop_last()) + match node_span(ix, names.last()) {
            Some(s) => seq![("`"@ + names.last() + "` participates in this cycle"@, s)],
            None => Seq::empty(),
        }
    }
}

/// The additional locations implicated in a finding about `subject`.
pub open spec fn related_spec(ix: IndexV, subject: SubjectV) -> Seq<(Seq<char>, Span)> {
    match subject {
        SubjectV::NodeSet { names } => cycle_members(ix, names),
        _ => Seq::empty(),
    }
}

/// The span of the first declaration of `name`.
fn node_span_exec(index: &DocumentIndex, name: &str) -> (r: Option<Span>)
    ensures
        r == node_span(index@, name@),
{
    match index.node_named(name) {
        Some(node) => Some(node.name_span),
        None => None,
    }
}

/// Finds the span a validator subject should be underlined at.
pub fn anchor(index: &DocumentIndex, subject: &Subject) -> (s: Span)
    ensures
        s == anchor_spec(index@, subject@),
{
    match subject {
        Subject::Node { name, .. } => match node_span_exec(index, name.as_str()) {
            Some(s) => s,
            None => first_line_span(index),
        },
        Subject::Relationship { source, target } => match index.relationship_between(
            source.as_str(),
            target.as_str(),
        ) {
            Some(e) => e.anchor_span(),
            None => first_line_span(index),
        },
        Subject::NodeSet { names } => {
            let ghost ns = names@.map_values(|n: String| n@);
            let mut best: Option<Span> = None;
            let mut i: usize = 0;
            while i < names.len()
                invariant
                    i <= names.len(),
                    ns == names@.map_values(|n: String| n@),
                    best == least_span(found_spans(index@, ns.take(i as int))),
                decreases names.len() - i,
            {
                assert(ns.take(i + 1).drop_last() =~= ns.take(i as int));
                let found = node_span_exec(index, names[i].as_str());
                let ghost before = found_spans(index@, ns.take(i as int));
                match found {
                    Some(s) => {
                        assert(found_spans(index@, ns.take(i + 1)) =~= before.push(s));
                        assert(before.push(s).drop_last() =~= before);
                        best = match best {
                            Some(m) => if crate::navigation::span_le_exec(m, s) {
                                Some(m)
                            } else {
                                Some(s)
                            },
                            None => Some(s),
                        };
                    },
                    None => {
                        assert(found_spans(index@, ns.take(i + 1)) =~= before);
                    },
                }
                i = i + 1;
            }
            assert(ns.take(i as int) =~= ns);
            match best {
                Some(s) => s,
                None => first_line_span(index),
            }
        },
        _ => first_line_span(index),
    }
}

/// The additional locations implicated in a finding: every declared member
/// of a cycle, since the author must see all of them to choose which edge to
/// break.
pub fn related_locations(index: &DocumentIndex, subject: &Subject) -> (r: Vec<(String, Span)>)
    ensures
        r@.map_values(|e: (String, Span)| (e.0@, e.1)) == related_spec(index@, subject@),
{
    let mut r: Vec<(String, Span)> = Vec::new();
    if let Subject::NodeSet { names } = subject {
        let ghost ns = names@.map_values(|n: String| n@);
        let mut i: usize = 0;
        while i < names.len()
            invariant
                i <= names.len(),
                ns == names@.map_values(|n: String| n@),
                r@.map_values(|e: (String, Span)| (e.0@, e.1)) == cycle_members(
                    index@,
                    ns.take(i as int),
                ),
            decreases names.len() - i,
        {
            assert(ns.take(i + 1).drop_last() =~= ns.take(i as int));
            let ghost before = r@;
            match node_span_exec(index, names[i].as_str()) {
                Some(s) => {
                    let text = concat_strs(&["`", names[i].as_str(), "` participates in this cycle"]);
                    proof {
                        reveal_with_fuel(joined, 4);
                    }
                    r.push((text, s));
                    assert(r@.map_values(|e: (String, Span)| (e.0@, e.1)) =~= before.map_values(
                        |e: (String, Span)| (e.0@, e.1),
                    ).push((text@, s)));
                },
                None => {},
            }
            i = i + 1;
        }
        assert(ns.take(i as int) =~= ns);
        return r;
    }
    assert(r@.map_values(|e: (String, Span)| (e.0@, e.1)) =~= Seq::<(Seq<char>, Span)>::empty());
    r
}

/// The message shown for a finding: its suggestion, if any, follows a blank
/// line.
pub open spec fn finding_message(f: FindingV) -> Seq<char> {
    match f.suggestion {
        Some(h) => f.message + "\n\nSuggestion: "@ + h,
        None => f.message,
    }
}

/// A validator finding, located in the document.
pub open spec fn locate_spec(ix: IndexV, f: FindingV) -> DiagnosticV {
    DiagnosticV {
        span: anchor_spec(ix, f.subject),
        severity: severity_of(f.severity),
        code: f.rule,
        message: finding_message(f),
        related: related_spec(ix, f.subject),
    }
}

/// Locates one validator finding in the document.
pub fn locate(index: &DocumentIndex, finding: &Finding) -> (d: Diagnostic)
    ensures
        d@ == locate_spec(index@, finding@),
{
    let message = match &finding.suggestion {
        Some(hint) => {
            let m = concat_strs(&[finding.message.as_str(), "\n\nSuggestion: ", hint.as_str()]);
            proof {
                reveal_with_fuel(joined, 4);
            }
            m
        },
        None => owned(finding.message.as_str()),
    };
    Diagnostic {
        span: anchor(index, &finding.subject),
        severity: Severity::from(finding.severity),
        code: owned(finding.rule.as_str()),
        message,
        related: related_locations(index, &finding.subject),
    }
}

/// Locates every finding of a report, in rule order.
pub fn locate_report(index: &DocumentIndex, report: &Report) -> (r: Vec<Diagnostic>)
    ensures
        r@.map_values(|d: Diagnostic| d@) == report@.map_values(|f: FindingV| locate_spec(index@, f)),
{
    let mut r: Vec<Diagnostic> = Vec::new();
    let mut i: usize = 0;
    while i < report.diagnostics.len()
        invariant
            i <= report.diagnostics.len(),
            r@.len() == i,
            forall|j: int| 0 <= j < i ==> #[trigger] r@[j]@ == locate_spec(index@, report@[j]),
        decreases report.diagnostics.len() - i,
    {
        r.push(locate(index, &report.diagnostics[i]));
        i = i + 1;
    }
    assert(r@.map_values(|d: Diagnostic| d@) =~= report@.map_values(
        |f: FindingV| locate_spec(index@, f),
    ));
    r
}

/// Whether any of `diagnostics` blocks the document from being used.
pub fn has_errors(diagnostics: &[Diagnostic]) -> (b: bool)
    ensures
        b == exists|i: int| 0 <= i < diagnostics@.len() && #[trigger] diagnostics@[i].severity
            == Severity::Error,
{
    let mut i: usize = 0;
    while i < diagnostics.len()
        invariant
            i <= diagnostics.len(),
            forall|j: int| 0 <= j < i ==> diagnostics@[j].severity != Severity::Error,
        decreases diagnostics.len() - i,
    {
        if diagnostics[i].severity == Severity::Error {
            return true;
        }
        i = i + 1;
    }
    false
}

/// The located diagnostic for a parse failure.
pub open spec fn parse_error_diagnostic(ix: IndexV, error: ParseError) -> DiagnosticV {
    DiagnosticV {
        span: parse_error_span(ix, error),
        severity: Severity::Error,
        code: "syntax"@,
        message: parse_error_message(error),
        related: Seq::empty(),
    }
}

/// The outcome of analysing a document: the architecture it describes, when
/// it parses, and every finding, located.
pub struct Analysis {
    /// The resolved architecture, when the document parses.
    pub architecture: Option<Architecture>,
    /// Every finding, in rule order.
    pub diagnostics: Vec<Diagnostic>,
}

impl Analysis {
    /// Whether anything blocks the document from being used.
    pub fn has_errors(&self) -> (b: bool)
        ensures
            b == exists|i: int| 0 <= i < self.diagnostics@.len() && #[trigger] self.diagnostics@[i].severity
                == Severity::Error,
    {
        has_errors(self.diagnostics.as_slice())
    }
}

/// The views of located diagnostics.
pub open spec fn located(ds: Seq<Diagnostic>) -> Seq<DiagnosticV> {
    ds.map_values(|d: Diagnostic| d@)
}

/// The validator's findings on `a` under `config`, located in the document.
pub open spec fn findings_located(ix: IndexV, a: ArchitectureV, config: ConfigV, patterns: Seq<PatternV>) -> Seq<
    DiagnosticV,
> {
    built_in_findings(context_of(a, config, patterns)).map_values(|f: FindingV| locate_spec(ix, f))
}

/// The architecture a parse gave, if it succeeded.
pub open spec fn parsed_architecture(parsed: Result<Architecture, ParseError>) -> Option<ArchitectureV> {
    match parsed {
        Ok(a) => Some(a@),
        Err(_) => None,
    }
}

/// The located diagnostics of a document, from what parsing it gave.
pub open spec fn analysis_diagnostics(
    parsed: Result<Architecture, ParseError>,
    ix: IndexV,
    config: ConfigV,
    patterns: Seq<PatternV>,
) -> Seq<DiagnosticV> {
    match parsed {
        Err(e) => seq![parse_error_diagnostic(ix, e)],
        Ok(a) => findings_located(ix, a@, config, patterns),
    }
}

/// Analyses a document from what parsing it gave: a document that does not
/// parse yields its one syntax diagnostic and no architecture; one that does
/// is validated with the built-in rules under `config`, each finding located
/// in the text. Never fails.
pub fn analyse(
    parsed: Result<Architecture, ParseError>,
    index: &DocumentIndex,
    config: &ValidatorConfig,
    patterns: &[Pattern],
) -> (a: Analysis)
    requires
        parsed matches Ok(arch) ==> arch@.nodes.len() < u32::MAX && arch@.relationships.len() < u32::MAX,
    ensures
        opt_architecture_view(a.architecture) == parsed_architecture(parsed),
        located(a.diagnostics@) == analysis_diagnostics(parsed, index@, config@, patterns@.map_values(|p: Pattern| p@)),
{
    match parsed {
        Err(error) => {
            let d = from_parse_error(&error, index);
            let diagnostics = vec![d];
            assert(located(diagnostics@) =~= seq![parse_error_diagnostic(index@, error)]);
            Analysis { architecture: None, diagnostics }
        },
        Ok(architecture) => {
            let report = validate_with_built_in(config, &architecture, patterns);
            let diagnostics = locate_report(index, &report);
            Analysis { architecture: Some(architecture), diagnostics }
        },
    }
}

/// The spans of `found_spans` are declaration spans of the index's nodes.
proof fn lemma_found_spans_within(ix: IndexV, names: Seq<Seq<char>>, n: nat)
    requires
        index_spans_before(ix, n),
    ensures
        forall|i: int| 0 <= i < found_spans(ix, names).len() ==> (#[trigger] found_spans(ix, names)[i]).line < n,
    decreases names.len(),
{
    if names.len() > 0 {
        lemma_found_spans_within(ix, names.drop_last(), n);
        lemma_node_span_within(ix, names.last(), n);
        let a = found_spans(ix, names.drop_last());
        let b = match node_span(ix, names.last()) {
            Some(s) => seq![s],
            None => Seq::<Span>::empty(),
        };
        assert forall|i: int| 0 <= i < (a + b).len() implies (#[trigger] (a + b)[i]).line < n by {
            if i < a.len() {
                assert((a + b)[i] == a[i]);
            } else {
                assert((a + b)[i] == b[i - a.len()]);
            }
        }
    }
}

/// A node's declaration span lies within the first `n` lines.
proof fn lemma_node_span_within(ix: IndexV, name: Seq<char>, n: nat)
    requires
        index_spans_before(ix, n),
    ensures
        node_span(ix, name) matches Some(s) ==> s.line < n,
{
    lemma_first_match(ix.nodes, named_pred(name));
}

/// The earliest of some spans is one of them.
proof fn lemma_least_span_is_one(spans: Seq<Span>)
    ensures
        least_span(spans) matches Some(s) ==> exists|i: int| 0 <= i < spans.len() && spans[i] == s,
    decreases spans.len(),
{
    if spans.len() > 0 {
        lemma_least_span_is_one(spans.drop_last());
        if let Some(m) = least_span(spans.drop_last()) {
            let i = choose|i: int| 0 <= i < spans.drop_last().len() && spans.drop_last()[i] == m;
            assert(spans[i] == m);
        }
        assert(spans[spans.len() - 1] == spans.last());
    }
}

/// The related locations of a cycle lie within the first `n` lines.
proof fn lemma_cycle_members_within(ix: IndexV, names: Seq<Seq<char>>, n: nat)
    requires
        index_spans_before(ix, n),
    ensures
        forall|i: int| 0 <= i < cycle_members(ix, names).len() ==> (#[trigger] cycle_members(ix, names)[i]).1.line < n,
    decreases names.len(),
{
    if names.len() > 0 {
        lemma_cycle_members_within(ix, names.drop_last(), n);
        lemma_node_span_within(ix, names.last(), n);
        let a = cycle_members(ix, names.drop_last());
        let b = match node_span(ix, names.last()) {
            Some(s) => seq![("`"@ + names.last() + "` participates in this cycle"@, s)],
            None => Seq::<(Seq<char>, Span)>::empty(),
        };
        assert forall|i: int| 0 <= i < (a + b).len() implies (#[trigger] (a + b)[i]).1.line < n by {
            if i < a.len() {
                assert((a + b)[i] == a[i]);
            } else {
                assert((a + b)[i] == b[i - a.len()]);
            }
        }
    }
}

/// Every validator finding lands within the document it is about: where it
/// is underlined, and every related location, is on one of the document's
/// lines, for any document of at least one line.
pub proof fn law_findings_land_within_the_document(source: Seq<char>, finding: FindingV)
    requires
        index_spec(source).lines.len() > 0,
    ensures
        locate_spec(index_spec(source), finding).span.line < index_spec(source).lines.len(),
        forall|i: int|
            0 <= i < locate_spec(index_spec(source), finding).related.len() ==> (#[trigger] locate_spec(
                index_spec(source),
                finding,
            ).related[i]).1.line < index_spec(source).lines.len(),
{
    let ix = index_spec(source);
    let n = ix.lines.len();
    lemma_index_spans(source);
    match finding.subject {
        SubjectV::Node { name, .. } => {
            lemma_node_span_within(ix, name, n);
        },
        SubjectV::Relationship { source: from, target: to } => {
            lemma_first_match(ix.relationships, connects_pred(from, to));
        },
        SubjectV::NodeSet { names } => {
            lemma_found_spans_within(ix, names, n);
            lemma_least_span_is_one(found_spans(ix, names));
            lemma_cycle_members_within(ix, names, n);
        },
        _ => {},
    }
}

} // verus!

