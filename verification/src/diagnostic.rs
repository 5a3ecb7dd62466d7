//! The findings a validation run produces, and how they aggregate.
//!
//! A [`Severity`] maps onto a process exit code, so it is an answer to "should
//! this stop the pipeline?": an error means no, a warning means not yet, an
//! informational finding means never. [`Report::exit_code`] keeps that mapping
//! in one place.
use vstd::prelude::*;

use crate::chars::{concat_strs, join_strings, joined, joined_with, owned};
use crate::fmt::{decimal, decimal_string};

verus! {

/// How seriously a validation finding should be taken, from least to most.
#[derive(Clone, Copy, Debug, PartialEq, Eq, Structural, PartialOrd, Ord, Hash)]
pub enum Severity {
    /// Informational: worth knowing, never worth failing a build.
    Info,
    /// A risk or smell: the architecture is legal but probably wrong.
    Warning,
    /// A violation: the architecture is not fit to build against.
    Error,
}

/// The position of a severity in the order `Info < Warning < Error`.
pub open spec fn rank(s: Severity) -> nat {
    match s {
        Severity::Info => 0,
        Severity::Warning => 1,
        Severity::Error => 2,
    }
}

/// The canonical lowercase label of a severity.
pub open spec fn severity_label(s: Severity) -> Seq<char> {
    match s {
        Severity::Info => "info"@,
        Severity::Warning => "warning"@,
        Severity::Error => "error"@,
    }
}

impl Severity {
    /// The canonical lowercase label.
    pub fn label(self) -> (s: &'static str)
        ensures
            s@ == severity_label(self),
    {
        match self {
            Severity::Info => "info",
            Severity::Warning => "warning",
            Severity::Error => "error",
        }
    }

    /// The SARIF 2.1.0 level for this severity.
    pub fn sarif_level(self) -> (s: &'static str)
        ensures
            s@ == match self {
                Severity::Info => "note"@,
                Severity::Warning => "warning"@,
                Severity::Error => "error"@,
            },
    {
        match self {
            Severity::Info => "note",
            Severity::Warning => "warning",
            Severity::Error => "error",
        }
    }
}

/// An identifier of a node, carried through findings without being read.
#[derive(Clone, Copy, Debug, PartialEq, Eq, Structural, Hash)]
pub struct NodeId(pub u128);

/// The architectural element a finding is about.
#[derive(Clone, Debug, PartialEq, Eq)]
pub enum Subject {
    /// The architecture as a whole.
    Architecture,
    /// A single node.
    Node {
        /// The node's identifier.
        id: NodeId,
        /// The node's name, carried so output needs no second lookup.
        name: String,
    },
    /// A single relationship.
    Relationship {
        /// The source node's name.
        source: String,
        /// The target node's name.
        target: String,
    },
    /// A set of nodes that together form a problem, such as a dependency cycle.
    NodeSet {
        /// The participating node names, in a deterministic order.
        names: Vec<String>,
    },
    /// A pattern the architecture claims to conform to.
    Pattern {
        /// The `name@version` reference, as claimed.
        reference: String,
    },
}

/// The model of a [`Subject`].
pub enum SubjectV {
    Architecture,
    Node { id: NodeId, name: Seq<char> },
    Relationship { source: Seq<char>, target: Seq<char> },
    NodeSet { names: Seq<Seq<char>> },
    Pattern { reference: Seq<char> },
}

impl View for Subject {
    type V = SubjectV;

    open spec fn view(&self) -> SubjectV {
        match self {
            Subject::Architecture => SubjectV::Architecture,
            Subject::Node { id, name } => SubjectV::Node { id: *id, name: name@ },
            Subject::Relationship { source, target } => SubjectV::Relationship {
                source: source@,
                target: target@,
            },
            Subject::NodeSet { names } => SubjectV::NodeSet {
                names: names@.map_values(|n: String| n@),
            },
            Subject::Pattern { reference } => SubjectV::Pattern { reference: reference@ },
        }
    }
}

/// How a subject is named in output.
pub open spec fn subject_text(s: SubjectV) -> Seq<char> {
    match s {
        SubjectV::Architecture => "architecture"@,
        SubjectV::Node { name, .. } => "node '"@ + name + "'"@,
        SubjectV::Relationship { source, target } => "relationship '"@ + source + "' -> '"@
            + target + "'"@,
        SubjectV::NodeSet { names } => "nodes ["@ + joined_with(names, ", "@) + "]"@,
        SubjectV::Pattern { reference } => "pattern '"@ + reference + "'"@,
    }
}

impl Subject {
    /// Names the element: `node 'api'`, `relationship 'api' -> 'db'`,
    /// `nodes [a, b]`.
    pub fn describe(&self) -> (s: String)
        ensures
            s@ == subject_text(self@),
    {
        let s = match self {
            Subject::Architecture => owned("architecture"),
            Subject::Node { name, .. } => concat_strs(&["node '", name.as_str(), "'"]),
            Subject::Relationship { source, target } => concat_strs(
                &["relationship '", source.as_str(), "' -> '", target.as_str(), "'"],
            ),
            Subject::NodeSet { names } => {
                let list = join_strings(names.as_slice(), ", ");
                concat_strs(&["nodes [", list.as_str(), "]"])
            },
            Subject::Pattern { reference } => concat_strs(&["pattern '", reference.as_str(), "'"]),
        };
        proof {
            reveal_with_fuel(joined, 6);
        }
        s
    }
}

/// A single validation finding.
#[derive(Clone, Debug, PartialEq, Eq)]
pub struct Diagnostic {
    /// The stable identifier of the rule that produced this finding.
    pub rule: String,
    /// How seriously to take it.
    pub severity: Severity,
    /// What element it concerns.
    pub subject: Subject,
    /// What is wrong.
    pub message: String,
    /// What to do about it, when that can be stated concretely.
    pub suggestion: Option<String>,
}

/// The model of a [`Diagnostic`].
pub struct DiagnosticV {
    pub rule: Seq<char>,
    pub severity: Severity,
    pub subject: SubjectV,
    pub message: Seq<char>,
    pub suggestion: Option<Seq<char>>,
}

impl View for Diagnostic {
    type V = DiagnosticV;

    open spec fn view(&self) -> DiagnosticV {
        DiagnosticV {
            rule: self.rule@,
            severity: self.severity,
            subject: self.subject@,
            message: self.message@,
            suggestion: match self.suggestion {
                Some(s) => Some(s@),
                None => None,
            },
        }
    }
}

/// A finding rendered the way a compiler would:
/// `error[rule]: subject: message`, then an indented help line if there is a
/// suggestion.
pub open spec fn render_text(d: DiagnosticV) -> Seq<char> {
    severity_label(d.severity) + "["@ + d.rule + "]: "@ + subject_text(d.subject) + ": "@
        + d.message + match d.suggestion {
        Some(h) => "\n  help: "@ + h,
        None => Seq::empty(),
    }
}

impl Diagnostic {
    /// A finding with no suggestion.
    pub fn new(rule: &str, severity: Severity, subject: Subject, message: &str) -> (d: Self)
        ensures
            d@ == (DiagnosticV {
                rule: rule@,
                severity,
                subject: subject@,
                message: message@,
                suggestion: None,
            }),
    {
        Diagnostic { rule: owned(rule), severity, subject, message: owned(message), suggestion: None }
    }

    /// Attaches an actionable fix hint.
    pub fn with_suggestion(self, suggestion: &str) -> (d: Self)
        ensures
            d@ == (DiagnosticV { suggestion: Some(suggestion@), ..self@ }),
    {
        let mut d = self;
        d.suggestion = Some(owned(suggestion));
        d
    }

    /// Renders the finding the way a compiler would.
    pub fn render(&self) -> (s: String)
        ensures
            s@ == render_text(self@),
    {
        let subject = self.subject.describe();
        let head = concat_strs(
            &[
                self.severity.label(),
                "[",
                self.rule.as_str(),
                "]: ",
                subject.as_str(),
                ": ",
                self.message.as_str(),
            ],
        );
        proof {
            reveal_with_fuel(joined, 8);
        }
        match &self.suggestion {
            Some(hint) => {
                let s = concat_strs(&[head.as_str(), "\n  help: ", hint.as_str()]);
                proof {
                    reveal_with_fuel(joined, 4);
                }
                s
            },
            None => {
                assert(head@ =~= render_text(self@));
                head
            },
        }
    }
}

/// How many findings are at `severity`.
pub open spec fn count_at(ds: Seq<DiagnosticV>, severity: Severity) -> nat
    decreases ds.len(),
{
    if ds.len() == 0 {
        0
    } else {
        count_at(ds.drop_last(), severity) + if ds.last().severity == severity {
            1nat
        } else {
            0nat
        }
    }
}

/// Whether any finding is at `severity`.
pub open spec fn any_at(ds: Seq<DiagnosticV>, severity: Severity) -> bool {
    exists|i: int| 0 <= i < ds.len() && #[trigger] ds[i].severity == severity
}

/// The more serious of an optional severity and a severity.
pub open spec fn worse(w: Option<Severity>, s: Severity) -> Option<Severity> {
    match w {
        Some(v) => if rank(v) >= rank(s) {
            Some(v)
        } else {
            Some(s)
        },
        None => Some(s),
    }
}

/// The most serious severity among the findings, if there are any.
pub open spec fn worst(ds: Seq<DiagnosticV>) -> Option<Severity>
    decreases ds.len(),
{
    if ds.len() == 0 {
        None
    } else {
        worse(worst(ds.drop_last()), ds.last().severity)
    }
}

/// The exit code the worst finding implies: 2 for an error, 1 for a warning,
/// 0 otherwise.
pub open spec fn exit_code_of(ds: Seq<DiagnosticV>) -> i32 {
    match worst(ds) {
        Some(Severity::Error) => 2,
        Some(Severity::Warning) => 1,
        _ => 0,
    }
}

/// The one-line summary of a set of findings.
pub open spec fn summary_text(ds: Seq<DiagnosticV>) -> Seq<char> {
    if ds.len() == 0 {
        "architecture is valid: 0 errors, 0 warnings"@
    } else {
        decimal(count_at(ds, Severity::Error)) + " error(s), "@ + decimal(
            count_at(ds, Severity::Warning),
        ) + " warning(s), "@ + decimal(count_at(ds, Severity::Info)) + " info"@
    }
}

/// The complete result of a validation run.
#[derive(Clone, Debug, PartialEq, Eq)]
pub struct Report {
    /// Every finding, in rule-execution order.
    pub diagnostics: Vec<Diagnostic>,
}

impl View for Report {
    type V = Seq<DiagnosticV>;

    open spec fn view(&self) -> Seq<DiagnosticV> {
        self.diagnostics@.map_values(|d: Diagnostic| d@)
    }
}

impl Report {
    /// An empty report.
    pub fn new() -> (r: Self)
        ensures
            r@ == Seq::<DiagnosticV>::empty(),
    {
        let r = Report { diagnostics: Vec::new() };
        assert(r@ =~= Seq::<DiagnosticV>::empty());
        r
    }

    /// Counts the findings at `severity`.
    pub fn count(&self, severity: Severity) -> (n: usize)
        ensures
            n == count_at(self@, severity),
    {
        let ghost ds = self@;
        let mut n: usize = 0;
        let mut i: usize = 0;
        while i < self.diagnostics.len()
            invariant
                i <= self.diagnostics.len(),
                ds == self@,
                n == count_at(ds.take(i as int), severity),
                n <= i,
            decreases self.diagnostics.len() - i,
        {
            assert(ds.take(i + 1).drop_last() =~= ds.take(i as int));
            assert(ds[i as int] == self.diagnostics@[i as int]@);
            if self.diagnostics[i].severity == severity {
                n = n + 1;
            }
            i = i + 1;
        }
        assert(ds.take(i as int) =~= ds);
        n
    }

    /// Whether any finding is at `severity`.
    fn any(&self, severity: Severity) -> (b: bool)
        ensures
            b == any_at(self@, severity),
    {
        let ghost ds = self@;
        let mut i: usize = 0;
        while i < self.diagnostics.len()
            invariant
                i <= self.diagnostics.len(),
                ds == self@,
                forall|j: int| 0 <= j < i ==> ds[j].severity != severity,
            decreases self.diagnostics.len() - i,
        {
            assert(ds[i as int] == self.diagnostics@[i as int]@);
            if self.diagnostics[i].severity == severity {
                return true;
            }
            i = i + 1;
        }
        false
    }

    /// Whether any finding is an error.
    pub fn has_errors(&self) -> (b: bool)
        ensures
            b == any_at(self@, Severity::Error),
    {
        self.any(Severity::Error)
    }

    /// Whether any finding is a warning.
    pub fn has_warnings(&self) -> (b: bool)
        ensures
            b == any_at(self@, Severity::Warning),
    {
        self.any(Severity::Warning)
    }

    /// Whether nothing at all was found.
    pub fn is_clean(&self) -> (b: bool)
        ensures
            b == (self@.len() == 0),
    {
        self.diagnostics.len() == 0
    }

    /// The findings at `severity`, in order.
    pub fn at(&self, severity: Severity) -> (r: Vec<&Diagnostic>)
        ensures
            r@.map_values(|d: &Diagnostic| d@) == self@.filter(
                |d: DiagnosticV| d.severity == severity,
            ),
    {
        let ghost ds = self@;
        let ghost p = |d: DiagnosticV| d.severity == severity;
        let mut r: Vec<&Diagnostic> = Vec::new();
        let mut i: usize = 0;
        while i < self.diagnostics.len()
            invariant
                i <= self.diagnostics.len(),
                ds == self@,
                p == (|d: DiagnosticV| d.severity == severity),
                r@.map_values(|d: &Diagnostic| d@) == ds.take(i as int).filter(p),
            decreases self.diagnostics.len() - i,
        {
            let d = &self.diagnostics[i];
            assert(ds[i as int] == d@);
            let ghost before = r@;
            if d.severity == severity {
                r.push(d);
            }
            proof {
                reveal_with_fuel(Seq::<_>::filter, 1);
                assert(ds.take(i + 1).drop_last() =~= ds.take(i as int));
                assert(r@.map_values(|d: &Diagnostic| d@) =~= if p(ds[i as int]) {
                    before.map_values(|d: &Diagnostic| d@).push(ds[i as int])
                } else {
                    before.map_values(|d: &Diagnostic| d@)
                });
            }
            i = i + 1;
        }
        assert(ds.take(i as int) =~= ds);
        r
    }

    /// The process exit code this report implies: 0 when clean or only
    /// informational, 1 for warnings, 2 for errors.
    pub fn exit_code(&self) -> (c: i32)
        ensures
            c == exit_code_of(self@),
    {
        let ghost ds = self@;
        let mut w: Option<Severity> = None;
        let mut i: usize = 0;
        while i < self.diagnostics.len()
            invariant
                i <= self.diagnostics.len(),
                ds == self@,
                w == worst(ds.take(i as int)),
            decreases self.diagnostics.len() - i,
        {
            assert(ds.take(i + 1).drop_last() =~= ds.take(i as int));
            assert(ds[i as int] == self.diagnostics@[i as int]@);
            let s = self.diagnostics[i].severity;
            w = match w {
                Some(v) => if severity_rank(v) >= severity_rank(s) {
                    Some(v)
                } else {
                    Some(s)
                },
                None => Some(s),
            };
            i = i + 1;
        }
        assert(ds.take(i as int) =~= ds);
        match w {
            Some(Severity::Error) => 2,
            Some(Severity::Warning) => 1,
            _ => 0,
        }
    }

    /// Appends a finding.
    pub fn push(&mut self, diagnostic: Diagnostic)
        ensures
            final(self)@ == old(self)@.push(diagnostic@),
    {
        self.diagnostics.push(diagnostic);
        assert(self@ =~= old(self)@.push(diagnostic@));
    }

    /// Merges another report into this one, keeping both orders.
    pub fn extend(&mut self, other: Report)
        ensures
            final(self)@ == old(self)@ + other@,
    {
        let ghost incoming = other@;
        let mut other = other;
        self.diagnostics.append(&mut other.diagnostics);
        assert(self@ =~= old(self)@ + incoming);
    }

    /// Renders every finding, one per stanza.
    pub fn render(&self) -> (s: String)
        ensures
            s@ == joined_with(self@.map_values(|d: DiagnosticV| render_text(d)), "\n"@),
    {
        let mut parts: Vec<String> = Vec::new();
        let mut i: usize = 0;
        while i < self.diagnostics.len()
            invariant
                i <= self.diagnostics.len(),
                parts@.len() == i,
                forall|j: int| 0 <= j < i ==> #[trigger] parts@[j]@ == render_text(self@[j]),
            decreases self.diagnostics.len() - i,
        {
            parts.push(self.diagnostics[i].render());
            i = i + 1;
        }
        let s = join_strings(parts.as_slice(), "\n");
        assert(parts@.map_values(|p: String| p@) =~= self@.map_values(
            |d: DiagnosticV| render_text(d),
        ));
        s
    }

    /// A one-line summary for the last line of CI output.
    pub fn summary(&self) -> (s: String)
        ensures
            s@ == summary_text(self@),
    {
        if self.is_clean() {
            return owned("architecture is valid: 0 errors, 0 warnings");
        }
        let e = decimal_string(self.count(Severity::Error) as u64);
        let w = decimal_string(self.count(Severity::Warning) as u64);
        let n = decimal_string(self.count(Severity::Info) as u64);
        let s = concat_strs(
            &[e.as_str(), " error(s), ", w.as_str(), " warning(s), ", n.as_str(), " info"],
        );
        proof {
            reveal_with_fuel(joined, 7);
        }
        s
    }
}

/// [`rank`], computed.
fn severity_rank(s: Severity) -> (r: u8)
    ensures
        r == rank(s),
{
    match s {
        Severity::Info => 0,
        Severity::Warning => 1,
        Severity::Error => 2,
    }
}

/// The worst finding is an error exactly when some finding is, and a warning
/// exactly when some finding is a warning and none is an error.
proof fn lemma_worst(ds: Seq<DiagnosticV>)
    ensures
        worst(ds) == Some(Severity::Error) <==> any_at(ds, Severity::Error),
        worst(ds) == Some(Severity::Warning) <==> (!any_at(ds, Severity::Error) && any_at(
            ds,
            Severity::Warning,
        )),
        worst(ds) is None <==> ds.len() == 0,
    decreases ds.len(),
{
    if ds.len() > 0 {
        let init = ds.drop_last();
        lemma_worst(init);
        assert forall|s: Severity| any_at(ds, s) <==> (any_at(init, s) || ds.last().severity == s) by {
            if any_at(ds, s) {
                let i = choose|i: int| 0 <= i < ds.len() && #[trigger] ds[i].severity == s;
                if i < ds.len() - 1 {
                    assert(init[i].severity == s);
                }
            }
            if any_at(init, s) {
                let i = choose|i: int| 0 <= i < init.len() && #[trigger] init[i].severity == s;
                assert(ds[i].severity == s);
            }
            if ds.last().severity == s {
                assert(ds[ds.len() - 1].severity == s);
            }
        }
        assert(any_at(ds, Severity::Error) <==> (any_at(init, Severity::Error) || ds.last().severity == Severity::Error));
        assert(any_at(ds, Severity::Warning) <==> (any_at(init, Severity::Warning) || ds.last().severity == Severity::Warning));
    }
}

/// The exit code is decided by the worst finding: 2 exactly when there is an
/// error, 1 exactly when there are warnings but no error, 0 otherwise, and in
/// particular 0 for a clean report.
pub proof fn law_exit_code_follows_the_worst_finding(ds: Seq<DiagnosticV>)
    ensures
        exit_code_of(ds) == 2 <==> any_at(ds, Severity::Error),
        exit_code_of(ds) == 1 <==> (!any_at(ds, Severity::Error) && any_at(ds, Severity::Warning)),
        exit_code_of(ds) == 0 <==> (!any_at(ds, Severity::Error) && !any_at(
            ds,
            Severity::Warning,
        )),
        ds.len() == 0 ==> exit_code_of(ds) == 0,
{
    lemma_worst(ds);
}

/// Merging reports adds their counts at every severity.
pub proof fn law_extend_adds_counts(a: Seq<DiagnosticV>, b: Seq<DiagnosticV>, severity: Severity)
    ensures
        count_at(a + b, severity) == count_at(a, severity) + count_at(b, severity),
    decreases b.len(),
{
    if b.len() == 0 {
        assert(a + b =~= a);
    } else {
        assert((a + b).drop_last() =~= a + b.drop_last());
        law_extend_adds_counts(a, b.drop_last(), severity);
    }
}

/// Every finding is counted at exactly one severity.
pub proof fn law_counts_partition_the_findings(ds: Seq<DiagnosticV>)
    ensures
        count_at(ds, Severity::Info) + count_at(ds, Severity::Warning) + count_at(
            ds,
            Severity::Error,
        ) == ds.len(),
    decreases ds.len(),
{
    if ds.len() > 0 {
        law_counts_partition_the_findings(ds.drop_last());
    }
}

} // verus!
