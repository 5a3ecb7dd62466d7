//! Validation reports in the shape of SARIF 2.1.0, which CI dashboards and
//! code-scanning tools ingest: the tool driver with its rule catalogue, and
//! one result per finding. Only the subset of the format that carries
//! meaning here is produced.
use vstd::prelude::*;

use crate::chars::{concat_strs, joined, owned};
use crate::diagnostic::{Diagnostic, DiagnosticV, Report, Severity, Subject, SubjectV};
use crate::rules::Rule;
use crate::validator::built_in;

verus! {

/// The SARIF specification version emitted.
pub const SARIF_VERSION: &'static str = "2.1.0";

/// The canonical schema URL for SARIF 2.1.0.
pub const SARIF_SCHEMA: &'static str = "https://json.schemastore.org/sarif-2.1.0.json";

/// Where the tool and its rules are documented.
pub const INFORMATION_URI: &'static str = "https://github.com/casimirex/casm";

/// A named thing a finding is about, when there is no line to point at.
#[derive(Clone, Debug, PartialEq, Eq)]
pub struct LogicalLocation {
    /// The thing's name.
    pub name: String,
    /// What kind of thing it is: `module`, `resource`, `member` or
    /// `namespace`.
    pub kind: String,
}

/// The view of logical locations: name and kind of each.
pub open spec fn locations_view(ls: Seq<LogicalLocation>) -> Seq<(Seq<char>, Seq<char>)> {
    ls.map_values(|l: LogicalLocation| (l.name@, l.kind@))
}

/// The logical locations of a subject: the architecture as a module, a node
/// as a resource, a relationship as a member named `source -> target`, each
/// node of a set as a resource, a pattern as a namespace.
pub open spec fn subject_locations(s: SubjectV) -> Seq<(Seq<char>, Seq<char>)> {
    match s {
        SubjectV::Architecture => seq![("architecture"@, "module"@)],
        SubjectV::Node { name, .. } => seq![(name, "resource"@)],
        SubjectV::Relationship { source, target } => seq![(source + " -> "@ + target, "member"@)],
        SubjectV::NodeSet { names } => names.map_values(|n: Seq<char>| (n, "resource"@)),
        SubjectV::Pattern { reference } => seq![(reference, "namespace"@)],
    }
}

/// Maps a diagnostic subject onto SARIF logical locations.
pub fn logical_locations(subject: &Subject) -> (r: Vec<LogicalLocation>)
    ensures
        locations_view(r@) == subject_locations(subject@),
{
    let mut r: Vec<LogicalLocation> = Vec::new();
    match subject {
        Subject::Architecture => {
            r.push(LogicalLocation { name: owned("architecture"), kind: owned("module") });
        },
        Subject::Node { name, .. } => {
            r.push(LogicalLocation { name: owned(name.as_str()), kind: owned("resource") });
        },
        Subject::Relationship { source, target } => {
            let name = concat_strs(&[source.as_str(), " -> ", target.as_str()]);
            proof {
                reveal_with_fuel(joined, 4);
            }
            r.push(LogicalLocation { name, kind: owned("member") });
        },
        Subject::NodeSet { names } => {
            let ghost ns = names@.map_values(|n: String| n@);
            let mut i: usize = 0;
            while i < names.len()
                invariant
                    i <= names@.len(),
                    ns == names@.map_values(|n: String| n@),
                    locations_view(r@) == ns.take(i as int).map_values(|n: Seq<char>| (n, "resource"@)),
                decreases names@.len() - i,
            {
                let ghost before = locations_view(r@);
                r.push(LogicalLocation { name: owned(names[i].as_str()), kind: owned("resource") });
                assert(ns[i as int] == names@[i as int]@);
                assert(locations_view(r@) =~= before.push((ns[i as int], "resource"@)));
                assert(ns.take(i + 1).map_values(|n: Seq<char>| (n, "resource"@)) =~= ns.take(i as int).map_values(
                    |n: Seq<char>| (n, "resource"@),
                ).push((ns[i as int], "resource"@)));
                i = i + 1;
            }
            assert(ns.take(i as int) =~= ns);
        },
        Subject::Pattern { reference } => {
            r.push(LogicalLocation { name: owned(reference.as_str()), kind: owned("namespace") });
        },
    }
    assert(locations_view(r@) =~= subject_locations(subject@));
    r
}

/// One SARIF result: the finding's rule, level and message, the artifact it
/// was about, and the elements it names.
#[derive(Clone, Debug, PartialEq, Eq)]
pub struct SarifResult {
    pub rule_id: String,
    /// `error`, `warning`, or `note`.
    pub level: String,
    pub message: String,
    /// The path of the architecture file the run was about.
    pub artifact_uri: String,
    pub logical_locations: Vec<LogicalLocation>,
}

/// The model of a [`SarifResult`].
pub struct SarifResultV {
    pub rule_id: Seq<char>,
    pub level: Seq<char>,
    pub message: Seq<char>,
    pub artifact_uri: Seq<char>,
    pub logical_locations: Seq<(Seq<char>, Seq<char>)>,
}

impl View for SarifResult {
    type V = SarifResultV;

    open spec fn view(&self) -> SarifResultV {
        SarifResultV {
            rule_id: self.rule_id@,
            level: self.level@,
            message: self.message@,
            artifact_uri: self.artifact_uri@,
            logical_locations: locations_view(self.logical_locations@),
        }
    }
}

/// The SARIF level of a severity.
pub open spec fn sarif_level_of(s: Severity) -> Seq<char> {
    match s {
        Severity::Info => "note"@,
        Severity::Warning => "warning"@,
        Severity::Error => "error"@,
    }
}

/// The SARIF result for a finding about `artifact`. SARIF has no field for a
/// hint, so the suggestion is folded into the message rather than lost.
pub open spec fn result_of(d: DiagnosticV, artifact: Seq<char>) -> SarifResultV {
    SarifResultV {
        rule_id: d.rule,
        level: sarif_level_of(d.severity),
        message: match d.suggestion {
            Some(hint) => d.message + "\n\nSuggestion: "@ + hint,
            None => d.message,
        },
        artifact_uri: artifact,
        logical_locations: subject_locations(d.subject),
    }
}

/// Builds the SARIF result of one finding.
pub fn result(diagnostic: &Diagnostic, artifact: &str) -> (r: SarifResult)
    ensures
        r@ == result_of(diagnostic@, artifact@),
{
    let message = match &diagnostic.suggestion {
        Some(hint) => {
            let m = concat_strs(&[diagnostic.message.as_str(), "\n\nSuggestion: ", hint.as_str()]);
            proof {
                reveal_with_fuel(joined, 4);
            }
            m
        },
        None => owned(diagnostic.message.as_str()),
    };
    SarifResult {
        rule_id: owned(diagnostic.rule.as_str()),
        level: owned(diagnostic.severity.sarif_level()),
        message,
        artifact_uri: owned(artifact),
        logical_locations: logical_locations(&diagnostic.subject),
    }
}

/// One result per finding of `report`, in order.
pub fn results(report: &Report, artifact: &str) -> (r: Vec<SarifResult>)
    ensures
        r@.map_values(|x: SarifResult| x@) == report@.map_values(|d: DiagnosticV| result_of(d, artifact@)),
{
    let ghost ds = report@;
    let mut r: Vec<SarifResult> = Vec::new();
    let mut i: usize = 0;
    while i < report.diagnostics.len()
        invariant
            i <= report.diagnostics@.len(),
            ds == report@,
            ds.len() == report.diagnostics@.len(),
            r@.map_values(|x: SarifResult| x@) == ds.take(i as int).map_values(|d: DiagnosticV| result_of(d, artifact@)),
        decreases report.diagnostics@.len() - i,
    {
        let ghost before = r@.map_values(|x: SarifResult| x@);
        r.push(result(&report.diagnostics[i], artifact));
        assert(ds[i as int] == report.diagnostics@[i as int]@);
        assert(r@.map_values(|x: SarifResult| x@) =~= before.push(result_of(ds[i as int], artifact@)));
        assert(ds.take(i + 1).map_values(|d: DiagnosticV| result_of(d, artifact@)) =~= ds.take(i as int).map_values(
            |d: DiagnosticV| result_of(d, artifact@),
        ).push(result_of(ds[i as int], artifact@)));
        i = i + 1;
    }
    assert(ds.take(i as int) =~= ds);
    r
}

/// One entry of the rule catalogue.
#[derive(Clone, Debug, PartialEq, Eq)]
pub struct SarifRule {
    pub id: String,
    pub name: String,
    pub short_description: String,
    pub help_uri: String,
}

/// The rule catalogue of the tool driver: every built-in rule, whether or not
/// it fired, so a dashboard can show that a rule found nothing rather than
/// staying silent about a rule it has never seen. Each entry is named by its
/// identifier and documented at the project page's anchor for it.
pub fn driver_rules() -> (r: Vec<SarifRule>)
    ensures
        r@.len() == 9,
        forall|i: int|
            0 <= i < r@.len() ==> {
                &&& (#[trigger] r@[i]).name@ == r@[i].id@
                &&& r@[i].help_uri@ == INFORMATION_URI@ + "#"@ + r@[i].id@
            },
{
    let rules = built_in();
    let mut r: Vec<SarifRule> = Vec::new();
    let mut i: usize = 0;
    while i < rules.len()
        invariant
            i <= rules@.len(),
            rules@.len() == 9,
            r@.len() == i,
            forall|j: int|
                0 <= j < i ==> {
                    &&& (#[trigger] r@[j]).name@ == r@[j].id@
                    &&& r@[j].help_uri@ == INFORMATION_URI@ + "#"@ + r@[j].id@
                },
        decreases rules@.len() - i,
    {
        let id = rules[i].id();
        let help_uri = concat_strs(&[INFORMATION_URI, "#", id]);
        proof {
            reveal_with_fuel(joined, 4);
        }
        r.push(SarifRule {
            id: owned(id),
            name: owned(id),
            short_description: owned(rules[i].description()),
            help_uri,
        });
        i = i + 1;
    }
    r
}

} // verus!
