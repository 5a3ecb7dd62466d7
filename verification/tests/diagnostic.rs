use casm::record::Attributes;
use casm::diagnostic::{Diagnostic, NodeId, Report, Severity, Subject};

fn diagnostic(severity: Severity) -> Diagnostic {
    Diagnostic::new("test-rule", severity, Subject::Architecture, "something happened")
}

#[test]
fn severity_orders_from_least_to_most_serious() {
    assert!(Severity::Info < Severity::Warning);
    assert!(Severity::Warning < Severity::Error);
}

#[test]
fn severity_maps_onto_sarif_levels() {
    assert_eq!(Severity::Info.sarif_level(), "note");
    assert_eq!(Severity::Warning.sarif_level(), "warning");
    assert_eq!(Severity::Error.sarif_level(), "error");
}

#[test]
fn an_empty_report_is_clean_and_exits_zero() {
    let report = Report::new();
    assert!(report.is_clean());
    assert!(!report.has_errors());
    assert_eq!(report.exit_code(), 0);
}

#[test]
fn info_alone_still_exits_zero() {
    let mut report = Report::new();
    report.push(diagnostic(Severity::Info));
    assert!(!report.is_clean(), "there is a finding");
    assert_eq!(report.exit_code(), 0, "but nothing worth failing a build over");
}

#[test]
fn warnings_exit_one() {
    let mut report = Report::new();
    report.push(diagnostic(Severity::Warning));
    assert_eq!(report.exit_code(), 1);
}

#[test]
fn errors_exit_two_and_dominate_warnings() {
    let mut report = Report::new();
    report.push(diagnostic(Severity::Warning));
    report.push(diagnostic(Severity::Error));
    assert_eq!(report.exit_code(), 2, "the worst finding decides");
}

#[test]
fn counts_and_filters_agree() {
    let mut report = Report::new();
    report.push(diagnostic(Severity::Error));
    report.push(diagnostic(Severity::Warning));
    report.push(diagnostic(Severity::Warning));

    assert_eq!(report.count(Severity::Error), 1);
    assert_eq!(report.count(Severity::Warning), 2);
    assert_eq!(report.count(Severity::Info), 0);
    assert_eq!(report.at(Severity::Warning).len(), 2);
}

#[test]
fn extend_merges_and_preserves_order() {
    let mut first = Report::new();
    first.push(Diagnostic::new("a", Severity::Info, Subject::Architecture, "one"));

    let mut second = Report::new();
    second.push(Diagnostic::new("b", Severity::Info, Subject::Architecture, "two"));

    first.extend(second);
    assert_eq!(first.diagnostics.len(), 2);
    assert_eq!(first.diagnostics[0].rule, "a");
    assert_eq!(first.diagnostics[1].rule, "b");
}

#[test]
fn diagnostic_render_includes_rule_subject_and_severity() {
    let rendered = diagnostic(Severity::Error).render();
    assert!(rendered.starts_with("error[test-rule]:"), "{rendered}");
    assert!(rendered.contains("architecture"), "{rendered}");
}

#[test]
fn diagnostic_render_appends_a_help_line_when_present() {
    let rendered = diagnostic(Severity::Warning)
        .with_suggestion("do the thing")
        .render();
    assert!(rendered.ends_with("\n  help: do the thing"), "{rendered}");
}

#[test]
fn subject_display_names_the_element() {
    let node = Subject::Node {
        id: NodeId(7),
        name: "api".into(),
    };
    assert_eq!(node.describe(), "node 'api'");

    let edge = Subject::Relationship {
        source: "api".into(),
        target: "db".into(),
    };
    assert_eq!(edge.describe(), "relationship 'api' -> 'db'");

    let set = Subject::NodeSet {
        names: vec!["a".into(), "b".into()],
    };
    assert_eq!(set.describe(), "nodes [a, b]");
}

#[test]
fn clean_summary_says_so_plainly() {
    assert_eq!(
        Report::new().summary(),
        "architecture is valid: 0 errors, 0 warnings"
    );
}

#[test]
fn summary_counts_each_severity() {
    let mut report = Report::new();
    report.push(diagnostic(Severity::Error));
    report.push(diagnostic(Severity::Warning));
    assert_eq!(report.summary(), "1 error(s), 1 warning(s), 0 info");
}

#[test]
fn labels_name_each_severity() {
    assert_eq!(Severity::Info.label(), "info");
    assert_eq!(Severity::Warning.label(), "warning");
    assert_eq!(Severity::Error.label(), "error");
}

#[test]
fn a_pattern_subject_names_its_reference() {
    let subject = Subject::Pattern { reference: "three-tier@1.0.0".into() };
    assert_eq!(subject.describe(), "pattern 'three-tier@1.0.0'");
    assert_eq!(Subject::Architecture.describe(), "architecture");
}

#[test]
fn a_full_render_joins_stanzas_with_newlines() {
    let mut report = Report::new();
    report.push(Diagnostic::new(
        "no-dependency-cycles",
        Severity::Error,
        Subject::NodeSet { names: vec!["a".into(), "b".into()] },
        "form a blocking dependency cycle",
    )
    .with_suggestion("break the cycle"));
    report.push(Diagnostic::new("r", Severity::Info, Subject::Architecture, "m"));
    assert_eq!(
        report.render(),
        "error[no-dependency-cycles]: nodes [a, b]: form a blocking dependency cycle\n  help: break the cycle\ninfo[r]: architecture: m"
    );
    assert_eq!(Report::new().render(), "");
}

#[test]
fn findings_at_one_severity_keep_their_order() {
    let mut report = Report::new();
    report.push(Diagnostic::new("a", Severity::Warning, Subject::Architecture, "1"));
    report.push(Diagnostic::new("b", Severity::Error, Subject::Architecture, "2"));
    report.push(Diagnostic::new("c", Severity::Warning, Subject::Architecture, "3"));
    let warnings: Vec<&str> = report
        .at(Severity::Warning)
        .iter()
        .map(|d| d.rule.as_str())
        .collect();
    assert_eq!(warnings, ["a", "c"]);
    assert!(report.has_warnings());
    assert!(report.has_errors());
}
