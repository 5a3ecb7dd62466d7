use casm::record::Attributes;
use casm::diagnostic::{Diagnostic, NodeId, Report, Severity, Subject};
use casm::sarif::{
    driver_rules, logical_locations, result, results, LogicalLocation, SARIF_SCHEMA, SARIF_VERSION,
};
use casm::validator::built_in;

fn report_with(diagnostic: Diagnostic) -> Report {
    let mut report = Report::new();
    report.push(diagnostic);
    report
}

fn location(name: &str, kind: &str) -> LogicalLocation {
    LogicalLocation {
        name: name.to_owned(),
        kind: kind.to_owned(),
    }
}

#[test]
fn document_declares_the_schema_and_version() {
    assert_eq!(SARIF_VERSION, "2.1.0");
    assert_eq!(SARIF_SCHEMA, "https://json.schemastore.org/sarif-2.1.0.json");
}

#[test]
fn an_empty_report_still_produces_a_valid_run() {
    assert!(results(&Report::new(), "architecture.yaml").is_empty());
}

#[test]
fn the_driver_catalogues_every_built_in_rule() {
    let catalogue = driver_rules();
    assert_eq!(catalogue.len(), built_in().len());
    assert_eq!(catalogue[0].id, "no-dependency-cycles");
    assert_eq!(catalogue[0].name, "no-dependency-cycles");
    assert_eq!(
        catalogue[0].help_uri,
        "https://github.com/casimirex/casm#no-dependency-cycles"
    );
    assert!(catalogue.iter().all(|rule| !rule.short_description.is_empty()));
}

#[test]
fn severities_map_onto_sarif_levels() {
    for (severity, expected) in [
        (Severity::Error, "error"),
        (Severity::Warning, "warning"),
        (Severity::Info, "note"),
    ] {
        let report = report_with(Diagnostic::new("r", severity, Subject::Architecture, "message"));
        assert_eq!(results(&report, "a.yaml")[0].level, expected);
    }
}

#[test]
fn the_suggestion_is_folded_into_the_message() {
    let finding = Diagnostic::new("r", Severity::Error, Subject::Architecture, "broken")
        .with_suggestion("fix it like this");
    let text = result(&finding, "a.yaml").message;
    assert!(text.contains("broken"));
    assert!(text.contains("fix it like this"));
    assert_eq!(text, "broken\n\nSuggestion: fix it like this");
}

#[test]
fn the_artifact_path_is_recorded_on_every_result() {
    let report = report_with(Diagnostic::new("r", Severity::Error, Subject::Architecture, "m"));
    let sarif = results(&report, "systems/checkout.yaml");
    assert_eq!(sarif[0].artifact_uri, "systems/checkout.yaml");
    assert_eq!(sarif[0].rule_id, "r");
}

#[test]
fn a_node_subject_becomes_a_named_logical_location() {
    let subject = Subject::Node {
        id: NodeId(7),
        name: "orders-db".into(),
    };
    assert_eq!(logical_locations(&subject), vec![location("orders-db", "resource")]);
}

#[test]
fn a_node_set_produces_one_logical_location_per_member() {
    let subject = Subject::NodeSet {
        names: vec!["a".into(), "b".into(), "c".into()],
    };
    let locations = logical_locations(&subject);
    assert_eq!(locations.len(), 3);
    assert_eq!(locations[2], location("c", "resource"));
}

#[test]
fn a_relationship_subject_renders_as_an_arrow() {
    let subject = Subject::Relationship {
        source: "api".into(),
        target: "db".into(),
    };
    assert_eq!(logical_locations(&subject), vec![location("api -> db", "member")]);
}

#[test]
fn the_architecture_and_a_pattern_have_their_own_kinds() {
    assert_eq!(
        logical_locations(&Subject::Architecture),
        vec![location("architecture", "module")]
    );
    let pattern = Subject::Pattern {
        reference: "secure-web-tier@1.0.0".into(),
    };
    assert_eq!(
        logical_locations(&pattern),
        vec![location("secure-web-tier@1.0.0", "namespace")]
    );
}
