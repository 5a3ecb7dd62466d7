use casm::record::Attributes;
use casm::architecture::{
    Architecture, Control, ControlType, Interface, Node, NodeType, Protocol, Relationship,
    RelationshipType,
};
use casm::config::ValidatorConfig;
use casm::diagnostic::NodeId;
use casm::diagnostics::{analyse, Analysis, Severity};
use casm::error::{Location, ParseError};
use casm::index::DocumentIndex;

fn node(id: u128, name: &str, node_type: NodeType) -> Node {
    Node {
        id: NodeId(id),
        name: name.to_owned(),
        node_type,
        description: None,
        interfaces: Vec::new(),
        controls: Vec::new(),
        metadata: Attributes::new(),
    }
}

fn security(standard: &str, description: &str) -> Control {
    Control {
        control_type: ControlType::Security,
        standard: standard.to_owned(),
        description: description.to_owned(),
        evidence_required: false,
        tags: Vec::new(),
    }
}

fn edge(source: u128, target: u128, relationship_type: RelationshipType) -> Relationship {
    Relationship {
        source: NodeId(source),
        target: NodeId(target),
        relationship_type,
        protocol: None,
        latency_budget_ms: None,
        controls: Vec::new(),
    }
}

fn architecture(nodes: Vec<Node>, relationships: Vec<Relationship>) -> Architecture {
    Architecture {
        name: "x".to_owned(),
        version: "0.1.0".to_owned(),
        description: None,
        nodes,
        relationships,
        conformance: Vec::new(),
        metadata: Attributes::new(),
    }
}

fn run(source: &str, parsed: Result<Architecture, ParseError>) -> Analysis {
    let index = DocumentIndex::build(source);
    analyse(parsed, &index, &ValidatorConfig::default(), &[])
}

const CLEAN: &str = "\
name: checkout
version: 1.0.0
nodes:
  - name: gateway
    type: gateway
    interfaces:
      - name: public
        protocol: http2
        version: 1.0.0
    controls:
      - type: security
        standard: OIDC
        description: tokens required
      - type: security
        standard: TLS
        description: mutual TLS
  - name: orders-db
    type: database
    interfaces:
      - name: sql
        protocol: sql
        version: 16.0.0
    controls:
      - type: security
        standard: ENC
        description: encrypted at rest
relationships:
  - source: gateway
    target: orders-db
    type: sync
    protocol: sql
    latency-budget-ms: 40
";

fn clean() -> Architecture {
    let mut gateway = node(1, "gateway", NodeType::Gateway);
    gateway.interfaces.push(Interface {
        name: "public".to_owned(),
        protocol: Protocol::Http2,
        version: "1.0.0".to_owned(),
        schema_hash: None,
        description: None,
    });
    gateway.controls.push(security("OIDC", "tokens required"));
    gateway.controls.push(security("TLS", "mutual TLS"));
    let mut db = node(2, "orders-db", NodeType::Database);
    db.interfaces.push(Interface {
        name: "sql".to_owned(),
        protocol: Protocol::Sql,
        version: "16.0.0".to_owned(),
        schema_hash: None,
        description: None,
    });
    db.controls.push(security("ENC", "encrypted at rest"));
    let mut hop = edge(1, 2, RelationshipType::Sync);
    hop.protocol = Some(Protocol::Sql);
    hop.latency_budget_ms = Some(40);
    Architecture {
        name: "checkout".to_owned(),
        version: "1.0.0".to_owned(),
        description: None,
        nodes: vec![gateway, db],
        relationships: vec![hop],
        conformance: Vec::new(),
        metadata: Attributes::new(),
    }
}

fn srvice_error() -> ParseError {
    ParseError::Syntax {
        path: "test.yaml".to_owned(),
        location: Location::new(4, 11),
        message: "nodes[0].type: unknown variant `srvice`, expected one of `service`, `database`".to_owned(),
        suggestion: Some("did you mean `service`?".to_owned()),
    }
}

const LONELY_DB: &str = "name: x\nnodes:\n  - name: lonely-db\n    type: database\n";

fn lonely_db() -> Architecture {
    architecture(vec![node(1, "lonely-db", NodeType::Database)], Vec::new())
}

const TWO_SERVICES: &str = "name: x\nnodes:\n  - name: a\n    type: service\n  - name: b\n    \
                            type: service\nrelationships:\n  - source: a\n    target: b\n    \
                            type: sync\n";

fn two_services() -> Architecture {
    architecture(
        vec![node(1, "a", NodeType::Service), node(2, "b", NodeType::Service)],
        vec![edge(1, 2, RelationshipType::Sync)],
    )
}

#[test]
fn a_clean_architecture_produces_no_diagnostics() {
    let analysis = run(CLEAN, Ok(clean()));
    assert!(analysis.architecture.is_some());
    assert!(
        analysis.diagnostics.is_empty(),
        "unexpected: {:?}",
        analysis.diagnostics.iter().map(|d| &d.message).collect::<Vec<_>>()
    );
}

#[test]
fn a_syntax_error_is_reported_at_its_line() {
    let source = "name: x\nnodes:\n  - name: api\n   type: service\n";
    let error = ParseError::Syntax {
        path: "test.yaml".to_owned(),
        location: Location::new(4, 4),
        message: "did not find expected key".to_owned(),
        suggestion: None,
    };
    let analysis = run(source, Err(error));

    assert!(analysis.architecture.is_none());
    assert_eq!(analysis.diagnostics.len(), 1);
    assert_eq!(analysis.diagnostics[0].code, "syntax");
    assert_eq!(analysis.diagnostics[0].severity, Severity::Error);
}

#[test]
fn a_syntax_error_carries_its_suggestion_into_the_message() {
    let source = "name: x\nnodes:\n  - name: api\n    type: srvice\n";
    let analysis = run(source, Err(srvice_error()));
    assert!(
        analysis.diagnostics[0].message.contains("did you mean `service`?"),
        "{}",
        analysis.diagnostics[0].message
    );
}

#[test]
fn parser_positions_are_converted_from_one_indexed_to_zero_indexed() {
    let source = "name: x\nnodes:\n  - name: api\n    type: srvice\n";
    let analysis = run(source, Err(srvice_error()));
    assert_eq!(analysis.diagnostics[0].span.line, 3, "the `type: srvice` line");
}

#[test]
fn an_unresolved_reference_is_anchored_on_the_offending_endpoint() {
    let source = "name: x\nnodes:\n  - name: api\n    type: service\nrelationships:\n  \
                  - source: api\n    target: ghost\n    type: sync\n";
    let error = ParseError::UnresolvedReference {
        path: "test.yaml".to_owned(),
        endpoint: "target",
        reference: "ghost".to_owned(),
        suggestion: None,
    };
    let analysis = run(source, Err(error));

    assert_eq!(analysis.diagnostics.len(), 1);
    assert_eq!(analysis.diagnostics[0].span.line, 6, "the `target: ghost` line");
    assert!(analysis.diagnostics[0].span.width() > 0, "and it underlines something");
}

#[test]
fn a_node_finding_is_anchored_on_the_node_name() {
    let analysis = run(LONELY_DB, Ok(lonely_db()));
    let finding = analysis
        .diagnostics
        .iter()
        .find(|d| d.code == "stateful-nodes-require-controls")
        .expect("the rule fires");
    assert_eq!(finding.span.line, 2, "the `- name: lonely-db` line");
    assert_eq!(finding.span.width(), 9, "just the name");
}

#[test]
fn a_relationship_finding_is_anchored_on_the_source_line() {
    let source = "name: x\nnodes:\n  - name: partner\n    type: external-system\n  \
                  - name: api\n    type: service\nrelationships:\n  - source: partner\n    \
                  target: api\n    type: sync\n";
    let parsed = architecture(
        vec![node(1, "partner", NodeType::ExternalSystem), node(2, "api", NodeType::Service)],
        vec![edge(1, 2, RelationshipType::Sync)],
    );
    let analysis = run(source, Ok(parsed));
    let finding = analysis
        .diagnostics
        .iter()
        .find(|d| d.code == "boundary-crossings-require-controls")
        .expect("the rule fires");
    assert_eq!(finding.span.line, 7, "the `- source: partner` line");
}

#[test]
fn a_cycle_is_anchored_on_its_first_participant_with_the_rest_related() {
    let source = "name: x\nnodes:\n  - name: a\n    type: service\n  - name: b\n    \
                  type: service\nrelationships:\n  - source: a\n    target: b\n    \
                  type: sync\n  - source: b\n    target: a\n    type: sync\n";
    let parsed = architecture(
        vec![node(1, "a", NodeType::Service), node(2, "b", NodeType::Service)],
        vec![edge(1, 2, RelationshipType::Sync), edge(2, 1, RelationshipType::Sync)],
    );
    let analysis = run(source, Ok(parsed));
    let cycle = analysis
        .diagnostics
        .iter()
        .find(|d| d.code == "no-dependency-cycles")
        .expect("the rule fires");

    assert_eq!(cycle.severity, Severity::Error);
    assert_eq!(cycle.span.line, 2, "anchored on `a`, the earlier declaration");
    assert_eq!(cycle.related.len(), 2, "both participants are listed");
    assert!(cycle.related.iter().any(|(text, _)| text.contains("`b`")));
}

#[test]
fn validator_suggestions_are_folded_into_the_message() {
    let analysis = run(LONELY_DB, Ok(lonely_db()));
    let finding = &analysis.diagnostics[0];
    assert!(finding.message.contains("Suggestion:"), "{}", finding.message);
    assert!(finding.message.contains("encryption at rest"), "{}", finding.message);
}

#[test]
fn severities_are_carried_across_from_the_validator() {
    let analysis = run(TWO_SERVICES, Ok(two_services()));
    assert!(analysis.diagnostics.iter().any(|d| d.severity == Severity::Warning));
    assert!(
        analysis.diagnostics.iter().any(|d| d.severity == Severity::Info),
        "the sync-target interface rule is advisory"
    );
}

#[test]
fn the_configured_thresholds_are_honoured() {
    let source = "name: x\nnodes:\n  - name: a\n    type: service\n";
    let index = DocumentIndex::build(source);
    let parsed = || architecture(vec![node(1, "a", NodeType::Service)], Vec::new());

    let strict = analyse(Ok(parsed()), &index, &ValidatorConfig::default(), &[]);
    assert!(strict.diagnostics.iter().any(|d| d.code == "services-require-security-controls"));

    let relaxed = ValidatorConfig::new().min_security_controls_per_service(0);
    let quiet = analyse(Ok(parsed()), &index, &relaxed, &[]);
    assert!(!quiet.diagnostics.iter().any(|d| d.code == "services-require-security-controls"));
}

#[test]
fn suppressed_rules_do_not_appear() {
    let index = DocumentIndex::build(LONELY_DB);
    let config = ValidatorConfig::new().allowing("stateful-nodes-require-controls");
    let analysis = analyse(Ok(lonely_db()), &index, &config, &[]);
    assert!(analysis.diagnostics.is_empty(), "{:?}", analysis.diagnostics);
}

#[test]
fn has_errors_distinguishes_errors_from_warnings() {
    assert!(!run(LONELY_DB, Ok(lonely_db())).has_errors());
    let broken = "name: x\nnodes:\n  - name: api\n    type: srvice\n";
    assert!(run(broken, Err(srvice_error())).has_errors());
}

#[test]
fn every_diagnostic_lands_within_the_document() {
    let index = DocumentIndex::build(TWO_SERVICES);
    let analysis = analyse(Ok(two_services()), &index, &ValidatorConfig::default(), &[]);
    assert!(!analysis.diagnostics.is_empty());
    for diagnostic in &analysis.diagnostics {
        assert!(
            diagnostic.span.line < index.line_count(),
            "{} anchored at line {} of {}",
            diagnostic.code,
            diagnostic.span.line,
            index.line_count()
        );
    }
}
