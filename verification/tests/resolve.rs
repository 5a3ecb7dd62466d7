use casm::record::Attributes;
use casm::architecture::{Architecture, Node, NodeType, Protocol, RelationshipType};
use casm::diagnostic::NodeId;
use casm::error::ParseError;
use casm::resolve::{
    emit_relationships, hint, lookup, resolve_binding, resolve_endpoint, resolve_relationships,
    RelationshipDoc,
};

fn node(id: u128, name: &str, node_type: NodeType) -> Node {
    Node {
        id: NodeId(id),
        name: name.to_string(),
        node_type,
        description: None,
        interfaces: Vec::new(),
        controls: Vec::new(),
        metadata: Attributes::new(),
    }
}

fn nodes() -> Vec<Node> {
    vec![node(1, "api", NodeType::Service), node(2, "orders-db", NodeType::Database)]
}

fn edge(source: &str, target: &str) -> RelationshipDoc {
    RelationshipDoc {
        source: source.to_string(),
        target: target.to_string(),
        relationship_type: RelationshipType::Sync,
        protocol: Some(Protocol::Sql),
        latency_budget_ms: Some(50),
        controls: Vec::new(),
    }
}

#[test]
fn relationship_step_resolves_endpoints_written_as_names() {
    let resolved = resolve_relationships("architecture.yaml", &nodes(), &[edge("api", "orders-db")]).unwrap();
    assert_eq!(resolved.len(), 1);
    assert_eq!(resolved[0].source, NodeId(1));
    assert_eq!(resolved[0].target, NodeId(2));
    assert_eq!(resolved[0].latency_budget_ms, Some(50));
    assert_eq!(resolved[0].protocol, Some(Protocol::Sql));
}

#[test]
fn relationship_step_resolves_endpoints_written_as_ids() {
    let pinned: u128 = 0x0190_1234_5678_7abc_8def_0123_4567_89ab;
    let all = vec![node(pinned, "api", NodeType::Service), node(2, "orders-db", NodeType::Database)];
    let resolved =
        resolve_relationships("architecture.yaml", &all, &[edge("01901234-5678-7abc-8def-0123456789ab", "orders-db")]).unwrap();
    assert_eq!(resolved[0].source, NodeId(pinned));
}

#[test]
fn relationship_step_resolves_relationships_declared_before_their_nodes() {
    let mut reversed = nodes();
    reversed.reverse();
    assert!(
        resolve_relationships("architecture.yaml", &reversed, &[edge("api", "orders-db")]).is_ok(),
        "declaration order must not matter"
    );
}

#[test]
fn relationship_step_an_unresolvable_endpoint_reports_which_end_failed() {
    match resolve_relationships("architecture.yaml", &nodes(), &[edge("api", "orders-bd")]).unwrap_err() {
        ParseError::UnresolvedReference { path, endpoint, reference, suggestion } => {
            assert_eq!(path, "architecture.yaml");
            assert_eq!(endpoint, "target");
            assert_eq!(reference, "orders-bd");
            assert_eq!(suggestion.as_deref(), Some("did you mean `orders-db`?"));
        }
        other => panic!("expected UnresolvedReference, got {other:?}"),
    }
}

#[test]
fn relationship_step_an_unresolvable_endpoint_omits_a_hint_when_nothing_is_close() {
    match resolve_relationships("architecture.yaml", &nodes(), &[edge("api", "completely-unrelated-thing")])
        .unwrap_err()
    {
        ParseError::UnresolvedReference { suggestion, .. } => assert_eq!(suggestion, None),
        other => panic!("expected UnresolvedReference, got {other:?}"),
    }
}

#[test]
fn the_first_failing_fragment_and_its_source_decide_the_error() {
    let docs = [edge("api", "orders-db"), edge("apx", "nowhere"), edge("zzz", "api")];
    match resolve_relationships("a.yaml", &nodes(), &docs).unwrap_err() {
        ParseError::UnresolvedReference { endpoint, reference, suggestion, .. } => {
            assert_eq!(endpoint, "source");
            assert_eq!(reference, "apx");
            assert_eq!(suggestion.as_deref(), Some("did you mean `api`?"));
        }
        other => panic!("expected UnresolvedReference, got {other:?}"),
    }
}

#[test]
fn a_name_is_preferred_to_an_identifier() {
    let all = vec![
        node(7, "00000000-0000-0000-0000-000000000009", NodeType::Service),
        node(9, "worker", NodeType::Service),
    ];
    assert_eq!(lookup(&all, "00000000-0000-0000-0000-000000000009"), Some(NodeId(7)));
    assert_eq!(lookup(&all, "00000000-0000-0000-0000-000000000007"), Some(NodeId(7)));
    assert_eq!(lookup(&all, "worker"), Some(NodeId(9)));
    assert_eq!(lookup(&all, "00000000-0000-0000-0000-000000000008"), None);
}

#[test]
fn an_unresolved_binding_names_the_pattern_and_role() {
    match resolve_binding("a.yaml", &nodes(), "ordrs-db", "secure-web-tier@1.0.0", "store").unwrap_err() {
        ParseError::UnresolvedBinding { path, pattern, role, reference, suggestion } => {
            assert_eq!(path, "a.yaml");
            assert_eq!(pattern, "secure-web-tier@1.0.0");
            assert_eq!(role, "store");
            assert_eq!(reference, "ordrs-db");
            assert_eq!(suggestion.as_deref(), Some("did you mean `orders-db`?"));
        }
        other => panic!("expected UnresolvedBinding, got {other:?}"),
    }
    assert_eq!(resolve_binding("a.yaml", &nodes(), "api", "p@1.0.0", "edge").unwrap(), NodeId(1));
    assert_eq!(resolve_endpoint("a.yaml", &nodes(), "orders-db", "target").unwrap(), NodeId(2));
    assert_eq!(hint(&nodes(), "appi").as_deref(), Some("did you mean `api`?"));
}

fn architecture() -> Architecture {
    let all = nodes();
    let relationships = resolve_relationships("architecture.yaml", &all, &[edge("api", "orders-db")]).unwrap();
    Architecture {
        name: "checkout".to_string(),
        version: "1.0.0".to_string(),
        description: None,
        nodes: all,
        relationships,
        conformance: Vec::new(),
        metadata: Attributes::new(),
    }
}

#[test]
fn relationship_step_emitted_relationships_reference_nodes_by_name() {
    let emitted = emit_relationships(&architecture());
    assert_eq!(emitted[0].source, "api");
    assert_eq!(emitted[0].target, "orders-db");
}

#[test]
fn relationship_step_round_trip_preserves_the_architecture() {
    let original = architecture();
    let emitted = emit_relationships(&original);
    let reparsed = resolve_relationships("architecture.yaml", &original.nodes, &emitted).unwrap();
    assert_eq!(original.relationships, reparsed, "parse -> emit -> parse must be a fixed point");
}
