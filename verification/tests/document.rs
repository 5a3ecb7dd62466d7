use casm::record::Attributes;
use casm::architecture::{Control, ControlType, NodeType, Protocol, RelationshipType};
use casm::diagnostic::NodeId;
use casm::document::{
    from_architecture, into_architecture, parse_node_id, schema_digest, DocumentModel, InterfaceDoc,
    NodeDoc,
};
use casm::fmt::hex_bytes_string;
use sha3::{Digest, Sha3_256};
use casm::error::ParseError;
use casm::resolve::RelationshipDoc;
use casm::conformance::ConformanceDocModel;

const PATH: &str = "architecture.yaml";

const PINNED_TEXT: &str = "0190a5b2-3c4d-7e5f-8a6b-1c2d3e4f5a6b";
const PINNED: NodeId = NodeId(0x0190_a5b2_3c4d_7e5f_8a6b_1c2d_3e4f_5a6b);

fn node(name: &str, node_type: NodeType) -> NodeDoc {
    NodeDoc {
        name: name.to_owned(),
        node_type,
        id: None,
        description: None,
        interfaces: Vec::new(),
        controls: Vec::new(),
        metadata: Attributes::new(),
    }
}

fn minimal_doc() -> DocumentModel {
    DocumentModel {
        name: "checkout".to_owned(),
        version: "1.0.0".to_owned(),
        description: None,
        nodes: vec![node("api", NodeType::Service), node("orders-db", NodeType::Database)],
        relationships: vec![RelationshipDoc {
            source: "api".to_owned(),
            target: "orders-db".to_owned(),
            relationship_type: RelationshipType::Sync,
            protocol: Some(Protocol::Sql),
            latency_budget_ms: Some(50),
            controls: Vec::new(),
        }],
        patterns: Vec::new(),
        metadata: Attributes::new(),
    }
}

fn minted(n: usize) -> Vec<NodeId> {
    (0..n)
        .map(|i| NodeId(0x0190_0000_0000_7000_8000_0000_0000_0000 + i as u128))
        .collect()
}

fn resolve(doc: &DocumentModel) -> Result<casm::architecture::Architecture, ParseError> {
    into_architecture(doc, PATH, &minted(doc.nodes.len()))
}

fn interface(schema: Option<&str>, schema_hash: Option<&str>) -> InterfaceDoc {
    InterfaceDoc {
        name: "rest".to_owned(),
        protocol: Protocol::Http2,
        version: "1.0.0".to_owned(),
        schema: schema.map(str::to_owned),
        schema_hash: schema_hash.map(str::to_owned),
        description: None,
    }
}

#[test]
fn resolves_endpoints_written_as_names() {
    let architecture = resolve(&minimal_doc()).unwrap();
    assert_eq!(architecture.nodes.len(), 2);
    assert_eq!(architecture.relationships.len(), 1);

    let api = architecture.nodes.iter().find(|n| n.name == "api").unwrap();
    let db = architecture.nodes.iter().find(|n| n.name == "orders-db").unwrap();
    let edge = &architecture.relationships[0];
    assert_eq!(edge.source, api.id);
    assert_eq!(edge.target, db.id);
}

#[test]
fn resolves_endpoints_written_as_ids() {
    let mut doc = minimal_doc();
    doc.nodes[0].id = Some(PINNED_TEXT.to_owned());
    doc.relationships[0].source = PINNED_TEXT.to_owned();

    let architecture = resolve(&doc).unwrap();
    assert_eq!(architecture.relationships[0].source, PINNED);
}

#[test]
fn resolves_relationships_declared_before_their_nodes() {
    let mut doc = minimal_doc();
    doc.nodes.reverse();
    assert!(resolve(&doc).is_ok(), "declaration order must not matter");
}

#[test]
fn an_unresolvable_endpoint_reports_which_end_failed() {
    let mut doc = minimal_doc();
    doc.relationships[0].target = "orders-bd".to_owned();

    match resolve(&doc).unwrap_err() {
        ParseError::UnresolvedReference { endpoint, reference, suggestion, .. } => {
            assert_eq!(endpoint, "target");
            assert_eq!(reference, "orders-bd");
            assert_eq!(suggestion.as_deref(), Some("did you mean `orders-db`?"));
        }
        other => panic!("expected UnresolvedReference, got {other:?}"),
    }
}

#[test]
fn an_unresolvable_endpoint_omits_a_hint_when_nothing_is_close() {
    let mut doc = minimal_doc();
    doc.relationships[0].target = "completely-unrelated-thing".to_owned();

    match resolve(&doc).unwrap_err() {
        ParseError::UnresolvedReference { suggestion, .. } => assert_eq!(suggestion, None),
        other => panic!("expected UnresolvedReference, got {other:?}"),
    }
}

#[test]
fn an_explicit_non_v7_id_is_rejected_with_a_hint() {
    let mut doc = minimal_doc();
    doc.nodes[0].id = Some("f47ac10b-58cc-4372-a567-0e02b2c3d479".to_owned());

    match resolve(&doc).unwrap_err() {
        ParseError::Semantic { message, suggestion, .. } => {
            assert!(message.contains("node 'api'"), "{message}");
            assert!(suggestion.is_some_and(|s| s.contains("omit 'id'")));
        }
        other => panic!("expected Semantic, got {other:?}"),
    }
}

#[test]
fn duplicate_node_names_surface_as_a_semantic_error() {
    let mut doc = minimal_doc();
    doc.nodes[1].name = "api".to_owned();
    doc.relationships.clear();

    let err = resolve(&doc).unwrap_err();
    assert!(err.describe().contains("already exists"), "{err:?}");
}

#[test]
fn declaring_both_schema_and_schema_hash_is_refused() {
    let mut doc = minimal_doc();
    let hash = "a".repeat(64);
    doc.nodes[0].interfaces.push(interface(Some("{}"), Some(&hash)));

    match resolve(&doc).unwrap_err() {
        ParseError::Semantic { message, suggestion, .. } => {
            assert!(message.contains("both 'schema' and 'schema-hash'"), "{message}");
            assert!(suggestion.is_some(), "the author needs to know which to drop");
        }
        other => panic!("expected Semantic, got {other:?}"),
    }
}

#[test]
fn a_malformed_schema_hash_is_refused_with_the_expected_shape() {
    let mut doc = minimal_doc();
    doc.nodes[0].interfaces.push(interface(None, Some("not-a-hash")));

    match resolve(&doc).unwrap_err() {
        ParseError::Semantic { suggestion, .. } => {
            assert!(suggestion.is_some_and(|s| s.contains("64")));
        }
        other => panic!("expected Semantic, got {other:?}"),
    }
}

#[test]
fn round_trip_preserves_the_architecture() {
    let original = resolve(&minimal_doc()).unwrap();
    let emitted = from_architecture(&original);
    let reparsed = resolve(&emitted).unwrap();
    assert_eq!(original, reparsed, "parse -> emit -> parse must be a fixed point");
}

#[test]
fn round_trip_preserves_node_ids() {
    let original = resolve(&minimal_doc()).unwrap();
    let ids: Vec<NodeId> = original.nodes.iter().map(|n| n.id).collect();

    let emitted = from_architecture(&original);
    let other_mint: Vec<NodeId> = (0..emitted.nodes.len()).map(|i| NodeId(0x0190_0000_0000_7000_9000_0000_0000_0100 + i as u128)).collect();
    let reparsed = into_architecture(&emitted, PATH, &other_mint).unwrap();
    let reparsed_ids: Vec<NodeId> = reparsed.nodes.iter().map(|n| n.id).collect();

    assert_eq!(ids, reparsed_ids, "emitting must not mint new identifiers");
}

#[test]
fn emitted_relationships_reference_nodes_by_name() {
    let architecture = resolve(&minimal_doc()).unwrap();
    let emitted = from_architecture(&architecture);
    assert_eq!(emitted.relationships[0].source, "api");
    assert_eq!(emitted.relationships[0].target, "orders-db");
}

fn sha3_hex(bytes: &[u8]) -> String {
    Sha3_256::digest(bytes).iter().map(|b| format!("{b:02x}")).collect()
}

#[test]
fn an_inline_schema_is_hashed_at_parse_time() {
    let mut doc = minimal_doc();
    doc.nodes[0].interfaces.push(interface(Some("openapi-content"), None));

    let architecture = resolve(&doc).unwrap();
    let node = architecture.nodes.iter().find(|n| n.name == "api").unwrap();
    let rest = node.interfaces.iter().find(|i| i.name == "rest").unwrap();
    assert_eq!(rest.schema_hash.as_deref(), Some(sha3_hex(b"openapi-content").as_str()));
}

#[test]
fn the_digest_of_empty_content_is_the_sha3_256_of_nothing() {
    assert_eq!(
        schema_digest(""),
        "a7ffc6f8bf1ed76651c14756a061d662f580ff4de43b49fa82d80a4b80f8434a"
    );
    assert_eq!(schema_digest("openapi-content").len(), 64);
}

#[test]
fn bytes_are_written_as_two_lowercase_digits_each() {
    assert_eq!(hex_bytes_string(&[0x00, 0x0f, 0xa0, 0xff]), "000fa0ff");
    assert_eq!(hex_bytes_string(&[]), "");
}

#[test]
fn a_pinned_schema_hash_and_a_description_are_kept() {
    let mut doc = minimal_doc();
    let hash = "0123456789abcdef".repeat(4);
    let mut rest = interface(None, Some(&hash));
    rest.description = Some("public surface".to_owned());
    doc.nodes[0].interfaces.push(rest);
    let architecture = resolve(&doc).unwrap();
    let kept = &architecture.nodes[0].interfaces[0];
    assert_eq!(kept.schema_hash.as_deref(), Some(hash.as_str()));
    assert_eq!(kept.description.as_deref(), Some("public surface"));
    let emitted = from_architecture(&architecture);
    assert_eq!(emitted.nodes[0].interfaces[0].schema, None);
    assert_eq!(emitted.nodes[0].interfaces[0].schema_hash.as_deref(), Some(hash.as_str()));
}

#[test]
fn round_trip_preserves_interfaces_and_controls() {
    let mut doc = minimal_doc();
    let mut rest = interface(Some("content"), None);
    rest.version = "2.1.0".to_owned();
    rest.description = Some("public surface".to_owned());
    doc.nodes[0].interfaces.push(rest);
    doc.nodes[0].controls.push(Control {
        control_type: ControlType::Security,
        standard: "OWASP-A01".to_owned(),
        description: "access control enforced".to_owned(),
        evidence_required: true,
        tags: vec!["security".to_owned()],
    });

    let original = resolve(&doc).unwrap();
    let reparsed = resolve(&from_architecture(&original)).unwrap();
    assert_eq!(original, reparsed);
}

#[test]
fn a_node_without_an_id_takes_the_minted_one() {
    let doc = minimal_doc();
    let ids = minted(2);
    let architecture = into_architecture(&doc, PATH, &ids).unwrap();
    assert_eq!(architecture.nodes[0].id, ids[0]);
    assert_eq!(architecture.nodes[1].id, ids[1]);
}

#[test]
fn a_self_edge_is_refused() {
    let mut doc = minimal_doc();
    doc.relationships[0].target = "api".to_owned();
    match resolve(&doc).unwrap_err() {
        ParseError::Semantic { message, suggestion, .. } => {
            assert_eq!(message, "relationship 'api' -> 'api': self-edges are not allowed");
            assert_eq!(suggestion, None);
        }
        other => panic!("expected Semantic, got {other:?}"),
    }
}

#[test]
fn a_node_fault_is_reported_before_an_unresolved_endpoint() {
    let mut doc = minimal_doc();
    doc.nodes[1].id = Some("not-a-uuid".to_owned());
    doc.relationships[0].target = "nowhere".to_owned();
    match resolve(&doc).unwrap_err() {
        ParseError::Semantic { message, path, .. } => {
            assert_eq!(message, "node 'orders-db': 'not-a-uuid' is not a UUIDv7 node id");
            assert_eq!(path, PATH);
        }
        other => panic!("expected Semantic, got {other:?}"),
    }
}

#[test]
fn a_valid_schema_hash_is_accepted() {
    let mut doc = minimal_doc();
    let hash = "0123456789abcdef".repeat(4);
    doc.nodes[0].interfaces.push(interface(None, Some(&hash)));
    let architecture = resolve(&doc).unwrap();
    assert_eq!(architecture.nodes[0].interfaces[0].name, "rest");
}

#[test]
fn an_uppercase_schema_hash_is_refused() {
    let mut doc = minimal_doc();
    let hash = "0123456789ABCDEF".repeat(4);
    doc.nodes[0].interfaces.push(interface(None, Some(&hash)));
    assert!(matches!(resolve(&doc), Err(ParseError::Semantic { .. })));
}

#[test]
fn a_version_seven_uuid_is_read_in_either_case() {
    assert_eq!(parse_node_id(PINNED_TEXT), Some(PINNED));
    assert_eq!(parse_node_id(&PINNED_TEXT.to_uppercase()), Some(PINNED));
}

#[test]
fn other_uuid_versions_and_shapes_are_not_node_ids() {
    assert_eq!(parse_node_id("f47ac10b-58cc-4372-a567-0e02b2c3d479"), None);
    assert_eq!(parse_node_id("0190a5b2-3c4d-7e5f-ca6b-1c2d3e4f5a6b"), None);
    assert_eq!(parse_node_id("0190a5b23c4d7e5f8a6b1c2d3e4f5a6b"), None);
    assert_eq!(parse_node_id("0190a5b2-3c4d-7e5f-8a6b-1c2d3e4f5a6g"), None);
    assert_eq!(parse_node_id(""), None);
}

#[test]
fn an_emitted_node_writes_its_id_as_a_uuid() {
    let architecture = resolve(&minimal_doc()).unwrap();
    let emitted = from_architecture(&architecture);
    let id = emitted.nodes[0].id.clone().unwrap();
    assert_eq!(id.len(), 36);
    assert_eq!(parse_node_id(&id), Some(architecture.nodes[0].id));
}

fn claim(pattern: &str, bindings: &[(&str, &str)]) -> ConformanceDocModel {
    ConformanceDocModel {
        pattern: pattern.to_owned(),
        bindings: bindings.iter().map(|(r, n)| ((*r).to_owned(), (*n).to_owned())).collect(),
    }
}

#[test]
fn claims_resolve_with_their_bindings() {
    let mut doc = minimal_doc();
    doc.patterns.push(claim("secure-web-tier@1.0.0", &[("application", "api")]));
    let architecture = resolve(&doc).unwrap();
    assert_eq!(architecture.conformance.len(), 1);
    let c = &architecture.conformance[0];
    assert_eq!(c.pattern_name, "secure-web-tier");
    assert_eq!(c.pattern_version, "1.0.0");
    assert_eq!(c.bindings, vec![("application".to_owned(), architecture.nodes[0].id)]);
}

#[test]
fn a_binding_to_no_node_is_refused_with_a_hint() {
    let mut doc = minimal_doc();
    doc.patterns.push(claim("secure-web-tier@1.0.0", &[("database", "orders-bd")]));
    match resolve(&doc).unwrap_err() {
        ParseError::UnresolvedBinding { pattern, role, reference, suggestion, .. } => {
            assert_eq!(pattern, "secure-web-tier@1.0.0");
            assert_eq!(role, "database");
            assert_eq!(reference, "orders-bd");
            assert_eq!(suggestion.as_deref(), Some("did you mean `orders-db`?"));
        }
        other => panic!("expected UnresolvedBinding, got {other:?}"),
    }
}

#[test]
fn a_claim_without_an_exact_version_is_refused() {
    for written in ["secure-web-tier", "secure-web-tier@1.0", "@1.0.0"] {
        let mut doc = minimal_doc();
        doc.patterns.push(claim(written, &[]));
        match resolve(&doc).unwrap_err() {
            ParseError::Semantic { suggestion, .. } => {
                assert_eq!(suggestion.as_deref(), Some("a pattern is claimed by exact version, as 'name@1.2.3'"));
            }
            other => panic!("expected Semantic, got {other:?}"),
        }
    }
}

#[test]
fn claims_are_resolved_after_relationships() {
    let mut doc = minimal_doc();
    doc.patterns.push(claim("bad", &[]));
    doc.relationships[0].target = "nowhere".to_owned();
    assert!(matches!(resolve(&doc), Err(ParseError::UnresolvedReference { .. })));
}

#[test]
fn metadata_and_claims_survive_the_round_trip() {
    let mut doc = minimal_doc();
    doc.metadata.insert("owner", "payments-team");
    doc.nodes[1].metadata.insert("tier", "gold");
    doc.patterns.push(claim("secure-web-tier@1.0.0", &[("database", "orders-db")]));
    let original = resolve(&doc).unwrap();
    assert_eq!(original.metadata.get("owner"), Some("payments-team"));
    assert_eq!(original.nodes[1].metadata.get("tier"), Some("gold"));
    let emitted = from_architecture(&original);
    assert_eq!(emitted.patterns[0].pattern, "secure-web-tier@1.0.0");
    assert_eq!(emitted.patterns[0].bindings, vec![("database".to_owned(), "orders-db".to_owned())]);
    let reparsed = resolve(&emitted).unwrap();
    assert_eq!(original, reparsed);
}

#[test]
fn minted_identifiers_carry_version_seven() {
    assert!(casm::document::is_version_seven(PINNED));
    assert!(!casm::document::is_version_seven(NodeId(0)));
    for id in minted(3) {
        assert!(casm::document::is_version_seven(id));
    }
}
