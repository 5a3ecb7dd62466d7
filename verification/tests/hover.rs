use casm::record::Attributes;
use casm::architecture::{
    Architecture, Control, ControlType, Interface, Node, NodeType, Protocol, Relationship,
    RelationshipType,
};
use casm::completion::{Completion, ItemKind};
use casm::diagnostic::NodeId;
use casm::hover::{describe_pattern, edge_summary, hover};
use casm::index::DocumentIndex;
use casm::pattern::{Pattern, RequiredRelationship, Requirement};
use casm::text::Position;

const DOC: &str = "\
name: checkout
version: 1.0.0
nodes:
  - name: api
    type: service
    description: Public entry point.
    interfaces:
      - name: rest
        protocol: http2
        version: 2.1.0
    controls:
      - type: security
        standard: OIDC
        description: tokens required
        evidence-required: true
  - name: orders-db
    type: database
relationships:
  - source: api
    target: orders-db
    type: sync
    protocol: sql
    latency-budget-ms: 50
";

/// The architecture `DOC` describes.
fn architecture() -> Architecture {
    let api = Node {
        id: NodeId(1),
        name: "api".to_owned(),
        node_type: NodeType::Service,
        description: Some("Public entry point.".to_owned()),
        interfaces: vec![Interface {
            name: "rest".to_owned(),
            protocol: Protocol::Http2,
            version: "2.1.0".to_owned(),
            schema_hash: None,
            description: None,
        }],
        controls: vec![Control {
            control_type: ControlType::Security,
            standard: "OIDC".to_owned(),
            description: "tokens required".to_owned(),
            evidence_required: true,
            tags: Vec::new(),
        }],
        metadata: Attributes::new(),
    };
    let db = Node {
        id: NodeId(2),
        name: "orders-db".to_owned(),
        node_type: NodeType::Database,
        description: None,
        interfaces: Vec::new(),
        controls: Vec::new(),
        metadata: Attributes::new(),
    };
    let call = Relationship {
        source: api.id,
        target: db.id,
        relationship_type: RelationshipType::Sync,
        protocol: Some(Protocol::Sql),
        latency_budget_ms: Some(50),
        controls: Vec::new(),
    };
    Architecture {
        name: "checkout".to_owned(),
        version: "1.0.0".to_owned(),
        description: None,
        nodes: vec![api, db],
        relationships: vec![call],
        conformance: Vec::new(),
        metadata: Attributes::new(),
    }
}

fn parts() -> (DocumentIndex, Architecture) {
    (DocumentIndex::build(DOC), architecture())
}

/// Hovers the value on `line`, one character into it.
fn hover_value(index: &DocumentIndex, arch: Option<&Architecture>, line: u32) -> String {
    let span = index
        .line(line)
        .and_then(|info| info.value_span)
        .expect("the line has a value");
    hover(index, arch, Position::new(line, span.start.saturating_add(1)))
        .expect("something is under the cursor")
        .markdown
}

#[test]
fn hovering_a_node_name_shows_its_type_and_description() {
    let (index, arch) = parts();
    let markdown = hover_value(&index, Some(&arch), 3);
    assert!(markdown.contains("**api**"), "{markdown}");
    assert!(markdown.contains("_service_"), "{markdown}");
    assert!(markdown.contains("Public entry point."), "{markdown}");
}

#[test]
fn hovering_a_node_name_lists_its_interfaces_and_controls() {
    let (index, arch) = parts();
    let markdown = hover_value(&index, Some(&arch), 3);
    assert!(markdown.contains("`rest` — http2 v2.1.0"), "{markdown}");
    assert!(markdown.contains("`OIDC` (security)"), "{markdown}");
    assert!(markdown.contains("evidence required"), "{markdown}");
}

#[test]
fn hovering_a_node_name_lists_what_it_calls_and_what_calls_it() {
    let (index, arch) = parts();
    let api = hover_value(&index, Some(&arch), 3);
    assert!(api.contains("**Calls**"), "{api}");
    assert!(api.contains("→ `orders-db` (sync, sql, 50ms)"), "{api}");

    let db = hover_value(&index, Some(&arch), 15);
    assert!(db.contains("**Called by**"), "{db}");
    assert!(db.contains("← `api`"), "{db}");
}

#[test]
fn hovering_a_relationship_endpoint_describes_the_node_it_names() {
    let (index, arch) = parts();
    let markdown = hover_value(&index, Some(&arch), 18);
    assert!(markdown.contains("**api**"), "{markdown}");
    assert!(markdown.contains("**Calls**"), "the full node picture, not just the name");
}

#[test]
fn hovering_degrades_gracefully_when_the_document_does_not_parse() {
    let broken = DOC.replace("    type: service", "    type: srvice");
    let index = DocumentIndex::build(&broken);
    let markdown = hover_value(&index, None, 3);
    assert!(markdown.contains("**api**"), "{markdown}");
    assert!(markdown.contains("srvice"), "the scraped type is still shown: {markdown}");
    assert!(markdown.contains("does not currently parse"), "{markdown}");
}

#[test]
fn hovering_an_unresolvable_reference_says_so_and_suggests_a_fix() {
    let index = DocumentIndex::build("relationships:\n  - source: ghost\n");
    let markdown = hover_value(&index, None, 1);
    assert!(markdown.contains("does not match any node"), "{markdown}");
    assert!(markdown.contains("Check the spelling"), "{markdown}");
}

#[test]
fn hovering_a_node_type_explains_the_type() {
    let (index, arch) = parts();
    let markdown = hover_value(&index, Some(&arch), 4);
    assert!(markdown.contains("**service**"), "{markdown}");
    assert!(markdown.contains("two security controls"), "{markdown}");
}

#[test]
fn hovering_a_relationship_type_explains_its_blocking_semantics() {
    let (index, arch) = parts();
    let markdown = hover_value(&index, Some(&arch), 20);
    assert!(markdown.contains("**sync**"), "{markdown}");
    assert!(markdown.contains("cycle detection"), "{markdown}");
}

#[test]
fn hovering_a_control_type_explains_it_without_confusing_it_for_a_node_type() {
    let (index, arch) = parts();
    let markdown = hover_value(&index, Some(&arch), 11);
    assert!(markdown.contains("**security**"), "{markdown}");
    assert!(markdown.contains("confidentiality"), "{markdown}");
}

#[test]
fn hovering_a_protocol_explains_it() {
    let (index, arch) = parts();
    let markdown = hover_value(&index, Some(&arch), 8);
    assert!(markdown.contains("**http2**"), "{markdown}");
    assert!(markdown.contains("Multiplexes"), "{markdown}");
}

#[test]
fn hovering_an_unmodelled_protocol_explains_the_custom_fallback() {
    let index = DocumentIndex::build("nodes:\n  - name: a\n    protocol: proprietary\n");
    let markdown = hover_value(&index, None, 2);
    assert!(markdown.contains("custom protocol"), "{markdown}");
    assert!(markdown.contains("treated as synchronous"), "{markdown}");
}

#[test]
fn hovering_a_key_explains_the_field() {
    let (index, arch) = parts();
    let markdown = hover(&index, Some(&arch), Position::new(22, 6))
        .expect("the key is under the cursor")
        .markdown;
    assert!(markdown.contains("**latency-budget-ms**"), "{markdown}");
    assert!(markdown.contains("summed along blocking paths"), "{markdown}");
}

#[test]
fn hovering_a_key_uses_the_vocabulary_of_the_enclosing_block() {
    let (index, arch) = parts();
    let markdown = hover(&index, Some(&arch), Position::new(12, 10))
        .expect("the key is under the cursor")
        .markdown;
    assert!(markdown.contains("**standard**"), "{markdown}");
    assert!(markdown.contains("ISO27001"), "{markdown}");
}

#[test]
fn hovering_empty_space_produces_nothing() {
    let (index, arch) = parts();
    assert!(hover(&index, Some(&arch), Position::new(2, 30)).is_none());
}

#[test]
fn hovering_reports_the_span_so_the_editor_can_highlight_it() {
    let (index, arch) = parts();
    let result = hover(&index, Some(&arch), Position::new(3, 11)).expect("on the name");
    assert_eq!(result.span.line, 3);
    assert_eq!(result.span.width(), 3, "just `api`, not the whole line");
}

#[test]
fn hovering_never_panics_anywhere_in_the_document() {
    let (index, arch) = parts();
    for line in 0..index.line_count().saturating_add(2) {
        for character in 0..50 {
            let _ = hover(&index, Some(&arch), Position::new(line, character));
            let _ = hover(&index, None, Position::new(line, character));
        }
    }
}

#[test]
fn a_resolved_node_tooltip_is_exact() {
    let (index, arch) = parts();
    let expected = "**api** — _service_\n\nPublic entry point.\n\n**Interfaces**\n- `rest` — http2 v2.1.0\n\n**Controls**\n- `OIDC` (security) — tokens required *(evidence required)*\n\n**Calls**\n- → `orders-db` (sync, sql, 50ms)";
    assert_eq!(hover_value(&index, Some(&arch), 3), expected);
    let db = "**orders-db** — _database_\n\n**Called by**\n- ← `api` (sync, sql, 50ms)";
    assert_eq!(hover_value(&index, Some(&arch), 15), db);
}

#[test]
fn a_node_the_architecture_lacks_falls_back_to_the_index() {
    let index = DocumentIndex::build(DOC);
    let mut arch = architecture();
    arch.nodes.truncate(1);
    let markdown = hover_value(&index, Some(&arch), 15);
    assert!(markdown.contains("does not currently parse"), "{markdown}");
}

#[test]
fn an_edge_summary_lists_only_what_is_declared() {
    let mut arch = architecture();
    let call = &mut arch.relationships[0];
    assert_eq!(edge_summary(call), "sync, sql, 50ms");
    call.protocol = None;
    assert_eq!(edge_summary(call), "sync, 50ms");
    call.latency_budget_ms = None;
    call.relationship_type = RelationshipType::QuantumEntangled;
    assert_eq!(edge_summary(call), "quantum-entangled");
}

fn secure_web_tier() -> Pattern {
    Pattern {
        name: "secure-web-tier".to_owned(),
        version: "1.0.0".to_owned(),
        description: Some("One governed gateway in front of one service.".to_owned()),
        requirements: vec![
            Requirement {
                role: "edge".to_owned(),
                node_type: NodeType::Gateway,
                description: None,
                min_security_controls: 0,
                required_control_types: Vec::new(),
                required_protocols: Vec::new(),
            },
            Requirement {
                role: "application".to_owned(),
                node_type: NodeType::Service,
                description: Some("The service behind the gateway.".to_owned()),
                min_security_controls: 0,
                required_control_types: Vec::new(),
                required_protocols: Vec::new(),
            },
        ],
        relationships: vec![RequiredRelationship {
            source: "edge".to_owned(),
            target: "application".to_owned(),
            relationship_type: RelationshipType::Sync,
            description: None,
        }],
        satisfies: Vec::new(),
        metadata: Attributes::new(),
    }
}

#[test]
fn hovering_a_claimed_pattern_shows_what_it_requires() {
    let markdown = describe_pattern(&[secure_web_tier()], "secure-web-tier@1.0.0");
    assert!(markdown.contains("**secure-web-tier**"), "{markdown}");
    assert!(markdown.contains("One governed gateway"), "{markdown}");
    assert!(markdown.contains("`edge` — a gateway"), "{markdown}");
    assert!(markdown.contains("`edge` → `application`"), "{markdown}");
}

#[test]
fn hovering_a_pattern_the_library_lacks_says_so() {
    let markdown = describe_pattern(&[], "secure-web-tier@1.0.0");
    assert!(markdown.contains("unchecked"), "{markdown}");
    assert!(markdown.contains("casm.patterns"), "{markdown}");
    let other_version = describe_pattern(&[secure_web_tier()], "secure-web-tier@2.0.0");
    assert!(other_version.contains("unchecked"), "{other_version}");
}

#[test]
fn a_pattern_description_is_exact() {
    let expected = "**secure-web-tier** — _v1.0.0_\n\nOne governed gateway in front of one service.\n\n**Roles**\n- `edge` — a gateway\n- `application` — a service\n\n**Required relationships**\n- `edge` → `application` (sync)";
    assert_eq!(describe_pattern(&[secure_web_tier()], "secure-web-tier@1.0.0"), expected);
}

#[test]
fn a_pattern_reference_is_completed_from_the_library() {
    let item = Completion::pattern(&secure_web_tier());
    assert_eq!(item.label, "secure-web-tier@1.0.0");
    assert_eq!(item.insert_text, "secure-web-tier@1.0.0");
    assert_eq!(item.detail, "2 role(s)");
    assert_eq!(
        item.documentation,
        "One governed gateway in front of one service.\n\nRoles: `edge`, `application`."
    );
    assert_eq!(item.kind, ItemKind::Reference);
}

#[test]
fn a_binding_key_offers_the_roles_the_claimed_pattern_names() {
    let pattern = secure_web_tier();
    let edge = Completion::role(&pattern.requirements[0]);
    assert_eq!(edge.label, "edge");
    assert_eq!(edge.insert_text, "edge: ");
    assert_eq!(edge.detail, "gateway");
    assert_eq!(edge.documentation, "Bind a gateway to this role.");
    assert_eq!(edge.kind, ItemKind::Field);
    let application = Completion::role(&pattern.requirements[1]);
    assert_eq!(application.documentation, "The service behind the gateway.");
}
