use casm::record::Attributes;
use casm::architecture::{
    Architecture, Control, ControlType, Interface, Node, NodeType, Protocol, Relationship,
    RelationshipType,
};
use casm::diagnostic::NodeId;
use casm::fmt::uuid_string;
use casm::renderer::{built_in, by_id, escape_label, Ascii, Dot, Mermaid, Renderer};

fn node(id: u128, name: &str, node_type: NodeType) -> Node {
    Node {
        id: NodeId(id),
        name: name.to_owned(),
        node_type,
        description: None,
        interfaces: Vec::new(),
        controls: Vec::new(),
        metadata: Attributes::new(),
    }
}

fn edge(source: &Node, target: &Node, kind: RelationshipType) -> Relationship {
    Relationship {
        source: source.id,
        target: target.id,
        relationship_type: kind,
        protocol: None,
        latency_budget_ms: None,
        controls: Vec::new(),
    }
}

fn architecture(name: &str, nodes: Vec<Node>, relationships: Vec<Relationship>) -> Architecture {
    Architecture {
        name: name.to_owned(),
        version: "0.1.0".to_owned(),
        description: None,
        nodes,
        relationships,
        conformance: Vec::new(),
        metadata: Attributes::new(),
    }
}

/// A gateway, a service, and a database, wired `gateway -> orders -> orders-db`.
fn sample() -> Architecture {
    let mut gateway = node(0x0191_0000_0000_7000_8000_0000_0000_0001, "gateway", NodeType::Gateway);
    gateway.description = Some("Public entry point".to_owned());
    let mut orders = node(0x0191_0000_0000_7000_8000_0000_0000_0002, "orders", NodeType::Service);
    orders.interfaces = vec![Interface {
        name: "grpc".to_owned(),
        protocol: Protocol::Grpc,
        version: "1.0.0".to_owned(),
        schema_hash: None,
        description: None,
    }];
    orders.controls = vec![Control {
        control_type: ControlType::Security,
        standard: "AUTH".to_owned(),
        description: "OIDC enforced".to_owned(),
        evidence_required: false,
        tags: Vec::new(),
    }];
    let db = node(0x0191_0000_0000_7000_8000_0000_0000_0003, "orders-db", NodeType::Database);

    let with = |s: &Node, t: &Node, ms: u64| {
        let mut e = edge(s, t, RelationshipType::Sync);
        e.protocol = Some(Protocol::Grpc);
        e.latency_budget_ms = Some(ms);
        e
    };
    let relationships = vec![with(&gateway, &orders, 100), with(&orders, &db, 50)];
    Architecture {
        name: "storefront".to_owned(),
        version: "1.2.0".to_owned(),
        description: Some("Order capture".to_owned()),
        nodes: vec![gateway, orders, db],
        relationships,
        conformance: Vec::new(),
        metadata: Attributes::new(),
    }
}

fn empty() -> Architecture {
    architecture("empty", Vec::new(), Vec::new())
}

#[test]
fn every_backend_is_deterministic() {
    let architecture = sample();
    for backend in built_in() {
        let first = backend.render(&architecture);
        let second = backend.render(&architecture);
        assert_eq!(first, second, "{} is not deterministic", backend.id());
    }
}

#[test]
fn every_backend_handles_an_empty_architecture() {
    for backend in built_in() {
        let output = backend.render(&empty());
        assert!(!output.is_empty(), "{} produced nothing", backend.id());
    }
}

#[test]
fn every_backend_output_ends_with_a_newline() {
    let architecture = sample();
    for backend in built_in() {
        let output = backend.render(&architecture);
        assert!(output.ends_with('\n'), "{} output is not newline-terminated", backend.id());
    }
}

#[test]
fn backends_are_discoverable_by_id() {
    assert_eq!(by_id("mermaid").map(|b| b.extension()), Some("mmd"));
    assert_eq!(by_id("dot").map(|b| b.extension()), Some("dot"));
    assert_eq!(by_id("ascii").map(|b| b.extension()), Some("txt"));
    assert!(by_id("nonexistent").is_none());
}

#[test]
fn backend_ids_are_unique() {
    let backends = built_in();
    let mut ids: Vec<&str> = backends.iter().map(|b| b.id()).collect();
    let count = ids.len();
    ids.sort_unstable();
    ids.dedup();
    assert_eq!(ids.len(), count);
}

#[test]
fn diagram_identifiers_are_positional_not_uuid_derived() {
    let architecture = sample();
    let mermaid = Mermaid.render(&architecture);
    assert!(mermaid.contains("n0"), "{mermaid}");
    assert!(mermaid.contains("n1"), "{mermaid}");
    for node in &architecture.nodes {
        assert!(
            !mermaid.contains(&uuid_string(node.id.0)),
            "node id leaked into the diagram: {mermaid}"
        );
    }
}

#[test]
fn mermaid_declares_a_flowchart_and_the_architecture_version() {
    let output = Mermaid.render(&sample());
    assert!(output.starts_with("flowchart LR\n"));
    assert!(output.contains("%% storefront v1.2.0"), "{output}");
}

#[test]
fn mermaid_shapes_distinguish_node_types() {
    let output = Mermaid.render(&sample());
    assert!(output.contains("{{\"gateway\"}}"), "gateway is a hexagon: {output}");
    assert!(output.contains("[\"orders\"]"), "service is a box: {output}");
    assert!(output.contains("[(\"orders-db\")]"), "database is a cylinder: {output}");
}

#[test]
fn mermaid_labels_edges_with_protocol_and_budget() {
    let output = Mermaid.render(&sample());
    assert!(output.contains("sync / grpc / 100ms"), "{output}");
}

#[test]
fn mermaid_arrows_distinguish_blocking_from_async() {
    let (a, b) = (node(1, "a", NodeType::Service), node(2, "b", NodeType::Service));
    let edges = vec![edge(&a, &b, RelationshipType::EventDriven)];
    let x = architecture("x", vec![a, b], edges);
    assert!(Mermaid.render(&x).contains("-.->"), "async edges are dashed");
}

#[test]
fn dot_produces_a_balanced_digraph() {
    let output = Dot.render(&sample());
    assert!(output.starts_with("digraph \"storefront\" {\n"));
    assert!(output.ends_with("}\n"));
    assert_eq!(output.matches('{').count(), output.matches('}').count());
}

#[test]
fn dot_shapes_distinguish_node_types() {
    let output = Dot.render(&sample());
    assert!(output.contains("shape=hexagon"), "{output}");
    assert!(output.contains("shape=cylinder"), "{output}");
    assert!(output.contains("shape=box"), "{output}");
}

#[test]
fn dot_styles_distinguish_relationship_types() {
    let output = Dot.render(&sample());
    assert!(output.contains("style=solid"), "{output}");
}

#[test]
fn ascii_lists_nodes_interfaces_controls_and_edges() {
    let output = Ascii.render(&sample());
    assert!(output.contains("storefront v1.2.0"), "{output}");
    assert!(output.contains("[gateway] gateway"), "{output}");
    assert!(output.contains(":: grpc (grpc v1.0.0)"), "{output}");
    assert!(output.contains("# AUTH [security]"), "{output}");
    assert!(output.contains("--sync / grpc / 100ms--> orders"), "{output}");
    assert!(output.contains("3 node(s), 2 relationship(s)"), "{output}");
}

#[test]
fn ascii_says_so_when_there_is_nothing_to_draw() {
    let output = Ascii.render(&empty());
    assert!(output.contains("(no nodes)"), "{output}");
}

#[test]
fn escaping_neutralises_quotes_newlines_and_backslashes() {
    assert_eq!(escape_label("say \"hi\""), "say 'hi'");
    assert_eq!(escape_label("line\nbreak"), "line break");
    assert_eq!(escape_label("back\\slash"), "back/slash");
}

#[test]
fn a_hostile_label_cannot_break_out_of_its_quotes() {
    let escaped = escape_label("x\"]\r\n--> y\\");
    assert_eq!(escaped, "x']  --> y/");
    assert!(!escaped.contains(['"', '\n', '\r', '\\']));
    assert_eq!(escape_label("plain é"), "plain é");
}

#[test]
fn a_hostile_description_cannot_break_out_of_a_label() {
    let mut api = node(1, "api", NodeType::Service);
    api.description = Some("evil\"] ;; injected".to_owned());
    let x = architecture("x", vec![api], Vec::new());
    let ascii = Ascii.render(&x);
    assert!(ascii.contains("evil"), "the text is still shown: {ascii}");
    let escaped = escape_label("evil\"] ;; injected");
    assert!(!escaped.contains('"'), "the quote is neutralised: {escaped}");
}

#[test]
fn rendering_never_panics_on_an_architecture_with_every_node_type() {
    let types = [
        NodeType::Service,
        NodeType::Database,
        NodeType::Queue,
        NodeType::Cache,
        NodeType::Gateway,
        NodeType::Storage,
        NodeType::ExternalSystem,
        NodeType::Legacy,
        NodeType::Human,
        NodeType::Boundary,
    ];
    let nodes: Vec<Node> = types
        .into_iter()
        .enumerate()
        .map(|(index, t)| node(index as u128 + 1, &format!("n{index}"), t))
        .collect();
    let zoo = architecture("zoo", nodes, Vec::new());
    for backend in built_in() {
        assert!(!backend.render(&zoo).is_empty());
    }
}

#[test]
fn rendering_covers_every_relationship_type() {
    let types = [
        RelationshipType::Sync,
        RelationshipType::Async,
        RelationshipType::EventDriven,
        RelationshipType::DependsOn,
        RelationshipType::Composed,
        RelationshipType::DeployedOn,
        RelationshipType::QuantumEntangled,
    ];
    let (a, b) = (node(1, "a", NodeType::Service), node(2, "b", NodeType::Service));
    let edges: Vec<Relationship> = types.into_iter().map(|t| edge(&a, &b, t)).collect();
    let x = architecture("x", vec![a, b], edges);
    for backend in built_in() {
        let output = backend.render(&x);
        assert!(!output.is_empty(), "{} produced nothing", backend.id());
    }
}

#[test]
fn mermaid_renders_an_exact_flowchart() {
    let expected = "flowchart LR\n  %% storefront v1.2.0\n  n0{{\"gateway\"}}\n  n1[\"orders\"]\n  n2[(\"orders-db\")]\n  n0 -->|\"sync / grpc / 100ms\"| n1\n  n1 -->|\"sync / grpc / 50ms\"| n2\n";
    assert_eq!(Mermaid.render(&sample()), expected);
}

#[test]
fn dot_renders_an_exact_digraph() {
    let expected = "digraph \"storefront\" {\n  rankdir=LR;\n  node [fontname=\"Helvetica\"];\n  edge [fontname=\"Helvetica\", fontsize=10];\n  n0 [label=\"gateway\", shape=hexagon];\n  n1 [label=\"orders\", shape=box];\n  n2 [label=\"orders-db\", shape=cylinder];\n  n0 -> n1 [label=\"sync / grpc / 100ms\", style=solid];\n  n1 -> n2 [label=\"sync / grpc / 50ms\", style=solid];\n}\n";
    assert_eq!(Dot.render(&sample()), expected);
}

#[test]
fn ascii_renders_an_exact_listing() {
    let expected = "storefront v1.2.0\n=================\nOrder capture\n\n[gateway] gateway\n    Public entry point\n    --sync / grpc / 100ms--> orders\n\n[service] orders\n    :: grpc (grpc v1.0.0)\n    # AUTH [security]\n    --sync / grpc / 50ms--> orders-db\n\n[database] orders-db\n\n3 node(s), 2 relationship(s)\n";
    assert_eq!(Ascii.render(&sample()), expected);
}

#[test]
fn an_edge_to_an_unknown_node_is_drawn_to_unknown_and_named_by_identifier() {
    let a = node(1, "a", NodeType::Service);
    let missing = node(2, "missing", NodeType::Service);
    let edges = vec![edge(&a, &missing, RelationshipType::DeployedOn)];
    let x = architecture("x", vec![a], edges);
    assert!(Mermaid.render(&x).contains("  n0 -.-|\"deployed-on\"| unknown\n"));
    assert!(Ascii
        .render(&x)
        .contains("    --deployed-on--> 00000000-0000-0000-0000-000000000002\n"));
}

#[test]
fn the_underline_counts_bytes_not_characters() {
    let x = architecture("café", Vec::new(), Vec::new());
    // "café v0.1.0" is eleven characters but twelve bytes.
    assert!(Ascii.render(&x).starts_with("café v0.1.0\n============\n"));
}
