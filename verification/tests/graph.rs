use casm::record::Attributes;
use casm::architecture::{Architecture, Node, NodeType, Relationship, RelationshipType};
use casm::diagnostic::NodeId;
use casm::graph::{blocking_budget_out_of, DependencyGraph};

fn rel(source: u128, target: u128, kind: &str, budget: Option<u64>) -> Relationship {
    let relationship_type = match kind {
        "sync" => RelationshipType::Sync,
        "depends-on" => RelationshipType::DependsOn,
        "async" => RelationshipType::Async,
        _ => RelationshipType::EventDriven,
    };
    Relationship {
        source: NodeId(source),
        target: NodeId(target),
        relationship_type,
        protocol: None,
        latency_budget_ms: budget,
        controls: Vec::new(),
    }
}

/// Service nodes `a`, `b`, `c`, ... with identifiers 1, 2, 3, ... in
/// declaration order.
fn architecture_of(count: u128, relationships: &[Relationship]) -> Architecture {
    let names = ["a", "b", "c", "d", "e"];
    let nodes: Vec<Node> = (1..=count)
        .map(|i| Node {
            id: NodeId(i),
            name: names[(i - 1) as usize].to_owned(),
            node_type: NodeType::Service,
            description: None,
            interfaces: Vec::new(),
            controls: Vec::new(),
            metadata: Attributes::new(),
        })
        .collect();
    Architecture {
        name: "test".to_owned(),
        version: "1.0.0".to_owned(),
        description: None,
        nodes,
        relationships: relationships.to_vec(),
        conformance: Vec::new(),
        metadata: Attributes::new(),
    }
}

fn graph_of(count: u128, relationships: &[Relationship]) -> DependencyGraph {
    DependencyGraph::build(&architecture_of(count, relationships))
}

const A: u128 = 1;
const B: u128 = 2;
const C: u128 = 3;
const D: u128 = 4;

#[test]
fn an_acyclic_graph_reports_no_cycles() {
    let graph = graph_of(3, &[rel(A, B, "sync", None), rel(B, C, "sync", None)]);
    assert!(graph.is_acyclic());
    assert!(graph.cycles().is_empty());
}

#[test]
fn a_blocking_cycle_is_detected() {
    let graph = graph_of(
        3,
        &[
            rel(A, B, "sync", None),
            rel(B, C, "sync", None),
            rel(C, A, "depends-on", None),
        ],
    );
    assert!(!graph.is_acyclic());
    assert_eq!(graph.cycles().len(), 1);
    assert_eq!(graph.cycles()[0].len(), 3);
}

#[test]
fn an_event_driven_loop_is_not_a_cycle() {
    let graph = graph_of(
        2,
        &[rel(A, B, "event-driven", None), rel(B, A, "event-driven", None)],
    );
    assert!(graph.is_acyclic());
}

#[test]
fn an_async_loop_is_not_a_cycle() {
    let graph = graph_of(2, &[rel(A, B, "async", None), rel(B, A, "async", None)]);
    assert!(graph.is_acyclic());
}

#[test]
fn a_mixed_cycle_with_one_blocking_edge_is_not_a_cycle() {
    let graph = graph_of(2, &[rel(A, B, "sync", None), rel(B, A, "event-driven", None)]);
    assert!(graph.is_acyclic());
}

#[test]
fn cycle_output_is_deterministic() {
    let graph = graph_of(2, &[rel(A, B, "sync", None), rel(B, A, "sync", None)]);
    assert_eq!(graph.cycles(), graph.cycles(), "repeated calls must agree");
}

#[test]
fn the_graph_contains_every_declared_node_and_nothing_else() {
    let graph = graph_of(3, &[rel(A, B, "sync", Some(10))]);
    for id in [A, B, C] {
        assert!(
            graph.contains(NodeId(id)),
            "{id} is declared, and an isolated node is still in the graph"
        );
    }
    assert!(
        !graph.contains(NodeId(999)),
        "an identifier the architecture never declared is not in the graph"
    );
}

#[test]
fn critical_path_sums_the_longest_chain() {
    let graph = graph_of(3, &[rel(A, B, "sync", Some(100)), rel(B, C, "sync", Some(250))]);
    assert_eq!(graph.critical_path_ms(), Some(350));
}

#[test]
fn critical_path_picks_the_worst_branch_not_the_first() {
    let graph = graph_of(
        4,
        &[
            rel(A, B, "sync", Some(100)),
            rel(B, D, "sync", Some(50)),
            rel(A, C, "sync", Some(10)),
            rel(C, D, "sync", Some(500)),
        ],
    );
    assert_eq!(graph.critical_path_ms(), Some(510));
}

#[test]
fn critical_path_treats_a_missing_budget_as_zero() {
    let graph = graph_of(3, &[rel(A, B, "sync", None), rel(B, C, "sync", Some(75))]);
    assert_eq!(graph.critical_path_ms(), Some(75));
}

#[test]
fn critical_path_ignores_non_blocking_edges() {
    let graph = graph_of(2, &[rel(A, B, "event-driven", Some(9_000))]);
    assert_eq!(
        graph.critical_path_ms(),
        Some(0),
        "an async hop does not block the caller"
    );
}

#[test]
fn critical_path_is_undefined_for_a_cyclic_graph() {
    let graph = graph_of(2, &[rel(A, B, "sync", Some(10)), rel(B, A, "sync", Some(10))]);
    assert_eq!(
        graph.critical_path_ms(),
        None,
        "the cycle is the finding; a number would obscure it"
    );
}

#[test]
fn an_empty_architecture_has_a_zero_critical_path() {
    let graph = graph_of(0, &[]);
    assert_eq!(graph.critical_path_ms(), Some(0));
}

#[test]
fn roots_and_leaves_are_identified() {
    let graph = graph_of(3, &[rel(A, B, "sync", None), rel(B, C, "sync", None)]);
    assert_eq!(graph.roots(), vec![NodeId(A)]);
    assert_eq!(graph.leaves(), vec![NodeId(C)]);
}

#[test]
fn every_node_appears_in_the_graph_even_when_isolated() {
    let graph = graph_of(3, &[rel(A, B, "sync", None)]);
    assert!(graph.contains(NodeId(C)));
}

#[test]
fn outgoing_blocking_budget_excludes_async_edges() {
    let architecture = architecture_of(3, &[rel(A, B, "sync", Some(100)), rel(A, C, "async", Some(5_000))]);
    assert_eq!(blocking_budget_out_of(&architecture, NodeId(A)), 100);
}

#[test]
fn cycles_are_sorted_within_and_across_groups() {
    // Two separate cycles, declared out of order: {d, c} and {b, a}.
    let graph = graph_of(
        4,
        &[
            rel(D, C, "sync", None),
            rel(C, D, "sync", None),
            rel(B, A, "depends-on", None),
            rel(A, B, "depends-on", None),
        ],
    );
    assert_eq!(
        graph.cycles(),
        vec![vec![NodeId(A), NodeId(B)], vec![NodeId(C), NodeId(D)]]
    );
}

#[test]
fn a_self_loop_forms_no_group_but_has_no_critical_path() {
    let graph = graph_of(2, &[rel(A, A, "sync", Some(5)), rel(A, B, "sync", Some(7))]);
    assert!(graph.cycles().is_empty());
    assert!(graph.is_acyclic());
    assert_eq!(graph.critical_path_ms(), None);
}

#[test]
fn without_self_loops_acyclic_means_a_critical_path_exists() {
    let acyclic = graph_of(3, &[rel(A, B, "sync", Some(1)), rel(A, C, "sync", Some(2))]);
    assert_eq!(acyclic.is_acyclic(), acyclic.critical_path_ms().is_some());
    let cyclic = graph_of(3, &[rel(A, B, "sync", Some(1)), rel(B, A, "sync", Some(2))]);
    assert_eq!(cyclic.is_acyclic(), cyclic.critical_path_ms().is_some());
}

#[test]
fn critical_path_saturates() {
    let graph = graph_of(
        3,
        &[rel(A, B, "sync", Some(u64::MAX - 1)), rel(B, C, "sync", Some(10))],
    );
    assert_eq!(graph.critical_path_ms(), Some(u64::MAX));
}

#[test]
fn a_relationship_to_an_unknown_node_adds_no_edge() {
    let graph = graph_of(2, &[rel(A, 99, "sync", Some(40)), rel(A, B, "sync", Some(3))]);
    assert_eq!(graph.critical_path_ms(), Some(3));
    assert_eq!(graph.roots(), vec![NodeId(A)]);
    assert_eq!(graph.leaves(), vec![NodeId(B)]);
}

#[test]
fn blocking_budget_saturates_and_ignores_other_sources() {
    let architecture = architecture_of(
        3,
        &[
            rel(A, B, "sync", Some(u64::MAX)),
            rel(A, C, "depends-on", Some(7)),
            rel(B, C, "sync", Some(9)),
            rel(A, C, "sync", None),
        ],
    );
    assert_eq!(blocking_budget_out_of(&architecture, NodeId(A)), u64::MAX);
    assert_eq!(blocking_budget_out_of(&architecture, NodeId(B)), 9);
    assert_eq!(blocking_budget_out_of(&architecture, NodeId(C)), 0);
}
