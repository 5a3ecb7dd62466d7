use casm::record::Attributes;
use casm::architecture::{
    Architecture, Control, ControlType, Interface, Node, NodeType, Protocol, Relationship,
    RelationshipType,
};
use casm::config::ValidatorConfig;
use casm::diagnostic::{Diagnostic, NodeId, Report, Severity, Subject};
use casm::graph::DependencyGraph;
use casm::rules::{
    BoundaryCrossingsRequireControls, CriticalPathWithinBudget, NoDependencyCycles, NoIsolatedNodes,
    NoPubliclyExposedDatastores, Rule, RuleContext, ServicesRequireSecurityControls,
    StatefulNodesRequireControls, SyncTargetsShouldDeclareInterfaces,
};
use casm::validator::{built_in, Validator};

fn typed(id: u128, name: &str, node_type: NodeType) -> Node {
    Node {
        id: NodeId(id),
        name: name.to_owned(),
        node_type,
        description: None,
        interfaces: Vec::new(),
        controls: Vec::new(),
        metadata: Attributes::new(),
    }
}

fn control(control_type: ControlType) -> Control {
    Control {
        control_type,
        standard: "S".to_owned(),
        description: "enforced".to_owned(),
        evidence_required: false,
        tags: Vec::new(),
    }
}

fn interface(name: &str, protocol: Protocol) -> Interface {
    Interface {
        name: name.to_owned(),
        protocol,
        version: "1.0.0".to_owned(),
        schema_hash: None,
        description: None,
    }
}

fn service(id: u128, name: &str) -> Node {
    typed(id, name, NodeType::Service)
}

fn edge(source: &Node, target: &Node, relationship_type: RelationshipType) -> Relationship {
    Relationship {
        source: source.id,
        target: target.id,
        relationship_type,
        protocol: None,
        latency_budget_ms: None,
        controls: Vec::new(),
    }
}

fn sync(source: &Node, target: &Node) -> Relationship {
    edge(source, target, RelationshipType::Sync)
}

fn architecture(name: &str, nodes: Vec<Node>, relationships: Vec<Relationship>) -> Architecture {
    Architecture {
        name: name.to_owned(),
        version: "1.0.0".to_owned(),
        description: None,
        nodes,
        relationships,
        conformance: Vec::new(),
        metadata: Attributes::new(),
    }
}

/// Runs the full built-in library and returns the rule ids that fired.
fn fired(architecture: &Architecture) -> Vec<String> {
    Validator::new()
        .validate(architecture)
        .diagnostics
        .into_iter()
        .map(|d| d.rule)
        .collect()
}

fn has(architecture: &Architecture, rule: &str) -> bool {
    fired(architecture).iter().any(|fired| fired == rule)
}

/// A deliberately clean architecture: two controlled services and a
/// controlled store.
fn healthy_architecture() -> Architecture {
    let mut gateway = typed(1, "gateway", NodeType::Gateway);
    gateway.controls = vec![control(ControlType::Security), control(ControlType::Security)];
    gateway.interfaces = vec![interface("public", Protocol::Http2)];
    let mut orders = service(2, "orders");
    orders.controls = vec![control(ControlType::Security), control(ControlType::Security)];
    orders.interfaces = vec![interface("grpc", Protocol::Grpc)];
    let mut db = typed(3, "orders-db", NodeType::Database);
    db.interfaces = vec![interface("sql", Protocol::Sql)];
    db.controls = vec![control(ControlType::Security)];
    let mut g_o = sync(&gateway, &orders);
    g_o.latency_budget_ms = Some(100);
    let mut o_d = sync(&orders, &db);
    o_d.latency_budget_ms = Some(50);
    architecture("storefront", vec![gateway, orders, db], vec![g_o, o_d])
}

fn lone_database() -> Architecture {
    architecture("x", vec![typed(1, "db", NodeType::Database)], Vec::new())
}

#[test]
fn a_healthy_architecture_produces_a_clean_report() {
    let report = Validator::new().validate(&healthy_architecture());
    assert!(report.is_clean(), "unexpected findings:\n{}", report.render());
    assert_eq!(report.exit_code(), 0);
}

#[test]
fn validation_is_deterministic_across_runs() {
    let architecture = healthy_architecture();
    let validator = Validator::new();
    assert_eq!(validator.validate(&architecture), validator.validate(&architecture));
}

#[test]
fn an_empty_architecture_is_clean() {
    let empty = architecture("empty", Vec::new(), Vec::new());
    assert!(Validator::new().validate(&empty).is_clean());
}

#[test]
fn suppressed_rules_do_not_fire() {
    let lonely = lone_database();
    let noisy = Validator::new().validate(&lonely);
    assert!(noisy
        .diagnostics
        .iter()
        .any(|d| d.rule == "stateful-nodes-require-controls"));

    let quiet = Validator::with_config(ValidatorConfig::new().allowing("stateful-nodes-require-controls"))
        .validate(&lonely);
    assert!(quiet.is_clean(), "still reported:\n{}", quiet.render());
}

#[test]
fn an_empty_validator_reports_nothing() {
    let validator = Validator::empty(ValidatorConfig::default());
    assert!(validator.rule_ids().is_empty());
    assert!(validator.validate(&lone_database()).is_clean());
}

struct AlwaysComplains;

impl Rule for AlwaysComplains {
    fn id(&self) -> &'static str {
        "always-complains"
    }

    fn description(&self) -> &'static str {
        "a test rule that always fires"
    }

    fn check(&self, _: &RuleContext<'_>, report: &mut Report) {
        report.push(Diagnostic::new(
            self.id(),
            Severity::Error,
            Subject::Architecture,
            "as promised",
        ));
    }
}

#[test]
fn a_custom_rule_can_be_added() {
    let empty = architecture("x", Vec::new(), Vec::new());
    let report = Validator::empty(ValidatorConfig::default())
        .with_rule(Box::new(AlwaysComplains))
        .validate(&empty);
    assert_eq!(report.diagnostics.len(), 1);
    assert!(report.has_errors());
}

#[test]
fn the_default_validator_exposes_its_rule_set() {
    let ids = Validator::new().rule_ids();
    assert!(ids.contains(&"no-dependency-cycles"));
    assert!(ids.contains(&"no-publicly-exposed-datastores"));
    assert_eq!(ids.len(), built_in().len());
}

#[test]
fn a_broken_architecture_reports_every_independent_problem_at_once() {
    let external = typed(1, "partner", NodeType::ExternalSystem);
    let db = typed(2, "db", NodeType::Database);
    let orphan = service(3, "orphan");
    let e_d = sync(&external, &db);
    let broken = architecture("broken", vec![external, db, orphan], vec![e_d]);

    let report = Validator::new().validate(&broken);
    let fired: Vec<&str> = report.diagnostics.iter().map(|d| d.rule.as_str()).collect();
    assert!(fired.contains(&"no-publicly-exposed-datastores"), "{fired:?}");
    assert!(fired.contains(&"stateful-nodes-require-controls"), "{fired:?}");
    assert!(fired.contains(&"boundary-crossings-require-controls"), "{fired:?}");
    assert!(fired.contains(&"no-isolated-nodes"), "{fired:?}");
    assert_eq!(report.exit_code(), 2, "an error is present");
}

#[test]
fn a_dependency_cycle_is_an_error() {
    let (a, b) = (service(1, "a"), service(2, "b"));
    let edges = vec![sync(&a, &b), sync(&b, &a)];
    let cyclic = architecture("cyclic", vec![a, b], edges);
    let report = Validator::new().validate(&cyclic);
    assert!(report.has_errors());
    assert!(has(&cyclic, "no-dependency-cycles"));
}

#[test]
fn an_external_system_reaching_a_database_is_an_error() {
    let external = typed(1, "partner", NodeType::ExternalSystem);
    let db = typed(2, "orders-db", NodeType::Database);
    let edges = vec![sync(&external, &db)];
    let exposed = architecture("exposed", vec![external, db], edges);
    let report = Validator::new().validate(&exposed);
    assert!(report.has_errors());
    assert!(has(&exposed, "no-publicly-exposed-datastores"));
}

#[test]
fn a_service_fronting_the_database_clears_the_exposure_rule() {
    let external = typed(1, "partner", NodeType::ExternalSystem);
    let api = service(2, "api");
    let db = typed(3, "orders-db", NodeType::Database);
    let edges = vec![sync(&external, &api), sync(&api, &db)];
    let fronted = architecture("fronted", vec![external, api, db], edges);
    assert!(!has(&fronted, "no-publicly-exposed-datastores"));
}

#[test]
fn a_service_without_security_controls_warns() {
    let x = architecture("x", vec![service(1, "api")], Vec::new());
    assert!(has(&x, "services-require-security-controls"));
}

#[test]
fn a_service_with_enough_security_controls_is_quiet() {
    let mut api = service(1, "api");
    api.controls = vec![control(ControlType::Security), control(ControlType::Security)];
    let x = architecture("x", vec![api], Vec::new());
    assert!(!has(&x, "services-require-security-controls"));
}

#[test]
fn the_security_control_threshold_is_configurable() {
    let x = architecture("x", vec![service(1, "api")], Vec::new());
    let relaxed = Validator::with_config(ValidatorConfig {
        min_security_controls_per_service: 0,
        ..ValidatorConfig::default()
    });
    let rules = relaxed.validate(&x).diagnostics;
    assert!(!rules
        .iter()
        .any(|d| d.rule == "services-require-security-controls"));
}

#[test]
fn an_uncontrolled_database_warns() {
    assert!(has(&lone_database(), "stateful-nodes-require-controls"));
}

#[test]
fn a_stateless_service_does_not_trip_the_stateful_rule() {
    let x = architecture("x", vec![service(1, "api")], Vec::new());
    assert!(!has(&x, "stateful-nodes-require-controls"));
}

#[test]
fn an_over_budget_critical_path_warns() {
    let (a, b) = (service(1, "a"), service(2, "b"));
    let mut a_b = sync(&a, &b);
    a_b.latency_budget_ms = Some(5_000);
    let slow = architecture("slow", vec![a, b], vec![a_b]);
    assert!(has(&slow, "critical-path-within-budget"));
}

#[test]
fn a_cyclic_architecture_does_not_also_report_a_budget_violation() {
    let (a, b) = (service(1, "a"), service(2, "b"));
    let mut a_b = sync(&a, &b);
    a_b.latency_budget_ms = Some(9_000);
    let mut b_a = sync(&b, &a);
    b_a.latency_budget_ms = Some(9_000);
    let cyclic = architecture("cyclic", vec![a, b], vec![a_b, b_a]);
    assert!(!has(&cyclic, "critical-path-within-budget"));
}

#[test]
fn an_isolated_node_warns_but_a_lone_node_does_not() {
    let lone = architecture("x", vec![service(1, "api")], Vec::new());
    assert!(!has(&lone, "no-isolated-nodes"), "one node is a valid start");

    let (a, b) = (service(1, "a"), service(2, "b"));
    let edges = vec![sync(&a, &b)];
    let with_orphan = architecture("x", vec![a, b, service(3, "orphan")], edges);
    assert!(has(&with_orphan, "no-isolated-nodes"));
}

#[test]
fn an_uncontrolled_boundary_crossing_warns() {
    let external = typed(1, "partner", NodeType::ExternalSystem);
    let api = service(2, "api");
    let edges = vec![sync(&external, &api)];
    let x = architecture("x", vec![external, api], edges);
    assert!(has(&x, "boundary-crossings-require-controls"));
}

#[test]
fn a_controlled_boundary_crossing_is_quiet() {
    let external = typed(1, "partner", NodeType::ExternalSystem);
    let api = service(2, "api");
    let mut crossing = sync(&external, &api);
    crossing.controls = vec![control(ControlType::Security)];
    let x = architecture("x", vec![external, api], vec![crossing]);
    assert!(!has(&x, "boundary-crossings-require-controls"));
}

#[test]
fn a_sync_target_without_interfaces_is_reported_as_info_only() {
    let (a, b) = (service(1, "a"), service(2, "b"));
    let edges = vec![sync(&a, &b)];
    let x = architecture("x", vec![a, b], edges);
    let report = Validator::new().validate(&x);
    let finding = report
        .diagnostics
        .iter()
        .find(|d| d.rule == "sync-targets-should-declare-interfaces")
        .expect("rule should have fired");
    assert_eq!(finding.severity, Severity::Info);
}

#[test]
fn declaring_an_interface_satisfies_the_sync_target_rule() {
    let a = service(1, "a");
    let mut b = service(2, "b");
    b.interfaces = vec![interface("rest", Protocol::Http2)];
    let edges = vec![sync(&a, &b)];
    let x = architecture("x", vec![a, b], edges);
    assert!(!has(&x, "sync-targets-should-declare-interfaces"));
}

#[test]
fn every_built_in_rule_has_a_unique_kebab_case_id() {
    let rules = built_in();
    let mut ids: Vec<&str> = rules.iter().map(|rule| rule.id()).collect();
    let count = ids.len();
    ids.sort_unstable();
    ids.dedup();
    assert_eq!(ids.len(), count, "rule ids must be unique: they are a public contract");
    for id in ids {
        assert!(
            id.chars().all(|c| c.is_ascii_lowercase() || c == '-'),
            "'{id}' must be kebab-case"
        );
    }
}

#[test]
fn every_built_in_rule_documents_itself() {
    for rule in built_in() {
        assert!(!rule.description().is_empty(), "{} has no description", rule.id());
    }
}

/// Runs one rule against `architecture` under the default thresholds.
fn findings_of(rule: &dyn Rule, architecture: &Architecture) -> Vec<Diagnostic> {
    let graph = DependencyGraph::build(architecture);
    let config = ValidatorConfig::default();
    let context = RuleContext {
        architecture,
        graph: &graph,
        config: &config,
        patterns: &[],
    };
    let mut report = Report::new();
    rule.check(&context, &mut report);
    report.diagnostics
}

#[test]
fn a_cycle_finding_names_its_members_in_order() {
    let (a, b, c) = (service(1, "a"), service(2, "b"), service(3, "c"));
    let edges = vec![
        sync(&c, &a),
        edge(&a, &b, RelationshipType::DependsOn),
        sync(&b, &c),
    ];
    let cyclic = architecture("cyclic", vec![a, b, c], edges);
    let findings = findings_of(&NoDependencyCycles, &cyclic);
    assert_eq!(findings.len(), 1);
    assert_eq!(findings[0].severity, Severity::Error);
    assert_eq!(
        findings[0].subject,
        Subject::NodeSet {
            names: vec!["a".to_owned(), "b".to_owned(), "c".to_owned()]
        }
    );
    assert_eq!(
        findings[0].message,
        "3 nodes form a blocking dependency cycle, so no deployment order exists and a failure in any member propagates to all"
    );
}

#[test]
fn an_exposure_finding_names_the_store_and_its_type() {
    let human = typed(1, "analyst", NodeType::Human);
    let queue = typed(2, "jobs", NodeType::Queue);
    let edges = vec![edge(&human, &queue, RelationshipType::Async)];
    let x = architecture("x", vec![human, queue], edges);
    let findings = findings_of(&NoPubliclyExposedDatastores, &x);
    assert_eq!(findings.len(), 1);
    assert_eq!(
        findings[0].message,
        "'analyst' is outside the control boundary and connects directly to the queue 'jobs'"
    );
    assert_eq!(
        findings[0].subject,
        Subject::Relationship {
            source: "analyst".to_owned(),
            target: "jobs".to_owned()
        }
    );
}

#[test]
fn a_security_finding_counts_what_is_missing() {
    let mut gateway = typed(1, "edge", NodeType::Gateway);
    gateway.controls = vec![control(ControlType::Security), control(ControlType::Operational)];
    let x = architecture("x", vec![gateway], Vec::new());
    let findings = findings_of(&ServicesRequireSecurityControls, &x);
    assert_eq!(findings.len(), 1);
    assert_eq!(findings[0].message, "declares 1 security control(s) but 2 are required");
    assert_eq!(
        findings[0].suggestion.as_deref(),
        Some("add 1 more control(s) with 'type: security' describing how this node is authenticated, authorised, and encrypted")
    );
}

#[test]
fn a_stateful_finding_names_the_node_type() {
    let x = architecture("x", vec![typed(1, "blobs", NodeType::Storage)], Vec::new());
    let findings = findings_of(&StatefulNodesRequireControls, &x);
    assert_eq!(findings.len(), 1);
    assert_eq!(
        findings[0].message,
        "is a storage holding persistent state but declares no controls"
    );
    assert_eq!(
        findings[0].subject,
        Subject::Node {
            id: NodeId(1),
            name: "blobs".to_owned(),
        }
    );
}

#[test]
fn a_budget_finding_states_both_numbers() {
    let (a, b, c) = (service(1, "a"), service(2, "b"), service(3, "c"));
    let mut a_b = sync(&a, &b);
    a_b.latency_budget_ms = Some(700);
    let mut b_c = edge(&b, &c, RelationshipType::Composed);
    b_c.latency_budget_ms = Some(400);
    let x = architecture("x", vec![a, b, c], vec![a_b, b_c]);
    let findings = findings_of(&CriticalPathWithinBudget, &x);
    assert_eq!(findings.len(), 1);
    assert_eq!(findings[0].subject, Subject::Architecture);
    assert_eq!(
        findings[0].message,
        "the critical path budget is 1100ms, exceeding the 1000ms ceiling; the end-to-end SLO is not arithmetically achievable"
    );
}

#[test]
fn a_crossing_into_the_boundary_and_out_of_it_both_count() {
    let (api, partner) = (service(1, "api"), typed(2, "partner", NodeType::ExternalSystem));
    let edges = vec![sync(&api, &partner), sync(&partner, &api)];
    let x = architecture("x", vec![api, partner], edges);
    assert_eq!(findings_of(&BoundaryCrossingsRequireControls, &x).len(), 2);
}

#[test]
fn only_nodes_outside_every_relationship_are_isolated() {
    let (a, b, c) = (service(1, "a"), service(2, "b"), service(3, "c"));
    let edges = vec![edge(&a, &b, RelationshipType::EventDriven)];
    let x = architecture("x", vec![a, b, c], edges);
    let findings = findings_of(&NoIsolatedNodes, &x);
    assert_eq!(findings.len(), 1);
    assert_eq!(
        findings[0].subject,
        Subject::Node {
            id: NodeId(3),
            name: "c".to_owned(),
        }
    );
}

#[test]
fn only_sync_calls_ask_for_interfaces_and_never_of_external_nodes() {
    let (a, b) = (service(1, "a"), service(2, "b"));
    let partner = typed(3, "partner", NodeType::ExternalSystem);
    let edges = vec![
        edge(&a, &b, RelationshipType::DependsOn),
        sync(&a, &partner),
    ];
    let x = architecture("x", vec![a, b, partner], edges);
    assert!(findings_of(&SyncTargetsShouldDeclareInterfaces, &x).is_empty());
}

#[test]
fn a_node_missing_from_the_architecture_is_named_by_its_identifier() {
    let a = service(1, "a");
    let graph = DependencyGraph::build(&architecture("x", vec![a.clone()], Vec::new()));
    let elsewhere = architecture("y", Vec::new(), Vec::new());
    let config = ValidatorConfig::default();
    let context = RuleContext {
        architecture: &elsewhere,
        graph: &graph,
        config: &config,
        patterns: &[],
    };
    assert_eq!(context.name_of(NodeId(0x0123_4567_89ab_cdef_0011_2233_4455_6677)), "01234567-89ab-cdef-0011-223344556677");
    assert_eq!(context.name_of(a.id), "00000000-0000-0000-0000-000000000001");
}
