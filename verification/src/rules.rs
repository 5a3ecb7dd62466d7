//! The built-in policy rules and the trait organisations extend.
//!
//! Each rule carries a stable identifier: it appears in output and in
//! suppression lists, so it is part of the public contract. Every rule
//! receives the same [`RuleContext`]: the architecture, its dependency graph
//! built once, and the run's thresholds. A rule is an error only when the
//! architecture is unbuildable or unsafe as written (a dependency cycle, a
//! datastore reachable from outside); everything else is a warning or
//! information.
use vstd::prelude::*;

use crate::architecture::{
    count_of, display_name, external, node_type_label, node_with_id, stateful, Architecture, ArchitectureV,
    ControlType, Node, NodeType, NodeV, RelationshipType, RelationshipV, connected,
};
use crate::catalog::{names, PatternRef};
use crate::chars::{concat_strs, join_strings, joined, joined_with, owned};
use crate::pattern::{reference_of, Pattern, PatternV};
use crate::seqs::{first_match, lemma_first_match_is};
use crate::config::{ConfigV, ValidatorConfig};
use crate::diagnostic::{Diagnostic, DiagnosticV, NodeId, Report, Severity, Subject, SubjectV};
use crate::fmt::{decimal, decimal_string, uuid_string, uuid_text};
use crate::graph::{critical_path_of, cycle_groups, tarjan_components, DependencyGraph, GraphV};
use crate::sorting::group_ids;
use crate::conformance::{claim_findings, claims_findings, diagnostic_views, findings_of_claim, patterns_are_satisfied};

verus! {

/// Everything a rule needs to reach a verdict.
pub struct RuleContext<'a> {
    /// The architecture under validation.
    pub architecture: &'a Architecture,
    /// Its blocking-dependency graph, built once and shared across all rules.
    pub graph: &'a DependencyGraph,
    /// The thresholds this run is configured with.
    pub config: &'a ValidatorConfig,
    /// The patterns conformance claims are checked against.
    pub patterns: &'a [Pattern],
}

/// The model of a [`RuleContext`].
pub struct RuleContextV {
    pub architecture: ArchitectureV,
    pub graph: GraphV,
    pub config: ConfigV,
    pub patterns: Seq<PatternV>,
}

impl<'a> View for RuleContext<'a> {
    type V = RuleContextV;

    open spec fn view(&self) -> RuleContextV {
        RuleContextV {
            architecture: self.architecture@,
            graph: self.graph@,
            config: self.config@,
            patterns: self.patterns@.map_values(|p: Pattern| p@),
        }
    }
}

/// A finding with a suggestion.
pub open spec fn finding(
    rule: Seq<char>,
    severity: Severity,
    subject: SubjectV,
    message: Seq<char>,
    suggestion: Seq<char>,
) -> DiagnosticV {
    DiagnosticV { rule, severity, subject, message, suggestion: Some(suggestion) }
}

/// The subject naming a node.
pub open spec fn node_subject(n: NodeV) -> SubjectV {
    SubjectV::Node { id: n.id, name: n.name }
}

/// How a node is named in a finding: by its name, or by its identifier when
/// the architecture has no node carrying it.
pub open spec fn name_of(architecture: ArchitectureV, id: NodeId) -> Seq<char> {
    display_name(architecture, id)
}

impl<'a> RuleContext<'a> {
    /// The subject naming `node`.
    pub fn subject(node: &Node) -> (s: Subject)
        ensures
            s@ == node_subject(node@),
    {
        Subject::Node { id: node.id, name: owned(node.name.as_str()) }
    }

    /// The name of the node carrying `id`, or the identifier itself when
    /// there is none.
    pub fn name_of(&self, id: NodeId) -> (s: String)
        ensures
            s@ == name_of(self.architecture@, id),
    {
        self.architecture.display_name(id)
    }
}

/// A single validation rule.
pub trait Rule {
    /// The rule's identifier, as text; left unspecified for a rule that does
    /// not state it.
    closed spec fn rule_id(&self) -> Seq<char> {
        arbitrary()
    }

    /// The rule's one-line explanation, as text; left unspecified for a rule
    /// that does not state it.
    closed spec fn rule_description(&self) -> Seq<char> {
        arbitrary()
    }

    /// The findings the rule reports against a context, in order; left
    /// unspecified for a rule that does not state them.
    closed spec fn findings(&self, context: RuleContextV) -> Seq<DiagnosticV> {
        arbitrary()
    }

    /// The rule's stable, kebab-case identifier. Part of the public contract.
    fn id(&self) -> (s: &'static str)
        ensures
            s@ == self.rule_id(),
    ;

    /// A one-line explanation of what the rule enforces and why.
    fn description(&self) -> (s: &'static str)
        ensures
            s@ == self.rule_description(),
    ;

    /// Examines the architecture and appends any findings to `report`.
    fn check(&self, context: &RuleContext<'_>, report: &mut Report)
        ensures
            final(report)@ == old(report)@ + self.findings(context@),
    ;
}

// ---------------------------------------------------------------------------
// no-dependency-cycles

/// The finding for one dependency cycle, given as its members' identifiers.
pub open spec fn cycle_finding(architecture: ArchitectureV, group: Seq<u128>) -> DiagnosticV {
    finding(
        "no-dependency-cycles"@,
        Severity::Error,
        SubjectV::NodeSet { names: group.map_values(|raw: u128| name_of(architecture, NodeId(raw))) },
        decimal(group.len()) + " nodes form a blocking dependency cycle, so no deployment order exists and a failure in any member propagates to all"@,
        "break the ring by making one hop 'async' or 'event-driven', or by extracting the shared concern into a node both can depend on"@,
    )
}

/// The findings of [`NoDependencyCycles`]: one error per dependency cycle, in
/// the graph's deterministic cycle order.
pub open spec fn cycle_findings(context: RuleContextV) -> Seq<DiagnosticV> {
    cycle_groups(context.graph.nodes, tarjan_components(context.graph.nodes.len(), context.graph.edges)).map_values(
        |g: Seq<u128>| cycle_finding(context.architecture, g),
    )
}

/// Blocking dependencies must not form a cycle: no deployment order exists,
/// and a failure anywhere in the ring propagates to every member.
pub struct NoDependencyCycles;

impl Rule for NoDependencyCycles {
    open spec fn rule_id(&self) -> Seq<char> {
        "no-dependency-cycles"@
    }

    open spec fn rule_description(&self) -> Seq<char> {
        "blocking dependencies (sync, depends-on, composed, quantum-entangled) must be acyclic"@
    }

    open spec fn findings(&self, context: RuleContextV) -> Seq<DiagnosticV> {
        cycle_findings(context)
    }

    fn id(&self) -> (s: &'static str) {
        "no-dependency-cycles"
    }

    fn description(&self) -> (s: &'static str) {
        "blocking dependencies (sync, depends-on, composed, quantum-entangled) must be acyclic"
    }

    fn check(&self, context: &RuleContext<'_>, report: &mut Report) {
        let cycles = context.graph.cycles();
        let ghost groups = group_ids(cycles@);
        let ghost start = report@;
        let ghost arch = context.architecture@;
        let mut k: usize = 0;
        while k < cycles.len()
            invariant
                k <= cycles@.len(),
                groups == group_ids(cycles@),
                groups == cycle_groups(context.graph@.nodes, tarjan_components(context.graph@.nodes.len(), context.graph@.edges)),
                arch == context.architecture@,
                report@ == start + groups.take(k as int).map_values(|g: Seq<u128>| cycle_finding(arch, g)),
            decreases cycles@.len() - k,
        {
            let cycle = &cycles[k];
            let ghost g = groups[k as int];
            assert(g == crate::graph::raw_ids(cycle@));
            let mut names: Vec<String> = Vec::new();
            let mut j: usize = 0;
            while j < cycle.len()
                invariant
                    j <= cycle@.len(),
                    g == crate::graph::raw_ids(cycle@),
                    arch == context.architecture@,
                    names@.len() == j,
                    names@.map_values(|n: String| n@) == g.take(j as int).map_values(|raw: u128| name_of(arch, NodeId(raw))),
                decreases cycle@.len() - j,
            {
                let ghost before = names@;
                let name = context.name_of(cycle[j]);
                names.push(name);
                proof {
                    assert(g[j as int] == cycle@[j as int].0);
                    assert(names@.map_values(|n: String| n@) =~= g.take(j + 1).map_values(|raw: u128| name_of(arch, NodeId(raw)))) by {
                        assert forall|q: int| 0 <= q < j + 1 implies #[trigger] names@[q]@ == name_of(arch, NodeId(g[q])) by {
                            if q < j {
                                assert(names@[q] == before[q]);
                                assert(before.map_values(|n: String| n@)[q] == g.take(j as int).map_values(|raw: u128| name_of(arch, NodeId(raw)))[q]);
                            }
                        }
                    }
                }
                j = j + 1;
            }
            assert(g.take(j as int) =~= g);
            let count = decimal_string(names.len() as u64);
            let message = concat_strs(
                &[
                    count.as_str(),
                    " nodes form a blocking dependency cycle, so no deployment order exists and a failure in any member propagates to all",
                ],
            );
            proof {
                reveal_with_fuel(joined, 3);
            }
            let d = Diagnostic::new(
                "no-dependency-cycles",
                Severity::Error,
                Subject::NodeSet { names },
                message.as_str(),
            ).with_suggestion(
                "break the ring by making one hop 'async' or 'event-driven', or by extracting the shared concern into a node both can depend on",
            );
            assert(d@ == cycle_finding(arch, g));
            report.push(d);
            proof {
                let done = groups.take(k as int).map_values(|g: Seq<u128>| cycle_finding(arch, g));
                assert(groups.take(k + 1).map_values(|g: Seq<u128>| cycle_finding(arch, g)) =~= done.push(cycle_finding(arch, g)));
            }
            k = k + 1;
        }
        assert(groups.take(k as int) =~= groups);
    }
}

// ---------------------------------------------------------------------------
// no-publicly-exposed-datastores

/// The finding, if any, for one relationship: an external source connecting
/// directly to a stateful target.
pub open spec fn exposure_of(architecture: ArchitectureV, r: RelationshipV) -> Seq<DiagnosticV> {
    match (node_with_id(architecture.nodes, r.source), node_with_id(architecture.nodes, r.target)) {
        (Some(s), Some(t)) => if external(s.node_type) && stateful(t.node_type) {
            seq![
                finding(
                    "no-publicly-exposed-datastores"@,
                    Severity::Error,
                    SubjectV::Relationship { source: s.name, target: t.name },
                    "'"@ + s.name + "' is outside the control boundary and connects directly to the "@
                        + node_type_label(t.node_type) + " '"@ + t.name + "'"@,
                    "route the access through a service or gateway that can enforce authentication, authorisation, and rate limiting"@,
                ),
            ]
        } else {
            Seq::empty()
        },
        _ => Seq::empty(),
    }
}

/// The findings of [`NoPubliclyExposedDatastores`] over `rels`, in order.
pub open spec fn exposure_findings(architecture: ArchitectureV, rels: Seq<RelationshipV>) -> Seq<DiagnosticV>
    decreases rels.len(),
{
    if rels.len() == 0 {
        Seq::empty()
    } else {
        exposure_findings(architecture, rels.drop_last()) + exposure_of(architecture, rels.last())
    }
}

/// A datastore must not be reachable directly from outside the control
/// boundary: no database on the public internet.
pub struct NoPubliclyExposedDatastores;

impl Rule for NoPubliclyExposedDatastores {
    open spec fn rule_id(&self) -> Seq<char> {
        "no-publicly-exposed-datastores"@
    }

    open spec fn rule_description(&self) -> Seq<char> {
        "external systems and humans must not connect directly to a database, queue, or store"@
    }

    open spec fn findings(&self, context: RuleContextV) -> Seq<DiagnosticV> {
        exposure_findings(context.architecture, context.architecture.relationships)
    }

    fn id(&self) -> (s: &'static str) {
        "no-publicly-exposed-datastores"
    }

    fn description(&self) -> (s: &'static str) {
        "external systems and humans must not connect directly to a database, queue, or store"
    }

    fn check(&self, context: &RuleContext<'_>, report: &mut Report) {
        let architecture = context.architecture;
        let ghost arch = architecture@;
        let ghost rels = arch.relationships;
        let ghost start = report@;
        let mut i: usize = 0;
        while i < architecture.relationships.len()
            invariant
                i <= rels.len(),
                arch == architecture@,
                rels == arch.relationships,
                report@ == start + exposure_findings(arch, rels.take(i as int)),
            decreases rels.len() - i,
        {
            let edge = &architecture.relationships[i];
            assert(edge@ == rels[i as int]);
            assert(rels.take(i + 1).drop_last() =~= rels.take(i as int));
            let ghost before = report@;
            if let (Some(source), Some(target)) = (architecture.node(edge.source), architecture.node(edge.target)) {
                if source.node_type.is_external() && target.node_type.is_stateful() {
                    let message = concat_strs(
                        &[
                            "'",
                            source.name.as_str(),
                            "' is outside the control boundary and connects directly to the ",
                            target.node_type.label(),
                            " '",
                            target.name.as_str(),
                            "'",
                        ],
                    );
                    proof {
                        reveal_with_fuel(joined, 8);
                    }
                    let d = Diagnostic::new(
                        "no-publicly-exposed-datastores",
                        Severity::Error,
                        Subject::Relationship {
                            source: owned(source.name.as_str()),
                            target: owned(target.name.as_str()),
                        },
                        message.as_str(),
                    ).with_suggestion(
                        "route the access through a service or gateway that can enforce authentication, authorisation, and rate limiting",
                    );
                    report.push(d);
                    assert(report@ =~= before + exposure_of(arch, rels[i as int]));
                } else {
                    assert(report@ =~= before + exposure_of(arch, rels[i as int]));
                }
            } else {
                assert(report@ =~= before + exposure_of(arch, rels[i as int]));
            }
            i = i + 1;
        }
        assert(rels.take(i as int) =~= rels);
    }
}

// ---------------------------------------------------------------------------
// boundary-crossings-require-controls

/// The finding, if any, for one relationship: it crosses the trust boundary
/// and declares no controls.
pub open spec fn crossing_of(architecture: ArchitectureV, r: RelationshipV) -> Seq<DiagnosticV> {
    match (node_with_id(architecture.nodes, r.source), node_with_id(architecture.nodes, r.target)) {
        (Some(s), Some(t)) => if external(s.node_type) != external(t.node_type) && r.controls.len() == 0 {
            seq![
                finding(
                    "boundary-crossings-require-controls"@,
                    Severity::Warning,
                    SubjectV::Relationship { source: s.name, target: t.name },
                    "crosses the trust boundary but declares no controls"@,
                    "declare the transport and authentication controls governing this edge, for example mutual TLS and a token audience restriction"@,
                ),
            ]
        } else {
            Seq::empty()
        },
        _ => Seq::empty(),
    }
}

/// The findings of [`BoundaryCrossingsRequireControls`] over `rels`, in
/// order.
pub open spec fn crossing_findings(architecture: ArchitectureV, rels: Seq<RelationshipV>) -> Seq<DiagnosticV>
    decreases rels.len(),
{
    if rels.len() == 0 {
        Seq::empty()
    } else {
        crossing_findings(architecture, rels.drop_last()) + crossing_of(architecture, rels.last())
    }
}

/// Relationships crossing the control boundary must declare controls.
pub struct BoundaryCrossingsRequireControls;

impl Rule for BoundaryCrossingsRequireControls {
    open spec fn rule_id(&self) -> Seq<char> {
        "boundary-crossings-require-controls"@
    }

    open spec fn rule_description(&self) -> Seq<char> {
        "relationships that cross the trust boundary must declare at least one control"@
    }

    open spec fn findings(&self, context: RuleContextV) -> Seq<DiagnosticV> {
        crossing_findings(context.architecture, context.architecture.relationships)
    }

    fn id(&self) -> (s: &'static str) {
        "boundary-crossings-require-controls"
    }

    fn description(&self) -> (s: &'static str) {
        "relationships that cross the trust boundary must declare at least one control"
    }

    fn check(&self, context: &RuleContext<'_>, report: &mut Report) {
        let architecture = context.architecture;
        let ghost arch = architecture@;
        let ghost rels = arch.relationships;
        let ghost start = report@;
        let mut i: usize = 0;
        while i < architecture.relationships.len()
            invariant
                i <= rels.len(),
                arch == architecture@,
                rels == arch.relationships,
                report@ == start + crossing_findings(arch, rels.take(i as int)),
            decreases rels.len() - i,
        {
            let edge = &architecture.relationships[i];
            assert(edge@ == rels[i as int]);
            assert(rels.take(i + 1).drop_last() =~= rels.take(i as int));
            let ghost before = report@;
            if let (Some(source), Some(target)) = (architecture.node(edge.source), architecture.node(edge.target)) {
                let crosses = source.node_type.is_external() != target.node_type.is_external();
                if crosses && edge.controls.len() == 0 {
                    let d = Diagnostic::new(
                        "boundary-crossings-require-controls",
                        Severity::Warning,
                        Subject::Relationship {
                            source: owned(source.name.as_str()),
                            target: owned(target.name.as_str()),
                        },
                        "crosses the trust boundary but declares no controls",
                    ).with_suggestion(
                        "declare the transport and authentication controls governing this edge, for example mutual TLS and a token audience restriction",
                    );
                    report.push(d);
                    assert(report@ =~= before + crossing_of(arch, rels[i as int]));
                } else {
                    assert(report@ =~= before + crossing_of(arch, rels[i as int]));
                }
            } else {
                assert(report@ =~= before + crossing_of(arch, rels[i as int]));
            }
            i = i + 1;
        }
        assert(rels.take(i as int) =~= rels);
    }
}

// ---------------------------------------------------------------------------
// services-require-security-controls

/// The finding, if any, for one node: a service or gateway declaring fewer
/// than `required` security controls.
pub open spec fn undersecured(required: nat, n: NodeV) -> Seq<DiagnosticV> {
    let declared = count_of(n.controls, ControlType::Security);
    if (n.node_type is Service || n.node_type is Gateway) && declared < required {
        seq![
            finding(
                "services-require-security-controls"@,
                Severity::Warning,
                node_subject(n),
                "declares "@ + decimal(declared) + " security control(s) but "@ + decimal(required)
                    + " are required"@,
                "add "@ + decimal((required - declared) as nat)
                    + " more control(s) with 'type: security' describing how this node is authenticated, authorised, and encrypted"@,
            ),
        ]
    } else {
        Seq::empty()
    }
}

/// The findings of [`ServicesRequireSecurityControls`] over `nodes`, in
/// order.
pub open spec fn security_findings(required: nat, nodes: Seq<NodeV>) -> Seq<DiagnosticV>
    decreases nodes.len(),
{
    if nodes.len() == 0 {
        Seq::empty()
    } else {
        security_findings(required, nodes.drop_last()) + undersecured(required, nodes.last())
    }
}

/// Every service and gateway must declare at least the configured number of
/// security controls; a threshold of 0 disables the rule.
pub struct ServicesRequireSecurityControls;

impl Rule for ServicesRequireSecurityControls {
    open spec fn rule_id(&self) -> Seq<char> {
        "services-require-security-controls"@
    }

    open spec fn rule_description(&self) -> Seq<char> {
        "each service and gateway must declare at least the configured number of security controls"@
    }

    open spec fn findings(&self, context: RuleContextV) -> Seq<DiagnosticV> {
        let required = context.config.min_security_controls_per_service;
        if required == 0 {
            Seq::empty()
        } else {
            security_findings(required as nat, context.architecture.nodes)
        }
    }

    fn id(&self) -> (s: &'static str) {
        "services-require-security-controls"
    }

    fn description(&self) -> (s: &'static str) {
        "each service and gateway must declare at least the configured number of security controls"
    }

    fn check(&self, context: &RuleContext<'_>, report: &mut Report) {
        let required = context.config.min_security_controls_per_service;
        if required == 0 {
            assert(report@ =~= old(report)@ + Seq::<DiagnosticV>::empty());
            return;
        }
        let architecture = context.architecture;
        let ghost arch = architecture@;
        let ghost nodes = arch.nodes;
        let ghost start = report@;
        let mut i: usize = 0;
        while i < architecture.nodes.len()
            invariant
                i <= nodes.len(),
                arch == architecture@,
                nodes == arch.nodes,
                required == context.config@.min_security_controls_per_service,
                report@ == start + security_findings(required as nat, nodes.take(i as int)),
            decreases nodes.len() - i,
        {
            let node = &architecture.nodes[i];
            assert(node@ == nodes[i as int]);
            assert(nodes.take(i + 1).drop_last() =~= nodes.take(i as int));
            let ghost before = report@;
            if matches!(node.node_type, NodeType::Service | NodeType::Gateway) {
                let declared = node.controls_of_type(ControlType::Security);
                if declared < required {
                    let message = concat_strs(
                        &[
                            "declares ",
                            decimal_string(declared as u64).as_str(),
                            " security control(s) but ",
                            decimal_string(required as u64).as_str(),
                            " are required",
                        ],
                    );
                    let missing = required - declared;
                    let hint = concat_strs(
                        &[
                            "add ",
                            decimal_string(missing as u64).as_str(),
                            " more control(s) with 'type: security' describing how this node is authenticated, authorised, and encrypted",
                        ],
                    );
                    proof {
                        reveal_with_fuel(joined, 6);
                    }
                    let d = Diagnostic::new(
                        "services-require-security-controls",
                        Severity::Warning,
                        RuleContext::subject(node),
                        message.as_str(),
                    ).with_suggestion(hint.as_str());
                    report.push(d);
                    assert(report@ =~= before + undersecured(required as nat, nodes[i as int]));
                } else {
                    assert(report@ =~= before + undersecured(required as nat, nodes[i as int]));
                }
            } else {
                assert(report@ =~= before + undersecured(required as nat, nodes[i as int]));
            }
            i = i + 1;
        }
        assert(nodes.take(i as int) =~= nodes);
    }
}

// ---------------------------------------------------------------------------
// stateful-nodes-require-controls

/// The finding, if any, for one node: it holds state and declares no
/// controls.
pub open spec fn uncontrolled_state(n: NodeV) -> Seq<DiagnosticV> {
    if stateful(n.node_type) && n.controls.len() == 0 {
        seq![
            finding(
                "stateful-nodes-require-controls"@,
                Severity::Warning,
                node_subject(n),
                "is a "@ + node_type_label(n.node_type) + " holding persistent state but declares no controls"@,
                "declare controls covering encryption at rest, backup and restore, and access restriction"@,
            ),
        ]
    } else {
        Seq::empty()
    }
}

/// The findings of [`StatefulNodesRequireControls`] over `nodes`, in order.
pub open spec fn stateful_findings(nodes: Seq<NodeV>) -> Seq<DiagnosticV>
    decreases nodes.len(),
{
    if nodes.len() == 0 {
        Seq::empty()
    } else {
        stateful_findings(nodes.drop_last()) + uncontrolled_state(nodes.last())
    }
}

/// Stateful nodes must declare at least one control: a database with none is
/// one nobody has thought about backing up, encrypting, or restricting.
pub struct StatefulNodesRequireControls;

impl Rule for StatefulNodesRequireControls {
    open spec fn rule_id(&self) -> Seq<char> {
        "stateful-nodes-require-controls"@
    }

    open spec fn rule_description(&self) -> Seq<char> {
        "nodes that hold state must declare at least one control"@
    }

    open spec fn findings(&self, context: RuleContextV) -> Seq<DiagnosticV> {
        stateful_findings(context.architecture.nodes)
    }

    fn id(&self) -> (s: &'static str) {
        "stateful-nodes-require-controls"
    }

    fn description(&self) -> (s: &'static str) {
        "nodes that hold state must declare at least one control"
    }

    fn check(&self, context: &RuleContext<'_>, report: &mut Report) {
        let architecture = context.architecture;
        let ghost arch = architecture@;
        let ghost nodes = arch.nodes;
        let ghost start = report@;
        let mut i: usize = 0;
        while i < architecture.nodes.len()
            invariant
                i <= nodes.len(),
                arch == architecture@,
                nodes == arch.nodes,
                report@ == start + stateful_findings(nodes.take(i as int)),
            decreases nodes.len() - i,
        {
            let node = &architecture.nodes[i];
            assert(node@ == nodes[i as int]);
            assert(nodes.take(i + 1).drop_last() =~= nodes.take(i as int));
            let ghost before = report@;
            if node.node_type.is_stateful() && node.controls.len() == 0 {
                let message = concat_strs(
                    &["is a ", node.node_type.label(), " holding persistent state but declares no controls"],
                );
                proof {
                    reveal_with_fuel(joined, 4);
                }
                let d = Diagnostic::new(
                    "stateful-nodes-require-controls",
                    Severity::Warning,
                    RuleContext::subject(node),
                    message.as_str(),
                ).with_suggestion(
                    "declare controls covering encryption at rest, backup and restore, and access restriction",
                );
                report.push(d);
                assert(report@ =~= before + uncontrolled_state(nodes[i as int]));
            } else {
                assert(report@ =~= before + uncontrolled_state(nodes[i as int]));
            }
            i = i + 1;
        }
        assert(nodes.take(i as int) =~= nodes);
    }
}

// ---------------------------------------------------------------------------
// no-isolated-nodes

/// The finding, if any, for one node: it takes part in no relationship.
pub open spec fn isolation_of(rels: Seq<RelationshipV>, n: NodeV) -> Seq<DiagnosticV> {
    if !connected(rels, n.id) {
        seq![
            finding(
                "no-isolated-nodes"@,
                Severity::Warning,
                node_subject(n),
                "participates in no relationships"@,
                "connect it to the rest of the architecture, or remove it if it is no longer part of the system"@,
            ),
        ]
    } else {
        Seq::empty()
    }
}

/// The findings of [`NoIsolatedNodes`] over `nodes`, in order.
pub open spec fn isolation_findings(rels: Seq<RelationshipV>, nodes: Seq<NodeV>) -> Seq<DiagnosticV>
    decreases nodes.len(),
{
    if nodes.len() == 0 {
        Seq::empty()
    } else {
        isolation_findings(rels, nodes.drop_last()) + isolation_of(rels, nodes.last())
    }
}

/// Nodes with no relationships at all are probably a mistake; a single-node
/// architecture is a legitimate starting point, not one.
pub struct NoIsolatedNodes;

impl Rule for NoIsolatedNodes {
    open spec fn rule_id(&self) -> Seq<char> {
        "no-isolated-nodes"@
    }

    open spec fn rule_description(&self) -> Seq<char> {
        "every node should participate in at least one relationship"@
    }

    open spec fn findings(&self, context: RuleContextV) -> Seq<DiagnosticV> {
        if context.architecture.nodes.len() < 2 {
            Seq::empty()
        } else {
            isolation_findings(context.architecture.relationships, context.architecture.nodes)
        }
    }

    fn id(&self) -> (s: &'static str) {
        "no-isolated-nodes"
    }

    fn description(&self) -> (s: &'static str) {
        "every node should participate in at least one relationship"
    }

    fn check(&self, context: &RuleContext<'_>, report: &mut Report) {
        let architecture = context.architecture;
        if architecture.node_count() < 2 {
            assert(report@ =~= old(report)@ + Seq::<DiagnosticV>::empty());
            return;
        }
        let ghost arch = architecture@;
        let ghost nodes = arch.nodes;
        let ghost start = report@;
        let mut i: usize = 0;
        while i < architecture.nodes.len()
            invariant
                i <= nodes.len(),
                arch == architecture@,
                nodes == arch.nodes,
                report@ == start + isolation_findings(arch.relationships, nodes.take(i as int)),
            decreases nodes.len() - i,
        {
            let node = &architecture.nodes[i];
            assert(node@ == nodes[i as int]);
            assert(nodes.take(i + 1).drop_last() =~= nodes.take(i as int));
            let ghost before = report@;
            if !architecture.is_connected(node.id) {
                let d = Diagnostic::new(
                    "no-isolated-nodes",
                    Severity::Warning,
                    RuleContext::subject(node),
                    "participates in no relationships",
                ).with_suggestion(
                    "connect it to the rest of the architecture, or remove it if it is no longer part of the system",
                );
                report.push(d);
                assert(report@ =~= before + isolation_of(arch.relationships, nodes[i as int]));
            } else {
                assert(report@ =~= before + isolation_of(arch.relationships, nodes[i as int]));
            }
            i = i + 1;
        }
        assert(nodes.take(i as int) =~= nodes);
    }
}

// ---------------------------------------------------------------------------
// sync-targets-should-declare-interfaces

/// Whether some `sync` relationship ends at `id`.
pub open spec fn called_synchronously(rels: Seq<RelationshipV>, id: NodeId) -> bool {
    exists|i: int| 0 <= i < rels.len() && sync_into(#[trigger] rels[i], id)
}

/// Whether `r` is a `sync` relationship ending at `id`.
pub open spec fn sync_into(r: RelationshipV, id: NodeId) -> bool {
    r.target == id && r.relationship_type is Sync
}

/// Whether some `sync` relationship of `architecture` ends at `id`.
fn is_called_synchronously(architecture: &Architecture, id: NodeId) -> (b: bool)
    ensures
        b == called_synchronously(architecture@.relationships, id),
{
    let ghost rels = architecture@.relationships;
    let mut i: usize = 0;
    while i < architecture.relationships.len()
        invariant
            i <= rels.len(),
            rels == architecture@.relationships,
            forall|j: int| 0 <= j < i ==> !sync_into(#[trigger] rels[j], id),
        decreases rels.len() - i,
    {
        let edge = &architecture.relationships[i];
        assert(edge@ == rels[i as int]);
        if edge.target == id && edge.relationship_type == RelationshipType::Sync {
            assert(sync_into(rels[i as int], id));
            return true;
        }
        i = i + 1;
    }
    false
}

/// The finding, if any, for one node: called synchronously, inside the
/// boundary, and declaring no interface.
pub open spec fn undeclared_interface(rels: Seq<RelationshipV>, n: NodeV) -> Seq<DiagnosticV> {
    if n.interfaces.len() == 0 && !external(n.node_type) && called_synchronously(rels, n.id) {
        seq![
            finding(
                "sync-targets-should-declare-interfaces"@,
                Severity::Info,
                node_subject(n),
                "is called synchronously but declares no interfaces, so its contract cannot be version-checked"@,
                "add an 'interfaces' entry naming the protocol and semantic version callers depend on"@,
            ),
        ]
    } else {
        Seq::empty()
    }
}

/// The findings of [`SyncTargetsShouldDeclareInterfaces`] over `nodes`, in
/// order.
pub open spec fn interface_findings(rels: Seq<RelationshipV>, nodes: Seq<NodeV>) -> Seq<DiagnosticV>
    decreases nodes.len(),
{
    if nodes.len() == 0 {
        Seq::empty()
    } else {
        interface_findings(rels, nodes.drop_last()) + undeclared_interface(rels, nodes.last())
    }
}

/// Targets of synchronous calls should declare the interface being called, so
/// that its contract can be version-checked.
pub struct SyncTargetsShouldDeclareInterfaces;

impl Rule for SyncTargetsShouldDeclareInterfaces {
    open spec fn rule_id(&self) -> Seq<char> {
        "sync-targets-should-declare-interfaces"@
    }

    open spec fn rule_description(&self) -> Seq<char> {
        "a node called synchronously should declare the interface that is being called"@
    }

    open spec fn findings(&self, context: RuleContextV) -> Seq<DiagnosticV> {
        interface_findings(context.architecture.relationships, context.architecture.nodes)
    }

    fn id(&self) -> (s: &'static str) {
        "sync-targets-should-declare-interfaces"
    }

    fn description(&self) -> (s: &'static str) {
        "a node called synchronously should declare the interface that is being called"
    }

    fn check(&self, context: &RuleContext<'_>, report: &mut Report) {
        let architecture = context.architecture;
        let ghost arch = architecture@;
        let ghost nodes = arch.nodes;
        let ghost start = report@;
        let mut i: usize = 0;
        while i < architecture.nodes.len()
            invariant
                i <= nodes.len(),
                arch == architecture@,
                nodes == arch.nodes,
                report@ == start + interface_findings(arch.relationships, nodes.take(i as int)),
            decreases nodes.len() - i,
        {
            let node = &architecture.nodes[i];
            assert(node@ == nodes[i as int]);
            assert(nodes.take(i + 1).drop_last() =~= nodes.take(i as int));
            let ghost before = report@;
            if node.interfaces.len() == 0 && !node.node_type.is_external()
                && is_called_synchronously(architecture, node.id) {
                let d = Diagnostic::new(
                    "sync-targets-should-declare-interfaces",
                    Severity::Info,
                    RuleContext::subject(node),
                    "is called synchronously but declares no interfaces, so its contract cannot be version-checked",
                ).with_suggestion(
                    "add an 'interfaces' entry naming the protocol and semantic version callers depend on",
                );
                report.push(d);
                assert(report@ =~= before + undeclared_interface(arch.relationships, nodes[i as int]));
            } else {
                assert(report@ =~= before + undeclared_interface(arch.relationships, nodes[i as int]));
            }
            i = i + 1;
        }
        assert(nodes.take(i as int) =~= nodes);
    }
}

// ---------------------------------------------------------------------------
// critical-path-within-budget

/// The findings of [`CriticalPathWithinBudget`]: one warning when the graph
/// has a critical path above the configured ceiling; none for a cyclic graph,
/// whose cycle is already the finding.
pub open spec fn budget_findings(context: RuleContextV) -> Seq<DiagnosticV> {
    let ceiling = context.config.max_critical_path_ms;
    match critical_path_of(context.graph.edges) {
        Some(c) => if c > ceiling {
            seq![
                finding(
                    "critical-path-within-budget"@,
                    Severity::Warning,
                    SubjectV::Architecture,
                    "the critical path budget is "@ + decimal(c as nat) + "ms, exceeding the "@
                        + decimal(ceiling as nat)
                        + "ms ceiling; the end-to-end SLO is not arithmetically achievable"@,
                    "reduce a hop's latency budget, parallelise sequential calls, or convert a blocking hop to 'async'"@,
                ),
            ]
        } else {
            Seq::empty()
        },
        None => Seq::empty(),
    }
}

/// The critical path's latency budget must stay within the configured
/// ceiling, or the end-to-end SLO is not arithmetically achievable.
pub struct CriticalPathWithinBudget;

impl Rule for CriticalPathWithinBudget {
    open spec fn rule_id(&self) -> Seq<char> {
        "critical-path-within-budget"@
    }

    open spec fn rule_description(&self) -> Seq<char> {
        "the summed latency budget along the longest blocking path must stay within the SLO"@
    }

    open spec fn findings(&self, context: RuleContextV) -> Seq<DiagnosticV> {
        budget_findings(context)
    }

    fn id(&self) -> (s: &'static str) {
        "critical-path-within-budget"
    }

    fn description(&self) -> (s: &'static str) {
        "the summed latency budget along the longest blocking path must stay within the SLO"
    }

    fn check(&self, context: &RuleContext<'_>, report: &mut Report) {
        let critical_path = match context.graph.critical_path_ms() {
            Some(c) => c,
            None => {
                assert(report@ =~= old(report)@ + Seq::<DiagnosticV>::empty());
                return;
            },
        };
        let ceiling = context.config.max_critical_path_ms;
        if critical_path <= ceiling {
            assert(report@ =~= old(report)@ + Seq::<DiagnosticV>::empty());
            return;
        }
        let message = concat_strs(
            &[
                "the critical path budget is ",
                decimal_string(critical_path).as_str(),
                "ms, exceeding the ",
                decimal_string(ceiling).as_str(),
                "ms ceiling; the end-to-end SLO is not arithmetically achievable",
            ],
        );
        proof {
            reveal_with_fuel(joined, 6);
        }
        let d = Diagnostic::new(
            "critical-path-within-budget",
            Severity::Warning,
            Subject::Architecture,
            message.as_str(),
        ).with_suggestion(
            "reduce a hop's latency budget, parallelise sequential calls, or convert a blocking hop to 'async'",
        );
        report.push(d);
        assert(report@ =~= old(report)@ + budget_findings(context@));
    }
}

// ---------------------------------------------------------------------------
// patterns-are-satisfied

/// The finding for a claim naming a pattern nobody supplied. A warning rather
/// than an error: the claim may be true, and the run simply had no library to
/// check it against.
pub open spec fn unavailable_finding(
    rule: Seq<char>,
    subject: SubjectV,
    reference: Seq<char>,
    available: Seq<PatternV>,
) -> DiagnosticV {
    finding(
        rule,
        Severity::Warning,
        subject,
        "claims conformance to '"@ + reference + "', which was not available to check"@,
        if available.len() == 0 {
            "pass --patterns <dir> so the claim can be checked"@
        } else {
            "the patterns supplied were: "@ + joined_with(
                available.map_values(|p: PatternV| reference_of(p)),
                ", "@,
            )
        },
    )
}

/// The views of `patterns`.
pub open spec fn pattern_views(patterns: Seq<Pattern>) -> Seq<PatternV> {
    patterns.map_values(|p: Pattern| p@)
}

/// Builds the finding for a claim naming a pattern nobody supplied, listing
/// the patterns that were.
pub fn unavailable(rule: &str, subject: Subject, reference: &str, available: &[Pattern]) -> (d: Diagnostic)
    ensures
        d@ == unavailable_finding(rule@, subject@, reference@, pattern_views(available@)),
{
    let ghost ps = pattern_views(available@);
    let mut known: Vec<String> = Vec::new();
    let mut i: usize = 0;
    while i < available.len()
        invariant
            i <= available@.len(),
            ps == pattern_views(available@),
            known@.map_values(|s: String| s@) =~= ps.map_values(|p: PatternV| reference_of(p)).take(i as int),
        decreases available@.len() - i,
    {
        known.push(available[i].reference());
        proof {
            let rs = ps.map_values(|p: PatternV| reference_of(p));
            assert(rs.take(i + 1) =~= rs.take(i as int).push(rs[i as int]));
        }
        i = i + 1;
    }
    assert(ps.map_values(|p: PatternV| reference_of(p)).take(available@.len() as int)
        =~= ps.map_values(|p: PatternV| reference_of(p)));
    let message = concat_strs(&["claims conformance to '", reference, "', which was not available to check"]);
    proof {
        reveal_with_fuel(joined, 4);
    }
    let d = Diagnostic::new(rule, Severity::Warning, subject, message.as_str());
    if known.len() == 0 {
        d.with_suggestion("pass --patterns <dir> so the claim can be checked")
    } else {
        let list = join_strings(known.as_slice(), ", ");
        let hint = concat_strs(&["the patterns supplied were: ", list.as_str()]);
        d.with_suggestion(hint.as_str())
    }
}

/// The subject naming a claimed pattern.
pub open spec fn claim_subject(claim: Seq<char>) -> SubjectV {
    SubjectV::Pattern { reference: claim }
}

/// The finding for a requirement of a claimed pattern that the architecture
/// does not meet: a mechanical gap can be closed by an edit, anything else
/// needs a decision.
pub open spec fn unmet_finding(claim: Seq<char>, message: Seq<char>, mechanical: bool) -> DiagnosticV {
    finding(
        "patterns-are-satisfied"@,
        Severity::Error,
        claim_subject(claim),
        message,
        if mechanical {
            "run 'casm evolve' to see the change this needs, or drop the claim"@
        } else {
            "this needs a decision rather than an edit: bind the role explicitly, or add the node the pattern requires"@
        },
    )
}

/// The finding for one unmet requirement of the pattern `claim` names, as
/// the conformance check describes it.
pub fn unmet(claim: &str, message: &str, mechanical: bool) -> (d: Diagnostic)
    ensures
        d@ == unmet_finding(claim@, message@, mechanical),
{
    let d = Diagnostic::new(
        "patterns-are-satisfied",
        Severity::Error,
        Subject::Pattern { reference: owned(claim) },
        message,
    );
    if mechanical {
        d.with_suggestion("run 'casm evolve' to see the change this needs, or drop the claim")
    } else {
        d.with_suggestion(
            "this needs a decision rather than an edit: bind the role explicitly, or add the node the pattern requires",
        )
    }
}

/// What a conformance claim is checked against.
pub enum ClaimCheck {
    /// The supplied pattern the claim names, by position: its requirements
    /// are what the architecture is held to.
    Available(usize),
    /// No supplied pattern matches; the finding says so.
    Unavailable(Diagnostic),
}

/// Finds the pattern a claim names among those supplied: the first with the
/// same name and version, or the warning that none was available.
pub fn check_claim(claim: &PatternRef, patterns: &[Pattern]) -> (r: ClaimCheck)
    ensures
        ({
            let ps = pattern_views(patterns@);
            let k = first_match(ps, |p: PatternV| names(claim.name@, claim.version@, p));
            if k < ps.len() {
                r == ClaimCheck::Available(k as usize)
            } else {
                r matches ClaimCheck::Unavailable(d) && d@ == unavailable_finding(
                    "patterns-are-satisfied"@,
                    claim_subject(claim.name@ + "@"@ + claim.version@),
                    claim.name@ + "@"@ + claim.version@,
                    ps,
                )
            }
        }),
{
    let ghost ps = pattern_views(patterns@);
    let ghost pred = |p: PatternV| names(claim.name@, claim.version@, p);
    let mut i: usize = 0;
    while i < patterns.len()
        invariant
            i <= patterns@.len(),
            ps == pattern_views(patterns@),
            pred == (|p: PatternV| names(claim.name@, claim.version@, p)),
            forall|j: int| 0 <= j < i ==> !pred(#[trigger] ps[j]),
        decreases patterns@.len() - i,
    {
        assert(ps[i as int] == patterns@[i as int]@);
        if claim.matches(&patterns[i]) {
            proof {
                lemma_first_match_is(ps, pred, i as int);
            }
            return ClaimCheck::Available(i);
        }
        i = i + 1;
    }
    proof {
        lemma_first_match_is(ps, pred, i as int);
    }
    let reference = claim.describe();
    let subject = Subject::Pattern { reference: owned(reference.as_str()) };
    ClaimCheck::Unavailable(unavailable("patterns-are-satisfied", subject, reference.as_str(), patterns))
}

/// Every pattern the architecture claims conformance to must be satisfied. A
/// claim naming a pattern the run was not given is reported as unchecked,
/// never assumed satisfied.
pub struct PatternsAreSatisfied;

impl Rule for PatternsAreSatisfied {
    open spec fn rule_id(&self) -> Seq<char> {
        "patterns-are-satisfied"@
    }

    open spec fn rule_description(&self) -> Seq<char> {
        "every pattern the architecture claims conformance to must be satisfied"@
    }

    open spec fn findings(&self, context: RuleContextV) -> Seq<DiagnosticV> {
        claim_findings(context.architecture, context.patterns)
    }

    fn id(&self) -> (s: &'static str) {
        "patterns-are-satisfied"
    }

    fn description(&self) -> (s: &'static str) {
        "every pattern the architecture claims conformance to must be satisfied"
    }

    fn check(&self, context: &RuleContext<'_>, report: &mut Report) {
        let found = patterns_are_satisfied(context.architecture, context.patterns);
        let other = Report { diagnostics: found };
        assert(other@ =~= diagnostic_views(other.diagnostics@));
        report.extend(other);
    }
}

// ---------------------------------------------------------------------------
// Every finding a rule reports carries the rule's identifier.

/// Whether every one of `ds` was reported by the rule `rule`.
pub open spec fn all_from(ds: Seq<DiagnosticV>, rule: Seq<char>) -> bool {
    forall|i: int| 0 <= i < ds.len() ==> (#[trigger] ds[i]).rule == rule
}

proof fn lemma_all_from_concat(a: Seq<DiagnosticV>, b: Seq<DiagnosticV>, rule: Seq<char>)
    requires
        all_from(a, rule),
        all_from(b, rule),
    ensures
        all_from(a + b, rule),
{
    assert forall|i: int| 0 <= i < (a + b).len() implies (#[trigger] (a + b)[i]).rule == rule by {
        if i < a.len() {
            assert((a + b)[i] == a[i]);
        } else {
            assert((a + b)[i] == b[i - a.len()]);
        }
    }
}

proof fn lemma_exposure_ids(architecture: ArchitectureV, rels: Seq<RelationshipV>)
    ensures
        all_from(exposure_findings(architecture, rels), "no-publicly-exposed-datastores"@),
    decreases rels.len(),
{
    if rels.len() > 0 {
        lemma_exposure_ids(architecture, rels.drop_last());
        lemma_all_from_concat(
            exposure_findings(architecture, rels.drop_last()),
            exposure_of(architecture, rels.last()),
            "no-publicly-exposed-datastores"@,
        );
    }
}

proof fn lemma_crossing_ids(architecture: ArchitectureV, rels: Seq<RelationshipV>)
    ensures
        all_from(crossing_findings(architecture, rels), "boundary-crossings-require-controls"@),
    decreases rels.len(),
{
    if rels.len() > 0 {
        lemma_crossing_ids(architecture, rels.drop_last());
        lemma_all_from_concat(
            crossing_findings(architecture, rels.drop_last()),
            crossing_of(architecture, rels.last()),
            "boundary-crossings-require-controls"@,
        );
    }
}

proof fn lemma_security_ids(required: nat, nodes: Seq<NodeV>)
    ensures
        all_from(security_findings(required, nodes), "services-require-security-controls"@),
    decreases nodes.len(),
{
    if nodes.len() > 0 {
        lemma_security_ids(required, nodes.drop_last());
        lemma_all_from_concat(
            security_findings(required, nodes.drop_last()),
            undersecured(required, nodes.last()),
            "services-require-security-controls"@,
        );
    }
}

proof fn lemma_stateful_ids(nodes: Seq<NodeV>)
    ensures
        all_from(stateful_findings(nodes), "stateful-nodes-require-controls"@),
    decreases nodes.len(),
{
    if nodes.len() > 0 {
        lemma_stateful_ids(nodes.drop_last());
        lemma_all_from_concat(
            stateful_findings(nodes.drop_last()),
            uncontrolled_state(nodes.last()),
            "stateful-nodes-require-controls"@,
        );
    }
}

proof fn lemma_isolation_ids(rels: Seq<RelationshipV>, nodes: Seq<NodeV>)
    ensures
        all_from(isolation_findings(rels, nodes), "no-isolated-nodes"@),
    decreases nodes.len(),
{
    if nodes.len() > 0 {
        lemma_isolation_ids(rels, nodes.drop_last());
        lemma_all_from_concat(
            isolation_findings(rels, nodes.drop_last()),
            isolation_of(rels, nodes.last()),
            "no-isolated-nodes"@,
        );
    }
}

proof fn lemma_interface_ids(rels: Seq<RelationshipV>, nodes: Seq<NodeV>)
    ensures
        all_from(interface_findings(rels, nodes), "sync-targets-should-declare-interfaces"@),
    decreases nodes.len(),
{
    if nodes.len() > 0 {
        lemma_interface_ids(rels, nodes.drop_last());
        lemma_all_from_concat(
            interface_findings(rels, nodes.drop_last()),
            undeclared_interface(rels, nodes.last()),
            "sync-targets-should-declare-interfaces"@,
        );
    }
}

/// Every finding a built-in rule reports against any context carries that
/// rule's identifier.
pub proof fn lemma_findings_carry_rule_ids(context: RuleContextV)
    ensures
        all_from(NoDependencyCycles.findings(context), NoDependencyCycles.rule_id()),
        all_from(NoPubliclyExposedDatastores.findings(context), NoPubliclyExposedDatastores.rule_id()),
        all_from(CriticalPathWithinBudget.findings(context), CriticalPathWithinBudget.rule_id()),
        all_from(ServicesRequireSecurityControls.findings(context), ServicesRequireSecurityControls.rule_id()),
        all_from(StatefulNodesRequireControls.findings(context), StatefulNodesRequireControls.rule_id()),
        all_from(
            BoundaryCrossingsRequireControls.findings(context),
            BoundaryCrossingsRequireControls.rule_id(),
        ),
        all_from(NoIsolatedNodes.findings(context), NoIsolatedNodes.rule_id()),
        all_from(
            SyncTargetsShouldDeclareInterfaces.findings(context),
            SyncTargetsShouldDeclareInterfaces.rule_id(),
        ),
        all_from(PatternsAreSatisfied.findings(context), PatternsAreSatisfied.rule_id()),
{
    lemma_claim_ids(context.architecture, context.architecture.conformance, context.patterns);
    lemma_exposure_ids(context.architecture, context.architecture.relationships);
    lemma_crossing_ids(context.architecture, context.architecture.relationships);
    lemma_security_ids(context.config.min_security_controls_per_service as nat, context.architecture.nodes);
    lemma_stateful_ids(context.architecture.nodes);
    lemma_isolation_ids(context.architecture.relationships, context.architecture.nodes);
    lemma_interface_ids(context.architecture.relationships, context.architecture.nodes);
}

/// Every finding about conformance claims carries the rule's identifier.
proof fn lemma_claim_ids(a: ArchitectureV, cs: Seq<crate::architecture::ConformanceV>, ps: Seq<PatternV>)
    ensures
        all_from(claims_findings(a, cs, ps), "patterns-are-satisfied"@),
    decreases cs.len(),
{
    if cs.len() > 0 {
        lemma_claim_ids(a, cs.drop_last(), ps);
        let f = findings_of_claim(a, cs.last(), ps);
        assert(all_from(f, "patterns-are-satisfied"@));
        lemma_all_from_concat(claims_findings(a, cs.drop_last(), ps), f, "patterns-are-satisfied"@);
    }
}

/// Whether a node type holds persistent state: databases, queues, caches
/// and storage do.
pub open spec fn holds_state(t: NodeType) -> bool {
    t == NodeType::Database || t == NodeType::Queue || t == NodeType::Cache || t == NodeType::Storage
}

/// A node type holds persistent state, as both store rules read it, exactly
/// when it is a database, a queue, a cache or a storage node.
pub proof fn law_stores_are_the_stateful_types(t: NodeType)
    ensures
        stateful(t) <==> holds_state(t),
{
}

/// Every database, queue, cache or storage node that declares no controls
/// is reported by `stateful-nodes-require-controls`, as a warning about
/// that node.
pub proof fn law_uncontrolled_stores_are_reported(nodes: Seq<NodeV>, i: int)
    requires
        0 <= i < nodes.len(),
        holds_state(nodes[i].node_type),
        nodes[i].controls.len() == 0,
    ensures
        exists|k: int|
            0 <= k < stateful_findings(nodes).len() && (#[trigger] stateful_findings(nodes)[k]).rule
                == "stateful-nodes-require-controls"@ && stateful_findings(nodes)[k].severity == Severity::Warning
                && stateful_findings(nodes)[k].subject == node_subject(nodes[i]),
    decreases nodes.len(),
{
    let before = stateful_findings(nodes.drop_last());
    let last = uncontrolled_state(nodes.last());
    assert(stateful_findings(nodes) == before + last);
    if i == nodes.len() - 1 {
        assert(stateful(nodes.last().node_type));
        assert(last.len() == 1);
        assert(stateful_findings(nodes)[before.len() as int] == last[0]);
    } else {
        assert(nodes.drop_last()[i] == nodes[i]);
        law_uncontrolled_stores_are_reported(nodes.drop_last(), i);
        let k = choose|k: int|
            0 <= k < before.len() && (#[trigger] before[k]).rule == "stateful-nodes-require-controls"@
                && before[k].severity == Severity::Warning && before[k].subject == node_subject(nodes[i]);
        assert(stateful_findings(nodes)[k] == before[k]);
    }
}

/// Every relationship from an external system or a human straight to a
/// database, queue, cache or storage node is reported by
/// `no-publicly-exposed-datastores`, as an error naming both ends.
pub proof fn law_exposed_stores_are_reported(a: ArchitectureV, rels: Seq<RelationshipV>, i: int)
    requires
        0 <= i < rels.len(),
        node_with_id(a.nodes, rels[i].source) matches Some(s) && (s.node_type == NodeType::ExternalSystem
            || s.node_type == NodeType::Human),
        node_with_id(a.nodes, rels[i].target) matches Some(t) && holds_state(t.node_type),
    ensures
        exists|k: int|
            0 <= k < exposure_findings(a, rels).len() && (#[trigger] exposure_findings(a, rels)[k]).rule
                == "no-publicly-exposed-datastores"@ && exposure_findings(a, rels)[k].severity == Severity::Error
                && exposure_findings(a, rels)[k].subject == (SubjectV::Relationship {
                source: node_with_id(a.nodes, rels[i].source).unwrap().name,
                target: node_with_id(a.nodes, rels[i].target).unwrap().name,
            }),
    decreases rels.len(),
{
    let before = exposure_findings(a, rels.drop_last());
    let last = exposure_of(a, rels.last());
    assert(exposure_findings(a, rels) == before + last);
    if i == rels.len() - 1 {
        assert(external(node_with_id(a.nodes, rels.last().source).unwrap().node_type));
        assert(stateful(node_with_id(a.nodes, rels.last().target).unwrap().node_type));
        assert(last.len() == 1);
        assert(exposure_findings(a, rels)[before.len() as int] == last[0]);
    } else {
        assert(rels.drop_last()[i] == rels[i]);
        law_exposed_stores_are_reported(a, rels.drop_last(), i);
        let subject = SubjectV::Relationship {
            source: node_with_id(a.nodes, rels[i].source).unwrap().name,
            target: node_with_id(a.nodes, rels[i].target).unwrap().name,
        };
        let k = choose|k: int|
            0 <= k < before.len() && (#[trigger] before[k]).rule == "no-publicly-exposed-datastores"@
                && before[k].severity == Severity::Error && before[k].subject == subject;
        assert(exposure_findings(a, rels)[k] == before[k]);
    }
}

/// Whether relationship `j` links an external system or a human straight to
/// a database, queue, cache or storage node.
pub open spec fn exposes_store(a: ArchitectureV, j: int) -> bool {
    &&& 0 <= j < a.relationships.len()
    &&& node_with_id(a.nodes, a.relationships[j].source) is Some
    &&& node_with_id(a.nodes, a.relationships[j].target) is Some
    &&& (node_with_id(a.nodes, a.relationships[j].source).unwrap().node_type == NodeType::ExternalSystem
        || node_with_id(a.nodes, a.relationships[j].source).unwrap().node_type == NodeType::Human)
    &&& holds_state(node_with_id(a.nodes, a.relationships[j].target).unwrap().node_type)
}

/// What the two rules report against a validation context: every
/// uncontrolled database, queue, cache or storage node, and every direct
/// link from an external system or a human to one.
pub proof fn law_stores_are_guarded(context: RuleContextV, i: int, j: int)
    ensures
        (0 <= i < context.architecture.nodes.len() && holds_state(context.architecture.nodes[i].node_type)
            && context.architecture.nodes[i].controls.len() == 0) ==> exists|k: int|
            0 <= k < StatefulNodesRequireControls.findings(context).len()
                && (#[trigger] StatefulNodesRequireControls.findings(context)[k]).subject == node_subject(
                context.architecture.nodes[i],
            ) && StatefulNodesRequireControls.findings(context)[k].rule == StatefulNodesRequireControls.rule_id(),
        exposes_store(context.architecture, j) ==> exists|k: int|
            0 <= k < NoPubliclyExposedDatastores.findings(context).len()
                && (#[trigger] NoPubliclyExposedDatastores.findings(context)[k]).severity == Severity::Error
                && NoPubliclyExposedDatastores.findings(context)[k].rule == NoPubliclyExposedDatastores.rule_id(),
{
    let a = context.architecture;
    let held = StatefulNodesRequireControls.findings(context);
    let exposed = NoPubliclyExposedDatastores.findings(context);
    assert(held == stateful_findings(a.nodes));
    assert(exposed == exposure_findings(a, a.relationships));
    assert(StatefulNodesRequireControls.rule_id() == "stateful-nodes-require-controls"@);
    assert(NoPubliclyExposedDatastores.rule_id() == "no-publicly-exposed-datastores"@);
    if 0 <= i < a.nodes.len() && holds_state(a.nodes[i].node_type) && a.nodes[i].controls.len() == 0 {
        law_uncontrolled_stores_are_reported(a.nodes, i);
        let k = choose|k: int|
            0 <= k < stateful_findings(a.nodes).len() && (#[trigger] stateful_findings(a.nodes)[k]).rule
                == "stateful-nodes-require-controls"@ && stateful_findings(a.nodes)[k].severity == Severity::Warning
                && stateful_findings(a.nodes)[k].subject == node_subject(a.nodes[i]);
        assert(held[k].subject == node_subject(a.nodes[i]));
    }
    if exposes_store(a, j) {
        law_exposed_stores_are_reported(a, a.relationships, j);
        let subject = SubjectV::Relationship {
            source: node_with_id(a.nodes, a.relationships[j].source).unwrap().name,
            target: node_with_id(a.nodes, a.relationships[j].target).unwrap().name,
        };
        let k = choose|k: int|
            0 <= k < exposure_findings(a, a.relationships).len() && (#[trigger] exposure_findings(
                a,
                a.relationships,
            )[k]).rule == "no-publicly-exposed-datastores"@ && exposure_findings(a, a.relationships)[k].severity
                == Severity::Error && exposure_findings(a, a.relationships)[k].subject == subject;
        assert(exposed[k].severity == Severity::Error);
    }
}

} // verus!
