//! The architecture as the validator reads it: nodes with their type,
//! controls and interfaces, and the relationships between them.
//!
//! What a type means for validation is fixed here: databases, queues, caches
//! and storage hold state; external systems and humans sit outside the
//! control boundary; `sync`, `depends-on`, `composed` and `quantum-entangled`
//! relationships block their caller and can form dependency cycles.
use vstd::prelude::*;

use crate::chars::{owned, str_eq};
use crate::diagnostic::NodeId;
use crate::fmt::{uuid_string, uuid_text};
use crate::record::Attributes;

verus! {

/// What kind of element a node is.
#[derive(Clone, Copy, Debug, PartialEq, Eq, Structural)]
pub enum NodeType {
    Service,
    Database,
    Queue,
    Cache,
    Gateway,
    Storage,
    ExternalSystem,
    Legacy,
    Human,
    Boundary,
}

/// The label a node type is written with.
pub open spec fn node_type_label(t: NodeType) -> Seq<char> {
    match t {
        NodeType::Service => "service"@,
        NodeType::Database => "database"@,
        NodeType::Queue => "queue"@,
        NodeType::Cache => "cache"@,
        NodeType::Gateway => "gateway"@,
        NodeType::Storage => "storage"@,
        NodeType::ExternalSystem => "external-system"@,
        NodeType::Legacy => "legacy"@,
        NodeType::Human => "human"@,
        NodeType::Boundary => "boundary"@,
    }
}

/// Whether nodes of this type hold persistent state.
pub open spec fn stateful(t: NodeType) -> bool {
    t is Database || t is Queue || t is Cache || t is Storage
}

/// Whether nodes of this type sit outside the control boundary.
pub open spec fn external(t: NodeType) -> bool {
    t is ExternalSystem || t is Human
}

impl NodeType {
    /// The label the type is written with, such as `external-system`.
    pub fn label(&self) -> (s: &'static str)
        ensures
            s@ == node_type_label(*self),
    {
        proof {
            reveal_strlit("service");
            reveal_strlit("database");
            reveal_strlit("queue");
            reveal_strlit("cache");
            reveal_strlit("gateway");
            reveal_strlit("storage");
            reveal_strlit("external-system");
            reveal_strlit("legacy");
            reveal_strlit("human");
            reveal_strlit("boundary");
        }
        match self {
            NodeType::Service => "service",
            NodeType::Database => "database",
            NodeType::Queue => "queue",
            NodeType::Cache => "cache",
            NodeType::Gateway => "gateway",
            NodeType::Storage => "storage",
            NodeType::ExternalSystem => "external-system",
            NodeType::Legacy => "legacy",
            NodeType::Human => "human",
            NodeType::Boundary => "boundary",
        }
    }

    /// Whether nodes of this type hold persistent state.
    pub fn is_stateful(&self) -> (b: bool)
        ensures
            b == stateful(*self),
    {
        match self {
            NodeType::Database | NodeType::Queue | NodeType::Cache | NodeType::Storage => true,
            _ => false,
        }
    }

    /// Whether nodes of this type sit outside the control boundary.
    pub fn is_external(&self) -> (b: bool)
        ensures
            b == external(*self),
    {
        match self {
            NodeType::ExternalSystem | NodeType::Human => true,
            _ => false,
        }
    }
}

/// How a relationship's source depends on its target.
#[derive(Clone, Copy, Debug, PartialEq, Eq, Structural)]
pub enum RelationshipType {
    Sync,
    Async,
    EventDriven,
    DependsOn,
    Composed,
    DeployedOn,
    QuantumEntangled,
}

/// Whether the source blocks on the target, so that the relationship counts
/// toward latency and can take part in a dependency cycle.
pub open spec fn blocking(t: RelationshipType) -> bool {
    t is Sync || t is DependsOn || t is Composed || t is QuantumEntangled
}

/// The label a relationship type is written with.
pub open spec fn relationship_type_label(t: RelationshipType) -> Seq<char> {
    match t {
        RelationshipType::Sync => "sync"@,
        RelationshipType::Async => "async"@,
        RelationshipType::EventDriven => "event-driven"@,
        RelationshipType::DependsOn => "depends-on"@,
        RelationshipType::Composed => "composed"@,
        RelationshipType::DeployedOn => "deployed-on"@,
        RelationshipType::QuantumEntangled => "quantum-entangled"@,
    }
}

impl RelationshipType {
    /// The label the type is written with, such as `event-driven`.
    pub fn label(&self) -> (s: &'static str)
        ensures
            s@ == relationship_type_label(*self),
    {
        match self {
            RelationshipType::Sync => "sync",
            RelationshipType::Async => "async",
            RelationshipType::EventDriven => "event-driven",
            RelationshipType::DependsOn => "depends-on",
            RelationshipType::Composed => "composed",
            RelationshipType::DeployedOn => "deployed-on",
            RelationshipType::QuantumEntangled => "quantum-entangled",
        }
    }

    /// Whether relationships of this type can form a dependency cycle.
    pub fn forms_dependency_cycle(&self) -> (b: bool)
        ensures
            b == blocking(*self),
    {
        self.is_blocking()
    }

    /// Whether the source blocks awaiting the target.
    pub fn is_blocking(&self) -> (b: bool)
        ensures
            b == blocking(*self),
    {
        match self {
            RelationshipType::Sync
            | RelationshipType::DependsOn
            | RelationshipType::Composed
            | RelationshipType::QuantumEntangled => true,
            _ => false,
        }
    }
}

/// What a control governs.
#[derive(Clone, Copy, Debug, PartialEq, Eq, Structural)]
pub enum ControlType {
    Security,
    Compliance,
    Operational,
    DataGovernance,
}

/// The label a control type is written with.
pub open spec fn control_type_label(t: ControlType) -> Seq<char> {
    match t {
        ControlType::Security => "security"@,
        ControlType::Compliance => "compliance"@,
        ControlType::Operational => "operational"@,
        ControlType::DataGovernance => "data-governance"@,
    }
}

impl ControlType {
    /// The label the type is written with, such as `data-governance`.
    pub fn label(&self) -> (s: &'static str)
        ensures
            s@ == control_type_label(*self),
    {
        match self {
            ControlType::Security => "security",
            ControlType::Compliance => "compliance",
            ControlType::Operational => "operational",
            ControlType::DataGovernance => "data-governance",
        }
    }
}

/// A wire protocol.
#[derive(Clone, Copy, Debug, PartialEq, Eq, Structural)]
pub enum Protocol {
    Http11,
    Http2,
    Http3,
    Grpc,
    Kafka,
    Amqp,
    Mqtt,
    Graphql,
    Websocket,
    Tcp,
    Sql,
}

/// The label a protocol is written with.
pub open spec fn protocol_label(p: Protocol) -> Seq<char> {
    match p {
        Protocol::Http11 => "http1.1"@,
        Protocol::Http2 => "http2"@,
        Protocol::Http3 => "http3"@,
        Protocol::Grpc => "grpc"@,
        Protocol::Kafka => "kafka"@,
        Protocol::Amqp => "amqp"@,
        Protocol::Mqtt => "mqtt"@,
        Protocol::Graphql => "graphql"@,
        Protocol::Websocket => "websocket"@,
        Protocol::Tcp => "tcp"@,
        Protocol::Sql => "sql"@,
    }
}

impl Protocol {
    /// The label the protocol is written with, such as `http1.1`.
    pub fn label(&self) -> (s: &'static str)
        ensures
            s@ == protocol_label(*self),
    {
        match self {
            Protocol::Http11 => "http1.1",
            Protocol::Http2 => "http2",
            Protocol::Http3 => "http3",
            Protocol::Grpc => "grpc",
            Protocol::Kafka => "kafka",
            Protocol::Amqp => "amqp",
            Protocol::Mqtt => "mqtt",
            Protocol::Graphql => "graphql",
            Protocol::Websocket => "websocket",
            Protocol::Tcp => "tcp",
            Protocol::Sql => "sql",
        }
    }
}

/// A control declared on a node or a relationship.
#[derive(Clone, Debug, PartialEq, Eq)]
pub struct Control {
    /// What the control governs.
    pub control_type: ControlType,
    /// The external standard it implements, such as `ISO27001-A.12.4`.
    pub standard: String,
    /// How it is implemented.
    pub description: String,
    /// Whether an audit must be shown evidence of it.
    pub evidence_required: bool,
    /// Free-form tags by which policies select it.
    pub tags: Vec<String>,
}

/// The model of a [`Control`].
pub struct ControlV {
    pub control_type: ControlType,
    pub standard: Seq<char>,
    pub description: Seq<char>,
    pub evidence_required: bool,
    pub tags: Seq<Seq<char>>,
}

impl View for Control {
    type V = ControlV;

    open spec fn view(&self) -> ControlV {
        ControlV {
            control_type: self.control_type,
            standard: self.standard@,
            description: self.description@,
            evidence_required: self.evidence_required,
            tags: self.tags@.map_values(|t: String| t@),
        }
    }
}

/// An interface a node offers.
#[derive(Clone, Debug, PartialEq, Eq)]
pub struct Interface {
    /// The interface's name.
    pub name: String,
    /// Its wire protocol.
    pub protocol: Protocol,
    /// Its semantic version.
    pub version: String,
    /// The SHA3-256 digest of its contract, as 64 lowercase hexadecimal
    /// characters, when the contract is known.
    pub schema_hash: Option<String>,
    /// What the interface is for.
    pub description: Option<String>,
}

/// The model of an [`Interface`].
pub struct InterfaceV {
    pub name: Seq<char>,
    pub protocol: Protocol,
    pub version: Seq<char>,
    pub schema_hash: Option<Seq<char>>,
    pub description: Option<Seq<char>>,
}

impl View for Interface {
    type V = InterfaceV;

    open spec fn view(&self) -> InterfaceV {
        InterfaceV {
            name: self.name@,
            protocol: self.protocol,
            version: self.version@,
            schema_hash: opt_view(self.schema_hash),
            description: opt_view(self.description),
        }
    }
}

/// The view of an optional string.
pub open spec fn opt_view(s: Option<String>) -> Option<Seq<char>> {
    match s {
        Some(t) => Some(t@),
        None => None,
    }
}

/// How many of `controls` are of type `t`.
pub open spec fn count_of(controls: Seq<ControlV>, t: ControlType) -> nat
    decreases controls.len(),
{
    if controls.len() == 0 {
        0
    } else {
        count_of(controls.drop_last(), t) + if controls.last().control_type == t {
            1nat
        } else {
            0nat
        }
    }
}

/// A node of the architecture.
#[derive(Clone, Debug, PartialEq, Eq)]
pub struct Node {
    /// Its identifier, unique within the architecture.
    pub id: NodeId,
    /// Its name, unique within the architecture.
    pub name: String,
    /// What kind of element it is.
    pub node_type: NodeType,
    /// Free-form prose about the node.
    pub description: Option<String>,
    /// The interfaces it offers, in declaration order.
    pub interfaces: Vec<Interface>,
    /// The controls it declares, in declaration order.
    pub controls: Vec<Control>,
    /// Free-form annotations, one value per key, in key order.
    pub metadata: Attributes,
}

/// The model of a [`Node`].
pub struct NodeV {
    pub id: NodeId,
    pub name: Seq<char>,
    pub node_type: NodeType,
    pub description: Option<Seq<char>>,
    pub interfaces: Seq<InterfaceV>,
    pub controls: Seq<ControlV>,
    pub metadata: Seq<(Seq<char>, Seq<char>)>,
}

impl View for Node {
    type V = NodeV;

    open spec fn view(&self) -> NodeV {
        NodeV {
            id: self.id,
            name: self.name@,
            node_type: self.node_type,
            description: opt_view(self.description),
            interfaces: self.interfaces@.map_values(|i: Interface| i@),
            controls: self.controls@.map_values(|c: Control| c@),
            metadata: self.metadata@,
        }
    }
}

impl Node {
    /// How many controls of type `t` the node declares.
    pub fn controls_of_type(&self, t: ControlType) -> (n: usize)
        ensures
            n == count_of(self@.controls, t),
    {
        let mut n: usize = 0;
        let mut i: usize = 0;
        while i < self.controls.len()
            invariant
                i <= self.controls@.len(),
                n == count_of(self@.controls.take(i as int), t),
                n <= i,
            decreases self.controls@.len() - i,
        {
            assert(self@.controls.take(i + 1).drop_last() =~= self@.controls.take(i as int));
            assert(self@.controls[i as int] == self.controls@[i as int]@);
            if self.controls[i].control_type == t {
                n = n + 1;
            }
            i = i + 1;
        }
        assert(self@.controls.take(i as int) =~= self@.controls);
        n
    }
}

/// A relationship between two nodes.
#[derive(Clone, Debug, PartialEq, Eq)]
pub struct Relationship {
    /// The calling node.
    pub source: NodeId,
    /// The called node.
    pub target: NodeId,
    /// How the source depends on the target.
    pub relationship_type: RelationshipType,
    /// The wire protocol, when declared.
    pub protocol: Option<Protocol>,
    /// The declared latency budget, in milliseconds.
    pub latency_budget_ms: Option<u64>,
    /// The controls governing the relationship.
    pub controls: Vec<Control>,
}

/// The model of a [`Relationship`].
pub struct RelationshipV {
    pub source: NodeId,
    pub target: NodeId,
    pub relationship_type: RelationshipType,
    pub protocol: Option<Protocol>,
    pub latency_budget_ms: Option<u64>,
    pub controls: Seq<ControlV>,
}

impl View for Relationship {
    type V = RelationshipV;

    open spec fn view(&self) -> RelationshipV {
        RelationshipV {
            source: self.source,
            target: self.target,
            relationship_type: self.relationship_type,
            protocol: self.protocol,
            latency_budget_ms: self.latency_budget_ms,
            controls: self.controls@.map_values(|c: Control| c@),
        }
    }
}

/// An architecture: its nodes and the relationships between them, each in
/// declaration order.
#[derive(Clone, Debug, PartialEq, Eq)]
pub struct Architecture {
    /// The architecture's name.
    pub name: String,
    /// Its semantic version.
    pub version: String,
    /// Free-form prose about it.
    pub description: Option<String>,
    /// Every node.
    pub nodes: Vec<Node>,
    /// Every relationship.
    pub relationships: Vec<Relationship>,
    /// The patterns it claims to conform to, in declaration order.
    pub conformance: Vec<Conformance>,
    /// Free-form annotations, one value per key, in key order.
    pub metadata: Attributes,
}

/// The model of an [`Architecture`].
pub struct ArchitectureV {
    pub name: Seq<char>,
    pub version: Seq<char>,
    pub description: Option<Seq<char>>,
    pub nodes: Seq<NodeV>,
    pub relationships: Seq<RelationshipV>,
    pub conformance: Seq<ConformanceV>,
    pub metadata: Seq<(Seq<char>, Seq<char>)>,
}

/// A claim that the architecture has the shape of a pattern, with the roles
/// its author bound by hand.
#[derive(Clone, Debug, PartialEq, Eq)]
pub struct Conformance {
    /// The claimed pattern's name.
    pub pattern_name: String,
    /// The claimed pattern's exact version.
    pub pattern_version: String,
    /// Roles bound by hand, each to a node, in role order; the other roles
    /// bind by themselves when exactly one node can fill them.
    pub bindings: Vec<(String, NodeId)>,
}

/// The model of a [`Conformance`] claim.
pub struct ConformanceV {
    pub pattern_name: Seq<char>,
    pub pattern_version: Seq<char>,
    pub bindings: Seq<(Seq<char>, NodeId)>,
}

impl View for Conformance {
    type V = ConformanceV;

    open spec fn view(&self) -> ConformanceV {
        ConformanceV {
            pattern_name: self.pattern_name@,
            pattern_version: self.pattern_version@,
            bindings: self.bindings@.map_values(|b: (String, NodeId)| (b.0@, b.1)),
        }
    }
}

impl View for Architecture {
    type V = ArchitectureV;

    open spec fn view(&self) -> ArchitectureV {
        ArchitectureV {
            name: self.name@,
            version: self.version@,
            description: opt_view(self.description),
            nodes: self.nodes@.map_values(|n: Node| n@),
            relationships: self.relationships@.map_values(|r: Relationship| r@),
            conformance: self.conformance@.map_values(|c: Conformance| c@),
            metadata: self.metadata@,
        }
    }
}

/// The view of an optional architecture.
pub open spec fn opt_architecture_view(a: Option<Architecture>) -> Option<ArchitectureV> {
    match a {
        Some(a) => Some(a@),
        None => None,
    }
}

/// The first node carrying `id`.
pub open spec fn node_with_id(nodes: Seq<NodeV>, id: NodeId) -> Option<NodeV>
    decreases nodes.len(),
{
    if nodes.len() == 0 {
        None
    } else if nodes[0].id == id {
        Some(nodes[0])
    } else {
        node_with_id(nodes.drop_first(), id)
    }
}

/// The first node called `name`.
pub open spec fn node_named(nodes: Seq<NodeV>, name: Seq<char>) -> Option<NodeV>
    decreases nodes.len(),
{
    if nodes.len() == 0 {
        None
    } else if nodes[0].name == name {
        Some(nodes[0])
    } else {
        node_named(nodes.drop_first(), name)
    }
}

/// Whether some relationship starts or ends at `id`.
pub open spec fn connected(relationships: Seq<RelationshipV>, id: NodeId) -> bool {
    exists|i: int| 0 <= i < relationships.len() && joins_node(#[trigger] relationships[i], id)
}

/// Whether a relationship starts or ends at `id`.
pub open spec fn joins_node(r: RelationshipV, id: NodeId) -> bool {
    r.source == id || r.target == id
}

/// How a node is named in output: by its name, or by its identifier written
/// as a UUID when the architecture has no node carrying it.
pub open spec fn display_name(architecture: ArchitectureV, id: NodeId) -> Seq<char> {
    match node_with_id(architecture.nodes, id) {
        Some(n) => n.name,
        None => uuid_text(id.0),
    }
}

impl Architecture {
    /// The name of the node carrying `id`, or the identifier itself when no
    /// node does.
    pub fn display_name(&self, id: NodeId) -> (s: String)
        ensures
            s@ == display_name(self@, id),
    {
        match self.node(id) {
            Some(node) => owned(node.name.as_str()),
            None => uuid_string(id.0),
        }
    }

    /// How many nodes the architecture has.
    pub fn node_count(&self) -> (n: usize)
        ensures
            n == self@.nodes.len(),
    {
        self.nodes.len()
    }

    /// The first node carrying `id`.
    pub fn node(&self, id: NodeId) -> (r: Option<&Node>)
        ensures
            match r {
                Some(n) => node_with_id(self@.nodes, id) == Some(n@),
                None => node_with_id(self@.nodes, id) is None,
            },
    {
        let ghost all = self@.nodes;
        let mut i: usize = 0;
        assert(all.skip(0) =~= all);
        while i < self.nodes.len()
            invariant
                i <= self.nodes@.len(),
                all == self@.nodes,
                node_with_id(all, id) == node_with_id(all.skip(i as int), id),
            decreases self.nodes@.len() - i,
        {
            assert(all.skip(i as int)[0] == self.nodes@[i as int]@);
            if self.nodes[i].id == id {
                return Some(&self.nodes[i]);
            }
            assert(all.skip(i as int).drop_first() =~= all.skip(i + 1));
            i = i + 1;
        }
        None
    }

    /// The first node called `name`.
    pub fn node_by_name(&self, name: &str) -> (r: Option<&Node>)
        ensures
            match r {
                Some(n) => node_named(self@.nodes, name@) == Some(n@),
                None => node_named(self@.nodes, name@) is None,
            },
    {
        let ghost all = self@.nodes;
        let mut i: usize = 0;
        assert(all.skip(0) =~= all);
        while i < self.nodes.len()
            invariant
                i <= self.nodes@.len(),
                all == self@.nodes,
                node_named(all, name@) == node_named(all.skip(i as int), name@),
            decreases self.nodes@.len() - i,
        {
            assert(all.skip(i as int)[0] == self.nodes@[i as int]@);
            if str_eq(self.nodes[i].name.as_str(), name) {
                return Some(&self.nodes[i]);
            }
            assert(all.skip(i as int).drop_first() =~= all.skip(i + 1));
            i = i + 1;
        }
        None
    }

    /// Whether some relationship starts or ends at `id`.
    pub fn is_connected(&self, id: NodeId) -> (b: bool)
        ensures
            b == connected(self@.relationships, id),
    {
        let ghost rels = self@.relationships;
        let mut i: usize = 0;
        while i < self.relationships.len()
            invariant
                i <= self.relationships@.len(),
                rels == self@.relationships,
                forall|j: int| 0 <= j < i ==> !joins_node(#[trigger] rels[j], id),
            decreases self.relationships@.len() - i,
        {
            assert(rels[i as int] == self.relationships@[i as int]@);
            if self.relationships[i].source == id || self.relationships[i].target == id {
                assert(joins_node(rels[i as int], id));
                return true;
            }
            i = i + 1;
        }
        false
    }
}

} // verus!
