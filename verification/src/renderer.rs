//! Turning an architecture into diagrams humans and tools can read:
//! Mermaid flowcharts, Graphviz DOT, and plain text.
//!
//! Every backend is a pure function of the architecture. Node order is the
//! architecture's declaration order; node identifiers in a diagram are
//! positional (`n0`, `n1`, ...), never derived from a node's identifier, so a
//! regenerated identifier does not churn the diagram. Free-form text (edge
//! labels) is escaped before it is embedded in a quoted diagram string.
use vstd::prelude::*;

use crate::architecture::{
    control_type_label, display_name, node_type_label, protocol_label, relationship_type_label,
    Architecture, ArchitectureV, ControlV, InterfaceV, Node, NodeType, NodeV, Relationship,
    RelationshipType, RelationshipV,
};
use crate::chars::{
    chars_of, char_utf8_width, concat_strs, str_eq, join_strings, joined, joined_with, owned,
    string_from_chars, utf8_len, utf8_width,
};
use crate::diagnostic::NodeId;
use crate::fmt::{decimal, decimal_string};

verus! {

/// The replacement for one character of a label: a double quote becomes a
/// single one, a line break a space, a backslash a slash.
pub open spec fn escaped_char(c: char) -> char {
    if c == '"' {
        '\''
    } else if c == '\n' || c == '\r' {
        ' '
    } else if c == '\\' {
        '/'
    } else {
        c
    }
}

/// The escaped form of a label.
pub open spec fn escaped(raw: Seq<char>) -> Seq<char> {
    raw.map_values(|c: char| escaped_char(c))
}

/// Escapes a free-form label for embedding in a quoted diagram string.
pub fn escape_label(raw: &str) -> (s: String)
    ensures
        s@ == escaped(raw@),
{
    let cs = chars_of(raw);
    let mut out: Vec<char> = Vec::new();
    let mut i: usize = 0;
    while i < cs.len()
        invariant
            i <= cs.len(),
            cs@ == raw@,
            out@ == escaped(cs@.take(i as int)),
        decreases cs.len() - i,
    {
        let c = cs[i];
        let e = if c == '"' {
            '\''
        } else if c == '\n' || c == '\r' {
            ' '
        } else if c == '\\' {
            '/'
        } else {
            c
        };
        out.push(e);
        i = i + 1;
        assert(out@ =~= escaped(cs@.take(i as int)));
    }
    assert(cs@.take(cs.len() as int) =~= cs@);
    string_from_chars(out.as_slice())
}

/// An escaped label cannot break out of its quotes or its line, and keeps one
/// character for every character of the original.
pub proof fn law_escaped_labels_are_inert(raw: Seq<char>)
    ensures
        escaped(raw).len() == raw.len(),
        forall|i: int|
            0 <= i < raw.len() ==> {
                let c = #[trigger] escaped(raw)[i];
                c != '"' && c != '\n' && c != '\r' && c != '\\'
            },
{
}

/// The parts of a relationship's label: its type, then its protocol and its
/// budget in milliseconds, whichever are declared.
pub open spec fn edge_parts(r: RelationshipV) -> Seq<Seq<char>> {
    seq![relationship_type_label(r.relationship_type)] + match r.protocol {
        Some(p) => seq![protocol_label(p)],
        None => Seq::empty(),
    } + match r.latency_budget_ms {
        Some(b) => seq![decimal(b as nat) + "ms"@],
        None => Seq::empty(),
    }
}

/// The parts of a relationship's label.
pub fn edge_parts_of(relationship: &Relationship) -> (parts: Vec<String>)
    ensures
        parts@.map_values(|p: String| p@) == edge_parts(relationship@),
{
    let mut parts: Vec<String> = Vec::new();
    parts.push(owned(relationship.relationship_type.label()));
    let ghost first = parts@.map_values(|p: String| p@);
    assert(first =~= seq![relationship_type_label(relationship.relationship_type)]);
    if let Some(protocol) = relationship.protocol {
        parts.push(owned(protocol.label()));
    }
    let ghost second = parts@.map_values(|p: String| p@);
    assert(second =~= seq![relationship_type_label(relationship.relationship_type)] + match relationship.protocol {
        Some(p) => seq![protocol_label(p)],
        None => Seq::<Seq<char>>::empty(),
    });
    if let Some(budget) = relationship.latency_budget_ms {
        let text = concat_strs(&[decimal_string(budget).as_str(), "ms"]);
        proof {
            reveal_with_fuel(joined, 3);
        }
        parts.push(text);
    }
    assert(parts@.map_values(|p: String| p@) =~= edge_parts(relationship@));
    parts
}

/// The positional diagram identifier of every node: `n0`, `n1`, ... in
/// declaration order.
pub open spec fn positional_ids(nodes: Seq<NodeV>) -> Seq<(NodeId, Seq<char>)> {
    Seq::new(nodes.len(), |i: int| (nodes[i].id, "n"@ + decimal(i as nat)))
}

/// The diagram identifier of the first entry for `id`, or `unknown`.
pub open spec fn label_in(ids: Seq<(NodeId, Seq<char>)>, id: NodeId) -> Seq<char>
    decreases ids.len(),
{
    if ids.len() == 0 {
        "unknown"@
    } else if ids[0].0 == id {
        ids[0].1
    } else {
        label_in(ids.drop_first(), id)
    }
}

/// The view of a list of diagram identifiers.
pub open spec fn ids_view(ids: Seq<(NodeId, String)>) -> Seq<(NodeId, Seq<char>)> {
    ids.map_values(|e: (NodeId, String)| (e.0, e.1@))
}

/// Assigns each node its positional diagram identifier.
fn diagram_ids(architecture: &Architecture) -> (ids: Vec<(NodeId, String)>)
    ensures
        ids_view(ids@) == positional_ids(architecture@.nodes),
{
    let ghost nodes = architecture@.nodes;
    let mut ids: Vec<(NodeId, String)> = Vec::new();
    let mut i: usize = 0;
    while i < architecture.nodes.len()
        invariant
            i <= nodes.len(),
            nodes == architecture@.nodes,
            ids_view(ids@) == positional_ids(nodes).take(i as int),
        decreases nodes.len() - i,
    {
        let label = concat_strs(&["n", decimal_string(i as u64).as_str()]);
        proof {
            reveal_with_fuel(joined, 3);
        }
        let ghost before = ids_view(ids@);
        ids.push((architecture.nodes[i].id, label));
        assert(ids_view(ids@) =~= before.push((nodes[i as int].id, "n"@ + decimal(i as nat))));
        assert(positional_ids(nodes).take(i + 1) =~= positional_ids(nodes).take(i as int).push(positional_ids(nodes)[i as int]));
        i = i + 1;
    }
    assert(positional_ids(nodes).take(i as int) =~= positional_ids(nodes));
    ids
}

/// The diagram identifier of the node carrying `node`, or `unknown`.
fn diagram_id(ids: &Vec<(NodeId, String)>, node: NodeId) -> (s: &str)
    ensures
        s@ == label_in(ids_view(ids@), node),
{
    let ghost v = ids_view(ids@);
    assert(v.skip(0) =~= v);
    let mut i: usize = 0;
    while i < ids.len()
        invariant
            i <= ids@.len(),
            v == ids_view(ids@),
            label_in(v, node) == label_in(v.skip(i as int), node),
        decreases ids@.len() - i,
    {
        assert(v.skip(i as int)[0] == (ids@[i as int].0, ids@[i as int].1@));
        if ids[i].0 == node {
            return ids[i].1.as_str();
        }
        assert(v.skip(i as int).drop_first() =~= v.skip(i + 1));
        i = i + 1;
    }
    proof {
        reveal_strlit("unknown");
    }
    "unknown"
}

/// A diagram backend. Rendering is a pure function: the same architecture
/// always yields the same text.
pub trait Renderer {
    /// The backend's identifier, as text; left unspecified for a backend
    /// that does not state it.
    closed spec fn backend_id(&self) -> Seq<char> {
        arbitrary()
    }

    /// The diagram source for an architecture; left unspecified for a
    /// backend that does not state it.
    closed spec fn rendering(&self, architecture: ArchitectureV) -> Seq<char> {
        arbitrary()
    }

    /// The backend's stable, lowercase identifier, as used on the command
    /// line.
    fn id(&self) -> (s: &'static str)
        ensures
            s@ == self.backend_id(),
    ;

    /// The backend's file extension, as text; left unspecified for a backend
    /// that does not state it.
    closed spec fn file_extension(&self) -> Seq<char> {
        arbitrary()
    }

    /// The conventional file extension for this backend's output, without a
    /// dot.
    fn extension(&self) -> (s: &'static str)
        ensures
            s@ == self.file_extension(),
    ;

    /// Renders `architecture` into diagram source.
    fn render(&self, architecture: &Architecture) -> (s: String)
        ensures
            s@ == self.rendering(architecture@),
    ;
}

/// A relationship's label: its parts joined by ` / `.
pub open spec fn edge_label(r: RelationshipV) -> Seq<char> {
    joined_with(edge_parts(r), " / "@)
}

/// The Mermaid shape of a node of type `t`, around `label`.
pub open spec fn mermaid_shape(t: NodeType, label: Seq<char>) -> Seq<char> {
    match t {
        NodeType::Database | NodeType::Storage => "[(\""@ + label + "\")]"@,
        NodeType::Queue => "[[\""@ + label + "\"]]"@,
        NodeType::Cache => "[/\""@ + label + "\"/]"@,
        NodeType::Gateway => "{{\""@ + label + "\"}}"@,
        NodeType::ExternalSystem => "([\""@ + label + "\"])"@,
        NodeType::Human => "((\""@ + label + "\"))"@,
        NodeType::Boundary => "{\""@ + label + "\"}"@,
        NodeType::Service | NodeType::Legacy => "[\""@ + label + "\"]"@,
    }
}

/// The Mermaid arrow of a relationship of type `t`.
pub open spec fn mermaid_arrow(t: RelationshipType) -> Seq<char> {
    match t {
        RelationshipType::Sync | RelationshipType::DependsOn => "-->"@,
        RelationshipType::Async | RelationshipType::EventDriven => "-.->"@,
        RelationshipType::Composed => "---"@,
        RelationshipType::DeployedOn => "-.-"@,
        RelationshipType::QuantumEntangled => "==>"@,
    }
}

/// The Mermaid lines declaring `nodes`.
pub open spec fn mermaid_nodes(ids: Seq<(NodeId, Seq<char>)>, nodes: Seq<NodeV>) -> Seq<char>
    decreases nodes.len(),
{
    if nodes.len() == 0 {
        Seq::empty()
    } else {
        let n = nodes.last();
        mermaid_nodes(ids, nodes.drop_last()) + "  "@ + label_in(ids, n.id) + mermaid_shape(n.node_type, n.name) + "\n"@
    }
}

/// The Mermaid lines drawing `rels`.
pub open spec fn mermaid_edges(ids: Seq<(NodeId, Seq<char>)>, rels: Seq<RelationshipV>) -> Seq<char>
    decreases rels.len(),
{
    if rels.len() == 0 {
        Seq::empty()
    } else {
        let r = rels.last();
        mermaid_edges(ids, rels.drop_last()) + "  "@ + label_in(ids, r.source) + " "@ + mermaid_arrow(r.relationship_type)
            + "|\""@ + escaped(edge_label(r)) + "\"| "@ + label_in(ids, r.target) + "\n"@
    }
}

/// The Mermaid flowchart of an architecture: a header naming it and its
/// version, one line per node, one line per relationship.
pub open spec fn mermaid_text(a: ArchitectureV) -> Seq<char> {
    let ids = positional_ids(a.nodes);
    "flowchart LR\n"@ + "  %% "@ + a.name + " v"@ + a.version + "\n"@ + mermaid_nodes(ids, a.nodes) + mermaid_edges(ids, a.relationships)
}

/// The Mermaid backend: flowcharts that render natively in most wikis.
pub struct Mermaid;

impl Mermaid {
    /// The Mermaid shape of a node type, around `label`.
    fn shape(node_type: NodeType, label: &str) -> (s: String)
        ensures
            s@ == mermaid_shape(node_type, label@),
    {
        let (open, close) = match node_type {
            NodeType::Database | NodeType::Storage => ("[(\"", "\")]"),
            NodeType::Queue => ("[[\"", "\"]]"),
            NodeType::Cache => ("[/\"", "\"/]"),
            NodeType::Gateway => ("{{\"", "\"}}"),
            NodeType::ExternalSystem => ("([\"", "\"])"),
            NodeType::Human => ("((\"", "\"))"),
            NodeType::Boundary => ("{\"", "\"}"),
            NodeType::Service | NodeType::Legacy => ("[\"", "\"]"),
        };
        let s = concat_strs(&[open, label, close]);
        proof {
            reveal_with_fuel(joined, 4);
        }
        s
    }

    /// The Mermaid arrow of a relationship type.
    fn arrow(relationship_type: RelationshipType) -> (s: &'static str)
        ensures
            s@ == mermaid_arrow(relationship_type),
    {
        match relationship_type {
            RelationshipType::Sync | RelationshipType::DependsOn => "-->",
            RelationshipType::Async | RelationshipType::EventDriven => "-.->",
            RelationshipType::Composed => "---",
            RelationshipType::DeployedOn => "-.-",
            RelationshipType::QuantumEntangled => "==>",
        }
    }

    /// The edge label: the relationship's type, then its protocol and its
    /// budget, whichever are declared, joined by ` / `.
    pub fn edge_label(relationship: &Relationship) -> (s: String)
        ensures
            s@ == edge_label(relationship@),
    {
        let parts = edge_parts_of(relationship);
        join_strings(parts.as_slice(), " / ")
    }
}

impl Renderer for Mermaid {
    open spec fn backend_id(&self) -> Seq<char> {
        "mermaid"@
    }

    open spec fn file_extension(&self) -> Seq<char> {
        "mmd"@
    }

    open spec fn rendering(&self, architecture: ArchitectureV) -> Seq<char> {
        mermaid_text(architecture)
    }

    fn id(&self) -> (s: &'static str) {
        "mermaid"
    }

    fn extension(&self) -> (s: &'static str) {
        "mmd"
    }

    fn render(&self, architecture: &Architecture) -> (s: String) {
        let ghost a = architecture@;
        let ids = diagram_ids(architecture);
        let ghost idv = ids_view(ids@);
        let mut out = owned("flowchart LR\n");
        out.append("  %% ");
        out.append(architecture.name.as_str());
        out.append(" v");
        out.append(architecture.version.as_str());
        out.append("\n");
        let ghost head = out@;
        assert(head =~= "flowchart LR\n"@ + "  %% "@ + a.name + " v"@ + a.version + "\n"@);
        let mut i: usize = 0;
        while i < architecture.nodes.len()
            invariant
                i <= a.nodes.len(),
                a == architecture@,
                idv == ids_view(ids@),
                idv == positional_ids(a.nodes),
                out@ == head + mermaid_nodes(idv, a.nodes.take(i as int)),
            decreases a.nodes.len() - i,
        {
            let node = &architecture.nodes[i];
            assert(node@ == a.nodes[i as int]);
            assert(a.nodes.take(i + 1).drop_last() =~= a.nodes.take(i as int));
            let ghost before = out@;
            out.append("  ");
            out.append(diagram_id(&ids, node.id));
            out.append(Self::shape(node.node_type, node.name.as_str()).as_str());
            out.append("\n");
            assert(out@ =~= before + "  "@ + label_in(idv, node.id) + mermaid_shape(node.node_type, node@.name) + "\n"@);
            i = i + 1;
        }
        assert(a.nodes.take(i as int) =~= a.nodes);
        let ghost middle = out@;
        let mut k: usize = 0;
        while k < architecture.relationships.len()
            invariant
                k <= a.relationships.len(),
                a == architecture@,
                idv == ids_view(ids@),
                out@ == middle + mermaid_edges(idv, a.relationships.take(k as int)),
            decreases a.relationships.len() - k,
        {
            let edge = &architecture.relationships[k];
            assert(edge@ == a.relationships[k as int]);
            assert(a.relationships.take(k + 1).drop_last() =~= a.relationships.take(k as int));
            let ghost before = out@;
            let label = escape_label(Self::edge_label(edge).as_str());
            out.append("  ");
            out.append(diagram_id(&ids, edge.source));
            out.append(" ");
            out.append(Self::arrow(edge.relationship_type));
            out.append("|\"");
            out.append(label.as_str());
            out.append("\"| ");
            out.append(diagram_id(&ids, edge.target));
            out.append("\n");
            assert(out@ =~= before + "  "@ + label_in(idv, edge.source) + " "@ + mermaid_arrow(edge.relationship_type)
                + "|\""@ + escaped(edge_label(edge@)) + "\"| "@ + label_in(idv, edge.target) + "\n"@);
            k = k + 1;
        }
        assert(a.relationships.take(k as int) =~= a.relationships);
        assert(out@ =~= mermaid_text(a));
        out
    }
}

/// The Graphviz shape of a node of type `t`.
pub open spec fn dot_shape(t: NodeType) -> Seq<char> {
    match t {
        NodeType::Database | NodeType::Storage => "cylinder"@,
        NodeType::Queue => "box3d"@,
        NodeType::Cache => "parallelogram"@,
        NodeType::Gateway => "hexagon"@,
        NodeType::ExternalSystem => "ellipse"@,
        NodeType::Human => "circle"@,
        NodeType::Boundary => "diamond"@,
        NodeType::Legacy => "note"@,
        NodeType::Service => "box"@,
    }
}

/// The Graphviz edge style of a relationship of type `t`. Graphviz offers
/// fewer line styles than there are relationship types, so `composed` and
/// `quantum-entangled` share `bold`; the label always carries the exact type.
pub open spec fn dot_style(t: RelationshipType) -> Seq<char> {
    match t {
        RelationshipType::Sync | RelationshipType::DependsOn => "solid"@,
        RelationshipType::Async | RelationshipType::EventDriven => "dashed"@,
        RelationshipType::Composed | RelationshipType::QuantumEntangled => "bold"@,
        RelationshipType::DeployedOn => "dotted"@,
    }
}

/// The DOT lines declaring `nodes`.
pub open spec fn dot_nodes(ids: Seq<(NodeId, Seq<char>)>, nodes: Seq<NodeV>) -> Seq<char>
    decreases nodes.len(),
{
    if nodes.len() == 0 {
        Seq::empty()
    } else {
        let n = nodes.last();
        dot_nodes(ids, nodes.drop_last()) + "  "@ + label_in(ids, n.id) + " [label=\""@ + n.name + "\", shape="@
            + dot_shape(n.node_type) + "];\n"@
    }
}

/// The DOT lines drawing `rels`.
pub open spec fn dot_edges(ids: Seq<(NodeId, Seq<char>)>, rels: Seq<RelationshipV>) -> Seq<char>
    decreases rels.len(),
{
    if rels.len() == 0 {
        Seq::empty()
    } else {
        let r = rels.last();
        dot_edges(ids, rels.drop_last()) + "  "@ + label_in(ids, r.source) + " -> "@ + label_in(ids, r.target)
            + " [label=\""@ + escaped(edge_label(r)) + "\", style="@ + dot_style(r.relationship_type) + "];\n"@
    }
}

/// The DOT digraph of an architecture.
pub open spec fn dot_text(a: ArchitectureV) -> Seq<char> {
    let ids = positional_ids(a.nodes);
    "digraph \""@ + a.name + "\" {\n"@ + "  rankdir=LR;\n"@ + "  node [fontname=\"Helvetica\"];\n"@
        + "  edge [fontname=\"Helvetica\", fontsize=10];\n"@ + dot_nodes(ids, a.nodes) + dot_edges(ids, a.relationships)
        + "}\n"@
}

/// The Graphviz DOT backend, for complex layouts and downstream tooling.
pub struct Dot;

impl Dot {
    /// The Graphviz shape of a node type.
    fn shape(node_type: NodeType) -> (s: &'static str)
        ensures
            s@ == dot_shape(node_type),
    {
        match node_type {
            NodeType::Database | NodeType::Storage => "cylinder",
            NodeType::Queue => "box3d",
            NodeType::Cache => "parallelogram",
            NodeType::Gateway => "hexagon",
            NodeType::ExternalSystem => "ellipse",
            NodeType::Human => "circle",
            NodeType::Boundary => "diamond",
            NodeType::Legacy => "note",
            NodeType::Service => "box",
        }
    }

    /// The Graphviz edge style of a relationship type.
    fn style(relationship_type: RelationshipType) -> (s: &'static str)
        ensures
            s@ == dot_style(relationship_type),
    {
        match relationship_type {
            RelationshipType::Sync | RelationshipType::DependsOn => "solid",
            RelationshipType::Async | RelationshipType::EventDriven => "dashed",
            RelationshipType::Composed | RelationshipType::QuantumEntangled => "bold",
            RelationshipType::DeployedOn => "dotted",
        }
    }
}

impl Renderer for Dot {
    open spec fn backend_id(&self) -> Seq<char> {
        "dot"@
    }

    open spec fn file_extension(&self) -> Seq<char> {
        "dot"@
    }

    open spec fn rendering(&self, architecture: ArchitectureV) -> Seq<char> {
        dot_text(architecture)
    }

    fn id(&self) -> (s: &'static str) {
        "dot"
    }

    fn extension(&self) -> (s: &'static str) {
        "dot"
    }

    fn render(&self, architecture: &Architecture) -> (s: String) {
        let ghost a = architecture@;
        let ids = diagram_ids(architecture);
        let ghost idv = ids_view(ids@);
        let mut out = owned("digraph \"");
        out.append(architecture.name.as_str());
        out.append("\" {\n");
        out.append("  rankdir=LR;\n");
        out.append("  node [fontname=\"Helvetica\"];\n");
        out.append("  edge [fontname=\"Helvetica\", fontsize=10];\n");
        let ghost head = out@;
        let mut i: usize = 0;
        while i < architecture.nodes.len()
            invariant
                i <= a.nodes.len(),
                a == architecture@,
                idv == ids_view(ids@),
                idv == positional_ids(a.nodes),
                out@ == head + dot_nodes(idv, a.nodes.take(i as int)),
            decreases a.nodes.len() - i,
        {
            let node = &architecture.nodes[i];
            assert(node@ == a.nodes[i as int]);
            assert(a.nodes.take(i + 1).drop_last() =~= a.nodes.take(i as int));
            let ghost before = out@;
            out.append("  ");
            out.append(diagram_id(&ids, node.id));
            out.append(" [label=\"");
            out.append(node.name.as_str());
            out.append("\", shape=");
            out.append(Self::shape(node.node_type));
            out.append("];\n");
            assert(out@ =~= before + "  "@ + label_in(idv, node.id) + " [label=\""@ + node@.name + "\", shape="@
                + dot_shape(node.node_type) + "];\n"@);
            i = i + 1;
        }
        assert(a.nodes.take(i as int) =~= a.nodes);
        let ghost middle = out@;
        let mut k: usize = 0;
        while k < architecture.relationships.len()
            invariant
                k <= a.relationships.len(),
                a == architecture@,
                idv == ids_view(ids@),
                out@ == middle + dot_edges(idv, a.relationships.take(k as int)),
            decreases a.relationships.len() - k,
        {
            let edge = &architecture.relationships[k];
            assert(edge@ == a.relationships[k as int]);
            assert(a.relationships.take(k + 1).drop_last() =~= a.relationships.take(k as int));
            let ghost before = out@;
            let label = escape_label(Mermaid::edge_label(edge).as_str());
            out.append("  ");
            out.append(diagram_id(&ids, edge.source));
            out.append(" -> ");
            out.append(diagram_id(&ids, edge.target));
            out.append(" [label=\"");
            out.append(label.as_str());
            out.append("\", style=");
            out.append(Self::style(edge.relationship_type));
            out.append("];\n");
            assert(out@ =~= before + "  "@ + label_in(idv, edge.source) + " -> "@ + label_in(idv, edge.target)
                + " [label=\""@ + escaped(edge_label(edge@)) + "\", style="@ + dot_style(edge.relationship_type) + "];\n"@);
            k = k + 1;
        }
        assert(a.relationships.take(k as int) =~= a.relationships);
        out.append("}\n");
        assert(out@ =~= dot_text(a));
        out
    }
}

/// `n` copies of `c`.
pub open spec fn repeated(c: char, n: nat) -> Seq<char> {
    Seq::new(n, |i: int| c)
}

/// The plain-text header: the name and version, underlined with one `=` per
/// byte of the title, then the description if there is one, then a blank
/// line.
pub open spec fn ascii_header(a: ArchitectureV) -> Seq<char> {
    let title = a.name + " v"@ + a.version;
    title + "\n"@ + repeated('=', utf8_len(title)) + "\n"@ + match a.description {
        Some(d) => d + "\n"@,
        None => Seq::empty(),
    } + "\n"@
}

/// The lines listing `interfaces`.
pub open spec fn interface_lines(interfaces: Seq<InterfaceV>) -> Seq<char>
    decreases interfaces.len(),
{
    if interfaces.len() == 0 {
        Seq::empty()
    } else {
        let i = interfaces.last();
        interface_lines(interfaces.drop_last()) + "    :: "@ + i.name + " ("@ + protocol_label(i.protocol) + " v"@
            + i.version + ")\n"@
    }
}

/// The lines listing `controls`.
pub open spec fn control_lines(controls: Seq<ControlV>) -> Seq<char>
    decreases controls.len(),
{
    if controls.len() == 0 {
        Seq::empty()
    } else {
        let c = controls.last();
        control_lines(controls.drop_last()) + "    # "@ + c.standard + " ["@ + control_type_label(c.control_type) + "]\n"@
    }
}

/// The lines listing the relationships among `rels` that leave `id`.
pub open spec fn outgoing_lines(a: ArchitectureV, rels: Seq<RelationshipV>, id: NodeId) -> Seq<char>
    decreases rels.len(),
{
    if rels.len() == 0 {
        Seq::empty()
    } else {
        let r = rels.last();
        outgoing_lines(a, rels.drop_last(), id) + if r.source == id {
            "    --"@ + edge_label(r) + "--> "@ + display_name(a, r.target) + "\n"@
        } else {
            Seq::empty()
        }
    }
}

/// The plain-text block for one node: its type and name, its description,
/// interfaces, controls, and outgoing relationships.
pub open spec fn ascii_block(a: ArchitectureV, n: NodeV) -> Seq<char> {
    "["@ + node_type_label(n.node_type) + "] "@ + n.name + "\n"@ + match n.description {
        Some(d) => "    "@ + d + "\n"@,
        None => Seq::empty(),
    } + interface_lines(n.interfaces) + control_lines(n.controls) + outgoing_lines(a, a.relationships, n.id)
}

/// The blocks for `nodes`, each followed by a blank line.
pub open spec fn ascii_blocks(a: ArchitectureV, nodes: Seq<NodeV>) -> Seq<char>
    decreases nodes.len(),
{
    if nodes.len() == 0 {
        Seq::empty()
    } else {
        ascii_blocks(a, nodes.drop_last()) + ascii_block(a, nodes.last()) + "\n"@
    }
}

/// The plain-text rendering: the header, then either `(no nodes)` or every
/// node's block and a count of nodes and relationships.
pub open spec fn ascii_text(a: ArchitectureV) -> Seq<char> {
    ascii_header(a) + if a.nodes.len() == 0 {
        "(no nodes)\n"@
    } else {
        ascii_blocks(a, a.nodes) + decimal(a.nodes.len()) + " node(s), "@ + decimal(a.relationships.len())
            + " relationship(s)\n"@
    }
}

/// The plain-text backend, readable in a CI log, a terminal, or a commit
/// message.
pub struct Ascii;

impl Ascii {
    /// Renders the header block.
    fn header(architecture: &Architecture) -> (s: String)
        ensures
            s@ == ascii_header(architecture@),
    {
        let ghost a = architecture@;
        let title = concat_strs(&[architecture.name.as_str(), " v", architecture.version.as_str()]);
        proof {
            reveal_with_fuel(joined, 4);
        }
        let cs = chars_of(title.as_str());
        let width = utf8_of(&cs);
        let mut out = owned(title.as_str());
        out.append("\n");
        let ghost before = out@;
        let mut k: u128 = 0;
        while k < width
            invariant
                k <= width,
                out@ == before + repeated('=', k as nat),
            decreases width - k,
        {
            out.append("=");
            proof {
                reveal_strlit("=");
            }
            assert(out@ =~= before + repeated('=', (k + 1) as nat));
            k = k + 1;
        }
        out.append("\n");
        if let Some(description) = &architecture.description {
            out.append(description.as_str());
            out.append("\n");
        }
        out.append("\n");
        assert(out@ =~= ascii_header(a));
        out
    }

    /// Renders one node and its outgoing relationships.
    fn node_block(architecture: &Architecture, node: &Node) -> (s: String)
        ensures
            s@ == ascii_block(architecture@, node@),
    {
        let ghost a = architecture@;
        let ghost n = node@;
        let mut out = owned("[");
        out.append(node.node_type.label());
        out.append("] ");
        out.append(node.name.as_str());
        out.append("\n");
        if let Some(description) = &node.description {
            out.append("    ");
            out.append(description.as_str());
            out.append("\n");
        }
        let ghost head = out@;
        let mut i: usize = 0;
        while i < node.interfaces.len()
            invariant
                i <= n.interfaces.len(),
                n == node@,
                out@ == head + interface_lines(n.interfaces.take(i as int)),
            decreases n.interfaces.len() - i,
        {
            let interface = &node.interfaces[i];
            assert(interface@ == n.interfaces[i as int]);
            assert(n.interfaces.take(i + 1).drop_last() =~= n.interfaces.take(i as int));
            let ghost before = out@;
            out.append("    :: ");
            out.append(interface.name.as_str());
            out.append(" (");
            out.append(interface.protocol.label());
            out.append(" v");
            out.append(interface.version.as_str());
            out.append(")\n");
            assert(out@ =~= before + "    :: "@ + interface@.name + " ("@ + protocol_label(interface.protocol) + " v"@
                + interface@.version + ")\n"@);
            i = i + 1;
        }
        assert(n.interfaces.take(i as int) =~= n.interfaces);
        let ghost second = out@;
        let mut j: usize = 0;
        while j < node.controls.len()
            invariant
                j <= n.controls.len(),
                n == node@,
                out@ == second + control_lines(n.controls.take(j as int)),
            decreases n.controls.len() - j,
        {
            let control = &node.controls[j];
            assert(control@ == n.controls[j as int]);
            assert(n.controls.take(j + 1).drop_last() =~= n.controls.take(j as int));
            let ghost before = out@;
            out.append("    # ");
            out.append(control.standard.as_str());
            out.append(" [");
            out.append(control.control_type.label());
            out.append("]\n");
            assert(out@ =~= before + "    # "@ + control@.standard + " ["@ + control_type_label(control.control_type) + "]\n"@);
            j = j + 1;
        }
        assert(n.controls.take(j as int) =~= n.controls);
        let ghost third = out@;
        let mut k: usize = 0;
        while k < architecture.relationships.len()
            invariant
                k <= a.relationships.len(),
                a == architecture@,
                n == node@,
                out@ == third + outgoing_lines(a, a.relationships.take(k as int), n.id),
            decreases a.relationships.len() - k,
        {
            let edge = &architecture.relationships[k];
            assert(edge@ == a.relationships[k as int]);
            assert(a.relationships.take(k + 1).drop_last() =~= a.relationships.take(k as int));
            let ghost before = out@;
            if edge.source == node.id {
                let target = architecture.display_name(edge.target);
                out.append("    --");
                out.append(Mermaid::edge_label(edge).as_str());
                out.append("--> ");
                out.append(target.as_str());
                out.append("\n");
                assert(out@ =~= before + ("    --"@ + edge_label(edge@) + "--> "@ + display_name(a, edge.target) + "\n"@));
            } else {
                assert(out@ =~= before + Seq::<char>::empty());
            }
            k = k + 1;
        }
        assert(a.relationships.take(k as int) =~= a.relationships);
        assert(out@ =~= ascii_block(a, n));
        out
    }
}

/// The number of bytes `cs` takes in UTF-8.
fn utf8_of(cs: &Vec<char>) -> (n: u128)
    ensures
        n == utf8_len(cs@),
{
    let mut n: u128 = 0;
    let mut i: usize = 0;
    while i < cs.len()
        invariant
            i <= cs@.len(),
            n == utf8_len(cs@.take(i as int)),
            n <= 4 * i,
        decreases cs@.len() - i,
    {
        assert(cs@.take(i + 1).drop_last() =~= cs@.take(i as int));
        n = n + char_utf8_width(cs[i]) as u128;
        i = i + 1;
    }
    assert(cs@.take(i as int) =~= cs@);
    n
}

impl Renderer for Ascii {
    open spec fn backend_id(&self) -> Seq<char> {
        "ascii"@
    }

    open spec fn file_extension(&self) -> Seq<char> {
        "txt"@
    }

    open spec fn rendering(&self, architecture: ArchitectureV) -> Seq<char> {
        ascii_text(architecture)
    }

    fn id(&self) -> (s: &'static str) {
        "ascii"
    }

    fn extension(&self) -> (s: &'static str) {
        "txt"
    }

    fn render(&self, architecture: &Architecture) -> (s: String) {
        let ghost a = architecture@;
        let mut out = Self::header(architecture);
        if architecture.nodes.len() == 0 {
            out.append("(no nodes)\n");
            return out;
        }
        let ghost head = out@;
        let mut i: usize = 0;
        while i < architecture.nodes.len()
            invariant
                i <= a.nodes.len(),
                a == architecture@,
                out@ == head + ascii_blocks(a, a.nodes.take(i as int)),
            decreases a.nodes.len() - i,
        {
            let node = &architecture.nodes[i];
            assert(node@ == a.nodes[i as int]);
            assert(a.nodes.take(i + 1).drop_last() =~= a.nodes.take(i as int));
            let ghost before = out@;
            out.append(Self::node_block(architecture, node).as_str());
            out.append("\n");
            assert(out@ =~= before + ascii_block(a, node@) + "\n"@);
            i = i + 1;
        }
        assert(a.nodes.take(i as int) =~= a.nodes);
        let counts = concat_strs(
            &[
                decimal_string(architecture.nodes.len() as u64).as_str(),
                " node(s), ",
                decimal_string(architecture.relationships.len() as u64).as_str(),
                " relationship(s)\n",
            ],
        );
        proof {
            reveal_with_fuel(joined, 5);
        }
        out.append(counts.as_str());
        assert(out@ =~= ascii_text(a));
        out
    }
}

/// Every built-in backend: Mermaid, DOT, plain text.
pub fn built_in() -> (backends: Vec<Box<dyn Renderer>>)
    ensures
        backends@.len() == 3,
{
    vec![Box::new(Mermaid), Box::new(Dot), Box::new(Ascii)]
}

/// The backend with identifier `id`, if there is one.
pub fn by_id(id: &str) -> (r: Option<Box<dyn Renderer>>)
    ensures
        r is Some <==> (id@ == "mermaid"@ || id@ == "dot"@ || id@ == "ascii"@),
        r matches Some(b) ==> b.backend_id() == id@,
        r matches Some(b) ==> forall|a: ArchitectureV| #[trigger] b.rendering(a) == if id@ == "mermaid"@ {
            mermaid_text(a)
        } else if id@ == "dot"@ {
            dot_text(a)
        } else {
            ascii_text(a)
        },
{
    if str_eq(id, "mermaid") {
        let b: Box<dyn Renderer> = Box::new(Mermaid);
        assert(b.backend_id() == "mermaid"@);
        let r = Some(b);
        assert(r matches Some(x) && x.backend_id() == "mermaid"@);
        r
    } else if str_eq(id, "dot") {
        let b: Box<dyn Renderer> = Box::new(Dot);
        assert(b.backend_id() == "dot"@);
        let r = Some(b);
        assert(r matches Some(x) && x.backend_id() == "dot"@);
        r
    } else if str_eq(id, "ascii") {
        let b: Box<dyn Renderer> = Box::new(Ascii);
        assert(b.backend_id() == "ascii"@);
        let r = Some(b);
        assert(r matches Some(x) && x.backend_id() == "ascii"@);
        r
    } else {
        None
    }
}

} // verus!
