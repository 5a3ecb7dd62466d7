//! Explaining whatever the cursor is resting on.
//!
//! Hovering a node name shows what the node is: its interfaces, its controls,
//! what it calls and what calls it. That needs the resolved architecture,
//! which exists only when the document parses; mid-edit it usually does not,
//! so hover degrades to the name and type the index scraped from the text
//! rather than vanishing. Keys and enum values are explained from the
//! vocabulary.
use vstd::prelude::*;

use crate::architecture::{
    control_type_label, node_named, node_type_label, node_with_id, protocol_label, Architecture,
    ArchitectureV, ControlV, InterfaceV, Node, NodeV, Relationship, RelationshipV,
};
use crate::chars::{concat_strs, join_strings, joined, joined_with, owned};
use crate::diagnostic::NodeId;
use crate::pattern::{reference_of, Pattern, PatternV, RequiredRelationshipV, RequirementV};
use crate::renderer::{edge_parts, edge_parts_of};
use crate::architecture::relationship_type_label;
use crate::chars::str_eq;
use crate::seqs::{lemma_first_match_is};
use crate::index::{named_pred, under_pred, Block, DocumentIndex, IndexV, Section, Symbol, SymbolKind, SymbolV};
use crate::schema::{
    control_keys, control_keys_spec, control_types, control_types_spec, find, interface_keys,
    interface_keys_spec, labelled, node_keys, node_keys_spec, node_types, node_types_spec,
    protocols, protocols_spec, relationship_keys, relationship_keys_spec, relationship_types,
    relationship_types_spec, root_keys, root_keys_spec, Term,
};
use crate::seqs::first_match;
use crate::text::{Position, Span};

verus! {

/// A rendered hover tooltip.
#[derive(Clone, Debug, PartialEq, Eq)]
pub struct Hover {
    /// Markdown to display.
    pub markdown: String,
    /// The span the tooltip describes, so the editor can highlight it.
    pub span: Span,
}

/// The model of a [`Hover`].
pub struct HoverV {
    pub markdown: Seq<char>,
    pub span: Span,
}

impl View for Hover {
    type V = HoverV;

    open spec fn view(&self) -> HoverV {
        HoverV { markdown: self.markdown@, span: self.span }
    }
}

/// A term rendered as Markdown: `**label** — _detail_`, a blank line, then
/// the documentation.
pub open spec fn term_markdown(t: Term) -> Seq<char> {
    "**"@ + t.label@ + "** — _"@ + t.detail@ + "_\n\n"@ + t.documentation@
}

/// The key vocabulary in force at a section and block.
pub open spec fn key_table_spec(section: Section, block: Block) -> Seq<Term> {
    match (section, block) {
        (Section::Root, _) => root_keys_spec(),
        (Section::Nodes, Block::Direct) => node_keys_spec(),
        (Section::Nodes, Block::Interfaces) => interface_keys_spec(),
        (Section::Nodes, Block::Controls) | (Section::Relationships, Block::Controls) => control_keys_spec(),
        (Section::Relationships, _) => relationship_keys_spec(),
        _ => Seq::empty(),
    }
}

/// The key vocabulary in force at a section and block.
pub fn key_table(section: Section, block: Block) -> (terms: &'static [Term])
    ensures
        terms@ == key_table_spec(section, block),
{
    match (section, block) {
        (Section::Root, _) => root_keys(),
        (Section::Nodes, Block::Direct) => node_keys(),
        (Section::Nodes, Block::Interfaces) => interface_keys(),
        (Section::Nodes, Block::Controls) | (Section::Relationships, Block::Controls) => control_keys(),
        (Section::Relationships, _) => relationship_keys(),
        _ => {
            let none: &'static [Term] = &[];
            assert(none@ =~= Seq::<Term>::empty());
            none
        },
    }
}

/// The explanation of `label` among `terms`, or a plain statement that it is
/// not a recognised `what`.
pub open spec fn describe_term_spec(terms: Seq<Term>, label: Seq<char>, what: Seq<char>) -> Seq<char> {
    let k = first_match(terms, labelled(label));
    if k < terms.len() {
        term_markdown(terms[k])
    } else {
        "`"@ + label + "` is not a recognised "@ + what + "."@
    }
}

/// Renders a vocabulary term, or says plainly that it is not one.
pub fn describe_term(terms: &[Term], label: &str, what: &str) -> (s: String)
    ensures
        s@ == describe_term_spec(terms@, label@, what@),
{
    match find(terms, label) {
        Some(t) => t.to_markdown(),
        None => {
            let s = concat_strs(&["`", label, "` is not a recognised ", what, "."]);
            proof {
                reveal_with_fuel(joined, 6);
            }
            s
        },
    }
}

/// The explanation of a protocol: from the vocabulary, or the custom-protocol
/// fallback, which is accepted and treated as synchronous.
pub open spec fn describe_protocol_spec(label: Seq<char>) -> Seq<char> {
    let terms = protocols_spec();
    let k = first_match(terms, labelled(label));
    if k < terms.len() {
        term_markdown(terms[k])
    } else {
        "**"@ + label + "** — _custom protocol_\n\nNot a protocol CASIMIR models natively. It is accepted, and treated as synchronous for validation purposes."@
    }
}

/// Renders a protocol, accounting for protocols outside the vocabulary.
pub fn describe_protocol(label: &str) -> (s: String)
    ensures
        s@ == describe_protocol_spec(label@),
{
    match find(protocols(), label) {
        Some(t) => t.to_markdown(),
        None => {
            let s = concat_strs(
                &[
                    "**",
                    label,
                    "** — _custom protocol_\n\nNot a protocol CASIMIR models natively. It is accepted, and treated as synchronous for validation purposes.",
                ],
            );
            proof {
                reveal_with_fuel(joined, 4);
            }
            s
        },
    }
}

/// What the index knows of the node called `name`.
pub open spec fn describe_node_spec(ix: IndexV, name: Seq<char>) -> Seq<char> {
    let k = first_match(ix.nodes, named_pred(name));
    if k < ix.nodes.len() {
        (match ix.nodes[k].node_type {
            Some(t) => "**"@ + name + "** — _"@ + t + "_"@,
            None => "**"@ + name + "** — _type not yet declared_"@,
        }) + "\n\n_Showing partial information: the document does not currently parse._"@
    } else {
        "`"@ + name + "` does not match any node declared in this document.\n\nCheck the spelling, or add a node with this name under `nodes:`."@
    }
}

/// Renders what the index knows of a node: its name and scraped type, or
/// that no node of that name is declared.
pub fn describe_indexed_node(index: &DocumentIndex, name: &str) -> (s: String)
    ensures
        s@ == describe_node_spec(index@, name@),
{
    match index.node_named(name) {
        None => {
            let s = concat_strs(
                &[
                    "`",
                    name,
                    "` does not match any node declared in this document.\n\nCheck the spelling, or add a node with this name under `nodes:`.",
                ],
            );
            proof {
                reveal_with_fuel(joined, 4);
            }
            s
        },
        Some(entry) => {
            let s = match &entry.node_type {
                Some(t) => concat_strs(
                    &[
                        "**",
                        name,
                        "** — _",
                        t.as_str(),
                        "_\n\n_Showing partial information: the document does not currently parse._",
                    ],
                ),
                None => concat_strs(
                    &[
                        "**",
                        name,
                        "** — _type not yet declared_\n\n_Showing partial information: the document does not currently parse._",
                    ],
                ),
            };
            proof {
                reveal_with_fuel(joined, 6);
                reveal_strlit("_\n\n_Showing partial information: the document does not currently parse._");
                reveal_strlit("_");
                reveal_strlit("\n\n_Showing partial information: the document does not currently parse._");
                reveal_strlit("** — _type not yet declared_\n\n_Showing partial information: the document does not currently parse._");
                reveal_strlit("** — _type not yet declared_");
            }
            s
        },
    }
}

/// A relationship summarised for a tooltip: its type, protocol and budget,
/// whichever are declared, joined by commas.
pub open spec fn edge_summary_text(r: RelationshipV) -> Seq<char> {
    joined_with(edge_parts(r), ", "@)
}

/// Summarises a relationship's type, protocol, and budget.
pub fn edge_summary(edge: &Relationship) -> (s: String)
    ensures
        s@ == edge_summary_text(edge@),
{
    let parts = edge_parts_of(edge);
    join_strings(parts.as_slice(), ", ")
}

/// The name of the node carrying `id`, or `?`.
pub open spec fn name_or_unknown(a: ArchitectureV, id: NodeId) -> Seq<char> {
    match node_with_id(a.nodes, id) {
        Some(n) => n.name,
        None => "?"@,
    }
}

/// Whether `r` arrives at `id` (`incoming`) or leaves it.
pub open spec fn meets(r: RelationshipV, id: NodeId, incoming: bool) -> bool {
    if incoming {
        r.target == id
    } else {
        r.source == id
    }
}

/// How many of `rels` arrive at `id` (`incoming`) or leave it.
pub open spec fn meeting_count(rels: Seq<RelationshipV>, id: NodeId, incoming: bool) -> nat
    decreases rels.len(),
{
    if rels.len() == 0 {
        0
    } else {
        meeting_count(rels.drop_last(), id, incoming) + if meets(rels.last(), id, incoming) {
            1nat
        } else {
            0nat
        }
    }
}

/// One list line per relationship of `rels` arriving at `id` (`incoming`,
/// naming its source) or leaving it (naming its target).
pub open spec fn edge_lines(a: ArchitectureV, rels: Seq<RelationshipV>, id: NodeId, incoming: bool) -> Seq<char>
    decreases rels.len(),
{
    if rels.len() == 0 {
        Seq::empty()
    } else {
        let r = rels.last();
        edge_lines(a, rels.drop_last(), id, incoming) + if !meets(r, id, incoming) {
            Seq::empty()
        } else if incoming {
            "\n- ← `"@ + name_or_unknown(a, r.source) + "` ("@ + edge_summary_text(r) + ")"@
        } else {
            "\n- → `"@ + name_or_unknown(a, r.target) + "` ("@ + edge_summary_text(r) + ")"@
        }
    }
}

/// The sections listing what a node calls and what calls it, each present
/// only when it has an entry.
pub open spec fn edges_text(a: ArchitectureV, id: NodeId) -> Seq<char> {
    (if meeting_count(a.relationships, id, false) > 0 {
        "\n\n**Calls**"@ + edge_lines(a, a.relationships, id, false)
    } else {
        Seq::empty()
    }) + if meeting_count(a.relationships, id, true) > 0 {
        "\n\n**Called by**"@ + edge_lines(a, a.relationships, id, true)
    } else {
        Seq::empty()
    }
}

/// One list line per interface.
pub open spec fn interface_items(interfaces: Seq<InterfaceV>) -> Seq<char>
    decreases interfaces.len(),
{
    if interfaces.len() == 0 {
        Seq::empty()
    } else {
        let i = interfaces.last();
        interface_items(interfaces.drop_last()) + "\n- `"@ + i.name + "` — "@ + protocol_label(i.protocol) + " v"@ + i.version
    }
}

/// One list line per control, marking those that need evidence.
pub open spec fn control_items(controls: Seq<ControlV>) -> Seq<char>
    decreases controls.len(),
{
    if controls.len() == 0 {
        Seq::empty()
    } else {
        let c = controls.last();
        control_items(controls.drop_last()) + "\n- `"@ + c.standard + "` ("@ + control_type_label(c.control_type) + ") — "@
            + c.description + if c.evidence_required {
            " *(evidence required)*"@
        } else {
            Seq::empty()
        }
    }
}

/// The full picture of a node from a document that parses: name and type,
/// description, interfaces, controls, then what it calls and what calls it.
pub open spec fn resolved_node_text(a: ArchitectureV, n: NodeV) -> Seq<char> {
    "**"@ + n.name + "** — _"@ + node_type_label(n.node_type) + "_"@ + match n.description {
        Some(d) => "\n\n"@ + d,
        None => Seq::empty(),
    } + (if n.interfaces.len() > 0 {
        "\n\n**Interfaces**"@ + interface_items(n.interfaces)
    } else {
        Seq::empty()
    }) + (if n.controls.len() > 0 {
        "\n\n**Controls**"@ + control_items(n.controls)
    } else {
        Seq::empty()
    }) + edges_text(a, n.id)
}

/// Appends the sections listing what `node` calls and what calls it.
fn append_edges(out: &mut String, architecture: &Architecture, node: &Node)
    ensures
        final(out)@ == old(out)@ + edges_text(architecture@, node.id),
{
    let ghost a = architecture@;
    let ghost start = out@;
    let mut k: usize = 0;
    while k < 2
        invariant
            k <= 2,
            a == architecture@,
            out@ == start + if k == 0 {
                Seq::empty()
            } else if k == 1 {
                (if meeting_count(a.relationships, node.id, false) > 0 {
                    "\n\n**Calls**"@ + edge_lines(a, a.relationships, node.id, false)
                } else {
                    Seq::<char>::empty()
                })
            } else {
                edges_text(a, node.id)
            },
        decreases 2 - k,
    {
        let incoming = k == 1;
        let ghost before = out@;
        let count = count_meeting(architecture, node.id, incoming);
        if count > 0 {
            out.append(if incoming { "\n\n**Called by**" } else { "\n\n**Calls**" });
            let ghost head = out@;
            let mut i: usize = 0;
            while i < architecture.relationships.len()
                invariant
                    i <= a.relationships.len(),
                    a == architecture@,
                    out@ == head + edge_lines(a, a.relationships.take(i as int), node.id, incoming),
                decreases a.relationships.len() - i,
            {
                let edge = &architecture.relationships[i];
                assert(edge@ == a.relationships[i as int]);
                assert(a.relationships.take(i + 1).drop_last() =~= a.relationships.take(i as int));
                let ghost prior = out@;
                if incoming && edge.target == node.id {
                    let other = name_or_unknown_of(architecture, edge.source);
                    out.append("\n- ← `");
                    out.append(other.as_str());
                    out.append("` (");
                    out.append(edge_summary(edge).as_str());
                    out.append(")");
                    assert(out@ =~= prior + ("\n- ← `"@ + name_or_unknown(a, edge.source) + "` ("@ + edge_summary_text(edge@) + ")"@));
                } else if !incoming && edge.source == node.id {
                    let other = name_or_unknown_of(architecture, edge.target);
                    out.append("\n- → `");
                    out.append(other.as_str());
                    out.append("` (");
                    out.append(edge_summary(edge).as_str());
                    out.append(")");
                    assert(out@ =~= prior + ("\n- → `"@ + name_or_unknown(a, edge.target) + "` ("@ + edge_summary_text(edge@) + ")"@));
                } else {
                    assert(out@ =~= prior + Seq::<char>::empty());
                }
                i = i + 1;
            }
            assert(a.relationships.take(i as int) =~= a.relationships);
        }
        assert(out@ =~= before + if meeting_count(a.relationships, node.id, incoming) > 0 {
            (if incoming { "\n\n**Called by**"@ } else { "\n\n**Calls**"@ }) + edge_lines(a, a.relationships, node.id, incoming)
        } else {
            Seq::<char>::empty()
        });
        k = k + 1;
    }
    assert(out@ =~= start + edges_text(a, node.id));
}

/// How many relationships arrive at `id` (`incoming`) or leave it.
fn count_meeting(architecture: &Architecture, id: NodeId, incoming: bool) -> (n: usize)
    ensures
        n == meeting_count(architecture@.relationships, id, incoming),
{
    let ghost rels = architecture@.relationships;
    let mut n: usize = 0;
    let mut i: usize = 0;
    while i < architecture.relationships.len()
        invariant
            i <= rels.len(),
            rels == architecture@.relationships,
            n == meeting_count(rels.take(i as int), id, incoming),
            n <= i,
        decreases rels.len() - i,
    {
        let edge = &architecture.relationships[i];
        assert(edge@ == rels[i as int]);
        assert(rels.take(i + 1).drop_last() =~= rels.take(i as int));
        if (incoming && edge.target == id) || (!incoming && edge.source == id) {
            n = n + 1;
        }
        i = i + 1;
    }
    assert(rels.take(i as int) =~= rels);
    n
}

/// The name of the node carrying `id`, or `?`.
fn name_or_unknown_of(architecture: &Architecture, id: NodeId) -> (s: String)
    ensures
        s@ == name_or_unknown(architecture@, id),
{
    match architecture.node(id) {
        Some(node) => owned(node.name.as_str()),
        None => {
            proof {
                reveal_strlit("?");
            }
            owned("?")
        },
    }
}

/// The full picture of `node`, from a document that parses.
#[verifier::rlimit(40)]
pub fn describe_resolved_node(architecture: &Architecture, node: &Node) -> (s: String)
    ensures
        s@ == resolved_node_text(architecture@, node@),
{
    let ghost a = architecture@;
    let ghost n = node@;
    let mut out = owned("**");
    out.append(node.name.as_str());
    out.append("** — _");
    out.append(node.node_type.label());
    out.append("_");
    if let Some(description) = &node.description {
        out.append("\n\n");
        out.append(description.as_str());
    }
    let ghost head = out@;
    if node.interfaces.len() > 0 {
        out.append("\n\n**Interfaces**");
        let ghost start = out@;
        let mut i: usize = 0;
        while i < node.interfaces.len()
            invariant
                i <= n.interfaces.len(),
                n == node@,
                out@ == start + interface_items(n.interfaces.take(i as int)),
            decreases n.interfaces.len() - i,
        {
            let interface = &node.interfaces[i];
            assert(interface@ == n.interfaces[i as int]);
            assert(n.interfaces.take(i + 1).drop_last() =~= n.interfaces.take(i as int));
            let ghost prior = out@;
            out.append("\n- `");
            out.append(interface.name.as_str());
            out.append("` — ");
            out.append(interface.protocol.label());
            out.append(" v");
            out.append(interface.version.as_str());
            assert(out@ =~= prior + "\n- `"@ + interface@.name + "` — "@ + protocol_label(interface.protocol) + " v"@ + interface@.version);
            i = i + 1;
        }
        assert(n.interfaces.take(i as int) =~= n.interfaces);
    }
    let ghost middle = out@;
    if node.controls.len() > 0 {
        out.append("\n\n**Controls**");
        let ghost start = out@;
        let mut j: usize = 0;
        while j < node.controls.len()
            invariant
                j <= n.controls.len(),
                n == node@,
                out@ == start + control_items(n.controls.take(j as int)),
            decreases n.controls.len() - j,
        {
            let control = &node.controls[j];
            assert(control@ == n.controls[j as int]);
            assert(n.controls.take(j + 1).drop_last() =~= n.controls.take(j as int));
            let ghost prior = out@;
            out.append("\n- `");
            out.append(control.standard.as_str());
            out.append("` (");
            out.append(control.control_type.label());
            out.append(") — ");
            out.append(control.description.as_str());
            if control.evidence_required {
                out.append(" *(evidence required)*");
            }
            assert(out@ =~= prior + "\n- `"@ + control@.standard + "` ("@ + control_type_label(control.control_type) + ") — "@
                + control@.description + if control.evidence_required {
                " *(evidence required)*"@
            } else {
                Seq::<char>::empty()
            });
            j = j + 1;
        }
        assert(n.controls.take(j as int) =~= n.controls);
    }
    let ghost before_edges = out@;
    append_edges(&mut out, architecture, node);
    assert(out@ =~= resolved_node_text(a, n));
    out
}

/// What is known of the node called `name`: the full picture when the
/// document parses and declares it, otherwise what the index scraped.
pub open spec fn node_text(ix: IndexV, architecture: Option<ArchitectureV>, name: Seq<char>) -> Seq<char> {
    match architecture {
        Some(a) => match node_named(a.nodes, name) {
            Some(n) => resolved_node_text(a, n),
            None => describe_node_spec(ix, name),
        },
        None => describe_node_spec(ix, name),
    }
}

/// Describes the node called `name`, degrading to what the index knows when
/// the architecture is unavailable or lacks it.
pub fn describe_node(index: &DocumentIndex, architecture: Option<&Architecture>, name: &str) -> (s: String)
    ensures
        s@ == node_text(index@, match architecture {
            Some(a) => Some(a@),
            None => None,
        }, name@),
{
    match architecture {
        Some(arch) => match arch.node_by_name(name) {
            Some(node) => describe_resolved_node(arch, node),
            None => describe_indexed_node(index, name),
        },
        None => describe_indexed_node(index, name),
    }
}

/// Whether a pattern is referred to as `reference`.
pub open spec fn referred_as(reference: Seq<char>) -> spec_fn(PatternV) -> bool {
    |p: PatternV| reference_of(p) == reference
}

/// One list line per role.
pub open spec fn role_items(requirements: Seq<RequirementV>) -> Seq<char>
    decreases requirements.len(),
{
    if requirements.len() == 0 {
        Seq::empty()
    } else {
        let r = requirements.last();
        role_items(requirements.drop_last()) + "\n- `"@ + r.role + "` — a "@ + node_type_label(r.node_type)
    }
}

/// One list line per required relationship.
pub open spec fn required_items(relationships: Seq<RequiredRelationshipV>) -> Seq<char>
    decreases relationships.len(),
{
    if relationships.len() == 0 {
        Seq::empty()
    } else {
        let r = relationships.last();
        required_items(relationships.drop_last()) + "\n- `"@ + r.source + "` → `"@ + r.target + "` ("@
            + relationship_type_label(r.relationship_type) + ")"@
    }
}

/// A claimed pattern described from the library: its name and version, its
/// description, its roles and its required relationships; or, when the
/// library has no pattern referred to as `reference`, that the claim is
/// unchecked and how to fix that.
pub open spec fn pattern_text(patterns: Seq<PatternV>, reference: Seq<char>) -> Seq<char> {
    let k = first_match(patterns, referred_as(reference));
    if k < patterns.len() {
        let p = patterns[k];
        "**"@ + p.name + "** — _v"@ + p.version + "_"@ + match p.description {
            Some(d) => "\n\n"@ + d,
            None => Seq::empty(),
        } + "\n\n**Roles**"@ + role_items(p.requirements) + if p.relationships.len() > 0 {
            "\n\n**Required relationships**"@ + required_items(p.relationships)
        } else {
            Seq::empty()
        }
    } else {
        "`"@ + reference
            + "` is not in the loaded pattern library, so this claim is **unchecked**.\n\nPoint the server at a library with the `casm.patterns` setting, or check the reference for a typo."@
    }
}

/// The index of the first pattern referred to as `reference`, or the
/// number of patterns when none is.
fn find_pattern(patterns: &[Pattern], reference: &str) -> (k: usize)
    ensures
        k == first_match(patterns@.map_values(|p: Pattern| p@), referred_as(reference@)),
{
    let ghost ps = patterns@.map_values(|p: Pattern| p@);
    let mut k: usize = 0;
    while k < patterns.len()
        invariant
            k <= patterns@.len(),
            ps == patterns@.map_values(|p: Pattern| p@),
            forall|j: int| 0 <= j < k ==> !referred_as(reference@)(#[trigger] ps[j]),
        decreases patterns@.len() - k,
    {
        assert(ps[k as int] == patterns@[k as int]@);
        if str_eq(patterns[k].reference().as_str(), reference) {
            proof {
                lemma_first_match_is(ps, referred_as(reference@), k as int);
            }
            return k;
        }
        k = k + 1;
    }
    proof {
        lemma_first_match_is(ps, referred_as(reference@), k as int);
    }
    k
}

/// Describes a claimed pattern from the library, or says plainly that the
/// library does not hold it, which is the answer the author needs.
pub fn describe_pattern(patterns: &[Pattern], reference: &str) -> (s: String)
    ensures
        s@ == pattern_text(patterns@.map_values(|p: Pattern| p@), reference@),
{
    let ghost ps = patterns@.map_values(|p: Pattern| p@);
    let k = find_pattern(patterns, reference);
    proof {
        crate::seqs::lemma_first_match(ps, referred_as(reference@));
    }
    if k == patterns.len() {
        let s = concat_strs(
            &[
                "`",
                reference,
                "` is not in the loaded pattern library, so this claim is **unchecked**.\n\nPoint the server at a library with the `casm.patterns` setting, or check the reference for a typo.",
            ],
        );
        proof {
            reveal_with_fuel(joined, 4);
        }
        return s;
    }
    let pattern = &patterns[k];
    let ghost p = pattern@;
    assert(p == ps[k as int]);
    let mut out = owned("**");
    out.append(pattern.name.as_str());
    out.append("** — _v");
    out.append(pattern.version.as_str());
    out.append("_");
    if let Some(description) = &pattern.description {
        out.append("\n\n");
        out.append(description.as_str());
    }
    out.append("\n\n**Roles**");
    let ghost start = out@;
    let mut i: usize = 0;
    while i < pattern.requirements.len()
        invariant
            i <= p.requirements.len(),
            p == pattern@,
            out@ == start + role_items(p.requirements.take(i as int)),
        decreases p.requirements.len() - i,
    {
        let requirement = &pattern.requirements[i];
        assert(requirement@ == p.requirements[i as int]);
        assert(p.requirements.take(i + 1).drop_last() =~= p.requirements.take(i as int));
        let ghost prior = out@;
        out.append("\n- `");
        out.append(requirement.role.as_str());
        out.append("` — a ");
        out.append(requirement.node_type.label());
        assert(out@ =~= prior + "\n- `"@ + requirement@.role + "` — a "@ + node_type_label(requirement.node_type));
        i = i + 1;
    }
    assert(p.requirements.take(i as int) =~= p.requirements);
    let ghost middle = out@;
    if pattern.relationships.len() > 0 {
        out.append("\n\n**Required relationships**");
        let ghost head = out@;
        let mut j: usize = 0;
        while j < pattern.relationships.len()
            invariant
                j <= p.relationships.len(),
                p == pattern@,
                out@ == head + required_items(p.relationships.take(j as int)),
            decreases p.relationships.len() - j,
        {
            let required = &pattern.relationships[j];
            assert(required@ == p.relationships[j as int]);
            assert(p.relationships.take(j + 1).drop_last() =~= p.relationships.take(j as int));
            let ghost prior = out@;
            out.append("\n- `");
            out.append(required.source.as_str());
            out.append("` → `");
            out.append(required.target.as_str());
            out.append("` (");
            out.append(required.relationship_type.label());
            out.append(")");
            assert(out@ =~= prior + "\n- `"@ + required@.source + "` → `"@ + required@.target + "` ("@
                + relationship_type_label(required.relationship_type) + ")"@);
            j = j + 1;
        }
        assert(p.relationships.take(j as int) =~= p.relationships);
    }
    assert(out@ =~= pattern_text(ps, reference@));
    out
}

/// The view of an optional architecture.
pub open spec fn arch_view(architecture: Option<&Architecture>) -> Option<ArchitectureV> {
    match architecture {
        Some(a) => Some(a@),
        None => None,
    }
}

/// The tooltip for a symbol.
pub open spec fn describe_symbol_spec(ix: IndexV, architecture: Option<ArchitectureV>, s: SymbolV) -> Seq<char> {
    match s.kind {
        SymbolKind::NodeDefinition | SymbolKind::NodeReference(_) => node_text(ix, architecture, s.text),
        SymbolKind::NodeTypeValue => describe_term_spec(node_types_spec(), s.text, "node type"@),
        SymbolKind::RelationshipTypeValue => describe_term_spec(
            relationship_types_spec(),
            s.text,
            "relationship type"@,
        ),
        SymbolKind::ControlTypeValue => describe_term_spec(control_types_spec(), s.text, "control type"@),
        SymbolKind::ProtocolValue => describe_protocol_spec(s.text),
    }
}

/// Renders the tooltip for a symbol.
fn describe_symbol(index: &DocumentIndex, architecture: Option<&Architecture>, symbol: &Symbol) -> (s: String)
    ensures
        s@ == describe_symbol_spec(index@, arch_view(architecture), symbol@),
{
    match symbol.kind {
        SymbolKind::NodeDefinition | SymbolKind::NodeReference(_) => describe_node(
            index,
            architecture,
            symbol.text.as_str(),
        ),
        SymbolKind::NodeTypeValue => describe_term(node_types(), symbol.text.as_str(), "node type"),
        SymbolKind::RelationshipTypeValue => describe_term(
            relationship_types(),
            symbol.text.as_str(),
            "relationship type",
        ),
        SymbolKind::ControlTypeValue => describe_term(
            control_types(),
            symbol.text.as_str(),
            "control type",
        ),
        SymbolKind::ProtocolValue => describe_protocol(symbol.text.as_str()),
    }
}

/// The tooltip at `position`: the symbol there, else the key there.
pub open spec fn hover_spec(ix: IndexV, architecture: Option<ArchitectureV>, position: Position) -> Option<HoverV> {
    let k = first_match(ix.symbols, under_pred(position));
    if k < ix.symbols.len() {
        Some(HoverV { markdown: describe_symbol_spec(ix, architecture, ix.symbols[k]), span: ix.symbols[k].span })
    } else if position.line >= ix.lines.len() {
        None
    } else {
        let line = ix.lines[position.line as int];
        match (line.key_span, line.key) {
            (Some(span), Some(key)) => if span.spec_contains(position) {
                let terms = key_table_spec(line.section, line.block);
                let t = first_match(terms, labelled(key));
                if t < terms.len() {
                    Some(HoverV { markdown: term_markdown(terms[t]), span })
                } else {
                    None
                }
            } else {
                None
            },
            _ => None,
        }
    }
}

/// Produces a tooltip for `position`, if anything there can be explained.
/// `architecture` is the last successful parse of the document, when there
/// is one.
pub fn hover(index: &DocumentIndex, architecture: Option<&Architecture>, position: Position) -> (r: Option<Hover>)
    ensures
        match r {
            Some(h) => hover_spec(index@, arch_view(architecture), position) == Some(h@),
            None => hover_spec(index@, arch_view(architecture), position) is None,
        },
{
    if let Some(symbol) = index.symbol_at(position) {
        return Some(Hover { markdown: describe_symbol(index, architecture, symbol), span: symbol.span });
    }
    let line = match index.line(position.line) {
        Some(l) => l,
        None => {
            return None;
        },
    };
    let span = match line.key_span {
        Some(s) => s,
        None => {
            return None;
        },
    };
    if !span.contains(position) {
        return None;
    }
    let key = match &line.key {
        Some(k) => k,
        None => {
            return None;
        },
    };
    match find(key_table(line.section, line.block), key.as_str()) {
        Some(term) => Some(Hover { markdown: term.to_markdown(), span }),
        None => None,
    }
}

/// Some relationship of `rels` arrives at `id` (`incoming`) or leaves it
/// exactly when the count of those that do is not zero.
proof fn lemma_meeting_count_positive(rels: Seq<RelationshipV>, id: NodeId, incoming: bool)
    ensures
        meeting_count(rels, id, incoming) > 0 <==> exists|i: int| 0 <= i < rels.len() && meets(#[trigger] rels[i], id, incoming),
    decreases rels.len(),
{
    if rels.len() > 0 {
        lemma_meeting_count_positive(rels.drop_last(), id, incoming);
        if exists|i: int| 0 <= i < rels.len() && meets(#[trigger] rels[i], id, incoming) {
            let i = choose|i: int| 0 <= i < rels.len() && meets(#[trigger] rels[i], id, incoming);
            if i < rels.len() - 1 {
                assert(rels.drop_last()[i] == rels[i]);
            }
        }
        if exists|i: int| 0 <= i < rels.drop_last().len() && meets(#[trigger] rels.drop_last()[i], id, incoming) {
            let i = choose|i: int| 0 <= i < rels.drop_last().len() && meets(#[trigger] rels.drop_last()[i], id, incoming);
            assert(rels[i] == rels.drop_last()[i]);
        }
    }
}

/// A node that some relationship targets is described with a closing
/// `**Called by**` section listing every relationship that arrives at it,
/// whatever it calls itself; a node that no relationship targets has no
/// such section, its edges then being only what it calls.
pub proof fn law_callers_are_always_listed(a: ArchitectureV, n: NodeV)
    ensures
        (exists|i: int| 0 <= i < a.relationships.len() && (#[trigger] a.relationships[i]).target == n.id) ==> exists|
            head: Seq<char>,
        |
            resolved_node_text(a, n) == head + "\n\n**Called by**"@ + edge_lines(a, a.relationships, n.id, true),
        (forall|i: int| 0 <= i < a.relationships.len() ==> (#[trigger] a.relationships[i]).target != n.id)
            ==> edges_text(a, n.id) == (if exists|i: int|
            0 <= i < a.relationships.len() && (#[trigger] a.relationships[i]).source == n.id {
            "\n\n**Calls**"@ + edge_lines(a, a.relationships, n.id, false)
        } else {
            Seq::empty()
        }),
{
    lemma_meeting_count_positive(a.relationships, n.id, true);
    lemma_meeting_count_positive(a.relationships, n.id, false);
    let text = resolved_node_text(a, n);
    if exists|i: int| 0 <= i < a.relationships.len() && (#[trigger] a.relationships[i]).target == n.id {
        let i = choose|i: int| 0 <= i < a.relationships.len() && (#[trigger] a.relationships[i]).target == n.id;
        assert(meets(a.relationships[i], n.id, true));
        let called = "\n\n**Called by**"@ + edge_lines(a, a.relationships, n.id, true);
        let head = text.take(text.len() - called.len());
        assert(text =~= head + "\n\n**Called by**"@ + edge_lines(a, a.relationships, n.id, true));
    }
    if forall|i: int| 0 <= i < a.relationships.len() ==> (#[trigger] a.relationships[i]).target != n.id {
        assert forall|i: int| 0 <= i < a.relationships.len() implies !meets(#[trigger] a.relationships[i], n.id, true) by {}
        if exists|i: int| 0 <= i < a.relationships.len() && (#[trigger] a.relationships[i]).source == n.id {
            let i = choose|i: int| 0 <= i < a.relationships.len() && (#[trigger] a.relationships[i]).source == n.id;
            assert(meets(a.relationships[i], n.id, false));
        } else {
            assert forall|i: int| 0 <= i < a.relationships.len() implies !meets(#[trigger] a.relationships[i], n.id, false) by {}
        }
        assert(edges_text(a, n.id) =~= (if exists|i: int|
            0 <= i < a.relationships.len() && (#[trigger] a.relationships[i]).source == n.id {
            "\n\n**Calls**"@ + edge_lines(a, a.relationships, n.id, false)
        } else {
            Seq::empty()
        }));
    }
}

} // verus!
