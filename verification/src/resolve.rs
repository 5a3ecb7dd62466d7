//! Resolving the node references a document writes: a relationship's
//! endpoints and a pattern claim's bindings name nodes either by name or by
//! identifier. A reference that resolves to neither is an error carrying a
//! "did you mean" hint.
use vstd::prelude::*;

use crate::architecture::{
    display_name, node_named, node_with_id, Architecture, ArchitectureV, Control, ControlV, Node,
    NodeV, Protocol, Relationship, RelationshipType, RelationshipV,
};
use crate::chars::{owned, str_eq};
use crate::diagnostic::NodeId;
use crate::error::ParseError;
use crate::fmt::{uuid_string, uuid_text};
use crate::suggest::{closest, closest_of, did_you_mean};

verus! {

/// A relationship as an author writes it: endpoints by name or identifier.
#[derive(Clone, Debug, PartialEq, Eq)]
pub struct RelationshipDoc {
    /// The originating node, by name or by identifier.
    pub source: String,
    /// The receiving node, by name or by identifier.
    pub target: String,
    /// The edge semantics.
    pub relationship_type: RelationshipType,
    /// The wire protocol carrying the relationship.
    pub protocol: Option<Protocol>,
    /// The single-hop latency budget in milliseconds.
    pub latency_budget_ms: Option<u64>,
    /// Controls governing the edge.
    pub controls: Vec<Control>,
}

/// The model of a [`RelationshipDoc`].
pub struct RelationshipDocV {
    pub source: Seq<char>,
    pub target: Seq<char>,
    pub relationship_type: RelationshipType,
    pub protocol: Option<Protocol>,
    pub latency_budget_ms: Option<u64>,
    pub controls: Seq<ControlV>,
}

impl View for RelationshipDoc {
    type V = RelationshipDocV;

    open spec fn view(&self) -> RelationshipDocV {
        RelationshipDocV {
            source: self.source@,
            target: self.target@,
            relationship_type: self.relationship_type,
            protocol: self.protocol,
            latency_budget_ms: self.latency_budget_ms,
            controls: self.controls@.map_values(|c: Control| c@),
        }
    }
}

/// The first node whose identifier, written as a UUID, is `reference`.
pub open spec fn node_with_id_text(nodes: Seq<NodeV>, reference: Seq<char>) -> Option<NodeV>
    decreases nodes.len(),
{
    if nodes.len() == 0 {
        None
    } else if uuid_text(nodes[0].id.0) == reference {
        Some(nodes[0])
    } else {
        node_with_id_text(nodes.drop_first(), reference)
    }
}

/// What a reference resolves to: the node of that name, else the node whose
/// identifier it writes. Names are tried first; they are the common case.
pub open spec fn lookup_spec(nodes: Seq<NodeV>, reference: Seq<char>) -> Option<NodeId> {
    match node_named(nodes, reference) {
        Some(n) => Some(n.id),
        None => match node_with_id_text(nodes, reference) {
            Some(n) => Some(n.id),
            None => None,
        },
    }
}

/// The "did you mean" hint for an unresolvable reference: the nearest
/// declared name, when one is close enough.
pub open spec fn hint_spec(nodes: Seq<NodeV>, reference: Seq<char>) -> Option<Seq<char>> {
    match closest_of(reference, nodes.map_values(|n: NodeV| n.name)) {
        Some(c) => Some("did you mean `"@ + c + "`?"@),
        None => None,
    }
}

/// The views of `nodes`.
pub open spec fn node_views(nodes: Seq<Node>) -> Seq<NodeV> {
    nodes.map_values(|n: Node| n@)
}

/// The node `reference` names: by name first, else by identifier written as
/// a UUID.
pub fn lookup(nodes: &[Node], reference: &str) -> (r: Option<NodeId>)
    ensures
        r == lookup_spec(node_views(nodes@), reference@),
{
    let ghost all = node_views(nodes@);
    assert(all.skip(0) =~= all);
    let mut i: usize = 0;
    while i < nodes.len()
        invariant
            i <= nodes@.len(),
            all == node_views(nodes@),
            node_named(all, reference@) == node_named(all.skip(i as int), reference@),
        decreases nodes@.len() - i,
    {
        assert(all.skip(i as int)[0] == nodes@[i as int]@);
        if str_eq(nodes[i].name.as_str(), reference) {
            return Some(nodes[i].id);
        }
        assert(all.skip(i as int).drop_first() =~= all.skip(i + 1));
        i = i + 1;
    }
    assert(all.skip(i as int) =~= Seq::<NodeV>::empty());
    let mut j: usize = 0;
    while j < nodes.len()
        invariant
            j <= nodes@.len(),
            all == node_views(nodes@),
            node_named(all, reference@) is None,
            node_with_id_text(all, reference@) == node_with_id_text(all.skip(j as int), reference@),
        decreases nodes@.len() - j,
    {
        assert(all.skip(j as int)[0] == nodes@[j as int]@);
        let text = uuid_string(nodes[j].id.0);
        if str_eq(text.as_str(), reference) {
            return Some(nodes[j].id);
        }
        assert(all.skip(j as int).drop_first() =~= all.skip(j + 1));
        j = j + 1;
    }
    assert(all.skip(j as int) =~= Seq::<NodeV>::empty());
    None
}

/// The "did you mean" hint for `reference`.
pub fn hint(nodes: &[Node], reference: &str) -> (r: Option<String>)
    ensures
        match r {
            Some(s) => hint_spec(node_views(nodes@), reference@) == Some(s@),
            None => hint_spec(node_views(nodes@), reference@) is None,
        },
{
    let ghost ns = node_views(nodes@).map_values(|n: NodeV| n.name);
    let mut names: Vec<&str> = Vec::new();
    let mut i: usize = 0;
    while i < nodes.len()
        invariant
            i <= nodes@.len(),
            ns == node_views(nodes@).map_values(|n: NodeV| n.name),
            ns.len() == nodes@.len(),
            names@.map_values(|c: &str| c@) =~= ns.take(i as int),
        decreases nodes@.len() - i,
    {
        assert(ns[i as int] == nodes@[i as int].name@);
        names.push(nodes[i].name.as_str());
        assert(ns.take(i + 1) =~= ns.take(i as int).push(ns[i as int]));
        i = i + 1;
    }
    assert(ns.take(nodes@.len() as int) =~= ns);
    match closest(reference, names.as_slice()) {
        Some(c) => Some(did_you_mean(c)),
        None => None,
    }
}

/// What resolving a relationship endpoint gives: the node, or an error naming
/// the file, the endpoint, the reference and the hint.
pub open spec fn endpoint_ok(
    nodes: Seq<NodeV>,
    path: Seq<char>,
    reference: Seq<char>,
    endpoint: Seq<char>,
    r: Result<NodeId, ParseError>,
) -> bool {
    match lookup_spec(nodes, reference) {
        Some(id) => r == Ok::<NodeId, ParseError>(id),
        None => r matches Err(ParseError::UnresolvedReference { path: p, endpoint: e, reference: x, suggestion: s })
            && p@ == path && e@ == endpoint && x@ == reference && opt_text(s) == hint_spec(nodes, reference),
    }
}

/// The text of an optional string.
pub open spec fn opt_text(s: Option<String>) -> Option<Seq<char>> {
    match s {
        Some(s) => Some(s@),
        None => None,
    }
}

/// Resolves a relationship endpoint written as a name or an identifier.
pub fn resolve_endpoint(path: &str, nodes: &[Node], reference: &str, endpoint: &'static str) -> (r: Result<NodeId, ParseError>)
    ensures
        endpoint_ok(node_views(nodes@), path@, reference@, endpoint@, r),
{
    match lookup(nodes, reference) {
        Some(id) => Ok(id),
        None => Err(
            ParseError::UnresolvedReference {
                path: owned(path),
                endpoint,
                reference: owned(reference),
                suggestion: hint(nodes, reference),
            },
        ),
    }
}

/// Resolves a node bound to a role of a claimed pattern. A distinct error
/// from an unresolved endpoint, because the fix is distinct: the claim points
/// at a node that is not there.
pub fn resolve_binding(path: &str, nodes: &[Node], reference: &str, pattern: &str, role: &str) -> (r: Result<NodeId, ParseError>)
    ensures
        match lookup_spec(node_views(nodes@), reference@) {
            Some(id) => r == Ok::<NodeId, ParseError>(id),
            None => r matches Err(ParseError::UnresolvedBinding { path: p, pattern: q, role: o, reference: x, suggestion: s })
                && p@ == path@ && q@ == pattern@ && o@ == role@ && x@ == reference@
                && opt_text(s) == hint_spec(node_views(nodes@), reference@),
        },
{
    match lookup(nodes, reference) {
        Some(id) => Ok(id),
        None => Err(
            ParseError::UnresolvedBinding {
                path: owned(path),
                pattern: owned(pattern),
                role: owned(role),
                reference: owned(reference),
                suggestion: hint(nodes, reference),
            },
        ),
    }
}

/// The relationship a document fragment describes, between the nodes its
/// endpoints resolve to.
pub open spec fn resolved_relationship(d: RelationshipDocV, source: NodeId, target: NodeId) -> RelationshipV {
    RelationshipV {
        source,
        target,
        relationship_type: d.relationship_type,
        protocol: d.protocol,
        latency_budget_ms: d.latency_budget_ms,
        controls: d.controls,
    }
}

/// Whether every one of `docs` resolves, and `out` holds the relationships
/// they describe, in order.
pub open spec fn all_resolve(nodes: Seq<NodeV>, docs: Seq<RelationshipDocV>, out: Seq<RelationshipV>) -> bool {
    &&& out.len() == docs.len()
    &&& forall|i: int| 0 <= i < docs.len() ==> {
        &&& lookup_spec(nodes, #[trigger] docs[i].source) is Some
        &&& lookup_spec(nodes, docs[i].target) is Some
        &&& out[i] == resolved_relationship(
            docs[i],
            lookup_spec(nodes, docs[i].source).unwrap(),
            lookup_spec(nodes, docs[i].target).unwrap(),
        )
    }
}

/// Whether a document fragment's endpoints both resolve.
pub open spec fn doc_resolves(nodes: Seq<NodeV>, d: RelationshipDocV) -> bool {
    lookup_spec(nodes, d.source) is Some && lookup_spec(nodes, d.target) is Some
}

/// Resolves every relationship, in order, between already-declared nodes, so
/// that a relationship may name a node declared anywhere in the document.
/// The first fragment with an endpoint that resolves to nothing decides the
/// error, its source before its target.
pub fn resolve_relationships(path: &str, nodes: &[Node], docs: &[RelationshipDoc]) -> (r: Result<Vec<Relationship>, ParseError>)
    ensures
        ({
            let ns = node_views(nodes@);
            let ds = docs@.map_values(|d: RelationshipDoc| d@);
            match r {
                Ok(v) => all_resolve(ns, ds, v@.map_values(|x: Relationship| x@)),
                Err(e) => exists|k: int| {
                    &&& 0 <= k < ds.len()
                    &&& forall|j: int| 0 <= j < k ==> doc_resolves(ns, #[trigger] ds[j])
                    &&& !doc_resolves(ns, ds[k])
                    &&& if lookup_spec(ns, ds[k].source) is None {
                        endpoint_ok(ns, path@, ds[k].source, "source"@, Err(e))
                    } else {
                        endpoint_ok(ns, path@, ds[k].target, "target"@, Err(e))
                    }
                },
            }
        }),
{
    let ghost ns = node_views(nodes@);
    let ghost ds = docs@.map_values(|d: RelationshipDoc| d@);
    let mut out: Vec<Relationship> = Vec::new();
    let mut i: usize = 0;
    while i < docs.len()
        invariant
            i <= docs@.len(),
            ns == node_views(nodes@),
            ds == docs@.map_values(|d: RelationshipDoc| d@),
            all_resolve(ns, ds.take(i as int), out@.map_values(|x: Relationship| x@)),
        decreases docs@.len() - i,
    {
        let doc = &docs[i];
        assert(ds[i as int] == doc@);
        let source = match resolve_endpoint(path, nodes, doc.source.as_str(), "source") {
            Ok(id) => id,
            Err(e) => {
                proof {
                    reveal_strlit("source");
                    assert forall|j: int| 0 <= j < i implies doc_resolves(ns, #[trigger] ds[j]) by {
                        assert(ds.take(i as int)[j] == ds[j]);
                    }
                }
                return Err(e);
            },
        };
        let target = match resolve_endpoint(path, nodes, doc.target.as_str(), "target") {
            Ok(id) => id,
            Err(e) => {
                proof {
                    reveal_strlit("target");
                    assert forall|j: int| 0 <= j < i implies doc_resolves(ns, #[trigger] ds[j]) by {
                        assert(ds.take(i as int)[j] == ds[j]);
                    }
                }
                return Err(e);
            },
        };
        let ghost before = out@.map_values(|x: Relationship| x@);
        let relationship = Relationship {
            source,
            target,
            relationship_type: doc.relationship_type,
            protocol: doc.protocol,
            latency_budget_ms: doc.latency_budget_ms,
            controls: copy_controls(&doc.controls),
        };
        out.push(relationship);
        proof {
            let after = out@.map_values(|x: Relationship| x@);
            assert(after =~= before.push(relationship@));
            assert forall|j: int| 0 <= j < i + 1 implies {
                &&& lookup_spec(ns, #[trigger] ds.take(i + 1)[j].source) is Some
                &&& lookup_spec(ns, ds.take(i + 1)[j].target) is Some
                &&& after[j] == resolved_relationship(
                    ds.take(i + 1)[j],
                    lookup_spec(ns, ds.take(i + 1)[j].source).unwrap(),
                    lookup_spec(ns, ds.take(i + 1)[j].target).unwrap(),
                )
            } by {
                if j < i {
                    assert(ds.take(i + 1)[j] == ds.take(i as int)[j]);
                }
            }
        }
        i = i + 1;
    }
    assert(ds.take(docs@.len() as int) =~= ds);
    Ok(out)
}

/// A copy of `controls`.
/// A copy of a list of texts.
fn copy_strings(v: &Vec<String>) -> (r: Vec<String>)
    ensures
        r@.map_values(|t: String| t@) == v@.map_values(|t: String| t@),
{
    let mut r: Vec<String> = Vec::new();
    let mut i: usize = 0;
    while i < v.len()
        invariant
            i <= v@.len(),
            r@.map_values(|t: String| t@) =~= v@.map_values(|t: String| t@).take(i as int),
        decreases v@.len() - i,
    {
        r.push(owned(v[i].as_str()));
        proof {
            let ts = v@.map_values(|t: String| t@);
            assert(ts.take(i + 1) =~= ts.take(i as int).push(ts[i as int]));
        }
        i = i + 1;
    }
    assert(v@.map_values(|t: String| t@).take(v@.len() as int) =~= v@.map_values(|t: String| t@));
    r
}

pub(crate) fn copy_controls(controls: &Vec<Control>) -> (r: Vec<Control>)
    ensures
        r@.map_values(|c: Control| c@) == controls@.map_values(|c: Control| c@),
{
    let mut r: Vec<Control> = Vec::new();
    let mut i: usize = 0;
    while i < controls.len()
        invariant
            i <= controls@.len(),
            r@.map_values(|c: Control| c@) =~= controls@.map_values(|c: Control| c@).take(i as int),
        decreases controls@.len() - i,
    {
        let c = &controls[i];
        r.push(Control {
            control_type: c.control_type,
            standard: owned(c.standard.as_str()),
            description: owned(c.description.as_str()),
            evidence_required: c.evidence_required,
            tags: copy_strings(&c.tags),
        });
        proof {
            let cs = controls@.map_values(|c: Control| c@);
            assert(cs.take(i + 1) =~= cs.take(i as int).push(cs[i as int]));
        }
        i = i + 1;
    }
    assert(controls@.map_values(|c: Control| c@).take(controls@.len() as int) =~= controls@.map_values(|c: Control| c@));
    r
}

/// A relationship in authoring form: endpoints by name, because that is what
/// an author would have written and what keeps an emitted file reviewable.
pub open spec fn emitted(a: ArchitectureV, r: RelationshipV) -> RelationshipDocV {
    RelationshipDocV {
        source: display_name(a, r.source),
        target: display_name(a, r.target),
        relationship_type: r.relationship_type,
        protocol: r.protocol,
        latency_budget_ms: r.latency_budget_ms,
        controls: r.controls,
    }
}

/// Renders `relationship` back into authoring form, naming its endpoints.
pub fn emit_relationship(architecture: &Architecture, relationship: &Relationship) -> (d: RelationshipDoc)
    ensures
        d@ == emitted(architecture@, relationship@),
{
    RelationshipDoc {
        source: architecture.display_name(relationship.source),
        target: architecture.display_name(relationship.target),
        relationship_type: relationship.relationship_type,
        protocol: relationship.protocol,
        latency_budget_ms: relationship.latency_budget_ms,
        controls: copy_controls(&relationship.controls),
    }
}

/// Every relationship of `architecture` in authoring form, in order.
pub fn emit_relationships(architecture: &Architecture) -> (v: Vec<RelationshipDoc>)
    ensures
        v@.map_values(|d: RelationshipDoc| d@) == architecture@.relationships.map_values(
            |r: RelationshipV| emitted(architecture@, r),
        ),
{
    let ghost want = architecture@.relationships.map_values(|r: RelationshipV| emitted(architecture@, r));
    let mut v: Vec<RelationshipDoc> = Vec::new();
    let mut i: usize = 0;
    while i < architecture.relationships.len()
        invariant
            i <= architecture.relationships@.len(),
            want == architecture@.relationships.map_values(|r: RelationshipV| emitted(architecture@, r)),
            want.len() == architecture.relationships@.len(),
            v@.map_values(|d: RelationshipDoc| d@) =~= want.take(i as int),
        decreases architecture.relationships@.len() - i,
    {
        assert(architecture@.relationships[i as int] == architecture.relationships@[i as int]@);
        let d = emit_relationship(architecture, &architecture.relationships[i]);
        v.push(d);
        assert(want.take(i + 1) =~= want.take(i as int).push(want[i as int]));
        i = i + 1;
    }
    assert(want.take(architecture.relationships@.len() as int) =~= want);
    v
}

/// Whether no two nodes share a name.
pub open spec fn names_unique(nodes: Seq<NodeV>) -> bool {
    forall|i: int, j: int| 0 <= i < j < nodes.len() ==> #[trigger] nodes[i].name != #[trigger] nodes[j].name
}

/// Whether every relationship joins two declared nodes.
pub open spec fn endpoints_declared(a: ArchitectureV) -> bool {
    forall|i: int| 0 <= i < a.relationships.len() ==> {
        &&& node_with_id(a.nodes, #[trigger] a.relationships[i].source) is Some
        &&& node_with_id(a.nodes, a.relationships[i].target) is Some
    }
}

/// With unique names, the node a declared identifier names is the node its
/// name names.
pub proof fn lemma_name_of_id_resolves(nodes: Seq<NodeV>, id: NodeId)
    requires
        names_unique(nodes),
        node_with_id(nodes, id) is Some,
    ensures
        node_named(nodes, node_with_id(nodes, id).unwrap().name) == node_with_id(nodes, id),
    decreases nodes.len(),
{
    if nodes[0].id != id {
        let rest = nodes.drop_first();
        assert forall|i: int, j: int| 0 <= i < j < rest.len() implies #[trigger] rest[i].name != #[trigger] rest[j].name by {
            assert(rest[i] == nodes[i + 1]);
            assert(rest[j] == nodes[j + 1]);
        }
        lemma_name_of_id_resolves(rest, id);
        let n = node_with_id(rest, id).unwrap();
        lemma_node_with_id_in(rest, id);
        let k = choose|k: int| 0 <= k < rest.len() && rest[k] == n;
        assert(nodes[k + 1] == n);
        assert(nodes[0].name != n.name);
    }
}

/// The node found by identifier is one of the nodes.
pub proof fn lemma_node_with_id_in(nodes: Seq<NodeV>, id: NodeId)
    requires
        node_with_id(nodes, id) is Some,
    ensures
        exists|k: int| 0 <= k < nodes.len() && nodes[k] == node_with_id(nodes, id).unwrap() && nodes[k].id == id,
    decreases nodes.len(),
{
    if nodes[0].id != id {
        lemma_node_with_id_in(nodes.drop_first(), id);
        let k = choose|k: int| 0 <= k < nodes.drop_first().len() && nodes.drop_first()[k] == node_with_id(nodes.drop_first(), id).unwrap() && nodes.drop_first()[k].id == id;
        assert(nodes[k + 1] == nodes.drop_first()[k]);
    } else {
        assert(nodes[0] == node_with_id(nodes, id).unwrap());
    }
}

/// Emitting relationships by name and resolving them again gives back the
/// same relationships, when node names are unique and every endpoint is a
/// declared node: `parse → emit → parse` is a fixed point for edges.
pub proof fn law_emitted_relationships_resolve_back(a: ArchitectureV)
    requires
        names_unique(a.nodes),
        endpoints_declared(a),
    ensures
        all_resolve(
            a.nodes,
            a.relationships.map_values(|r: RelationshipV| emitted(a, r)),
            a.relationships,
        ),
{
    let docs = a.relationships.map_values(|r: RelationshipV| emitted(a, r));
    assert forall|i: int| 0 <= i < docs.len() implies {
        &&& lookup_spec(a.nodes, #[trigger] docs[i].source) is Some
        &&& lookup_spec(a.nodes, docs[i].target) is Some
        &&& a.relationships[i] == resolved_relationship(
            docs[i],
            lookup_spec(a.nodes, docs[i].source).unwrap(),
            lookup_spec(a.nodes, docs[i].target).unwrap(),
        )
    } by {
        let r = a.relationships[i];
        lemma_name_of_id_resolves(a.nodes, r.source);
        lemma_name_of_id_resolves(a.nodes, r.target);
        lemma_node_with_id_in(a.nodes, r.source);
        lemma_node_with_id_in(a.nodes, r.target);
    }
}

/// A node found by name is a node carrying its identifier.
proof fn lemma_named_declared(nodes: Seq<NodeV>, name: Seq<char>)
    requires
        node_named(nodes, name) is Some,
    ensures
        node_with_id(nodes, node_named(nodes, name).unwrap().id) is Some,
    decreases nodes.len(),
{
    if nodes[0].name != name {
        lemma_named_declared(nodes.drop_first(), name);
        let id = node_named(nodes, name).unwrap().id;
        if nodes[0].id != id {
            assert(node_with_id(nodes, id) == node_with_id(nodes.drop_first(), id));
        }
    }
}

/// A node found by its identifier's text is a node carrying that identifier.
proof fn lemma_id_text_declared(nodes: Seq<NodeV>, reference: Seq<char>)
    requires
        node_with_id_text(nodes, reference) is Some,
    ensures
        node_with_id(nodes, node_with_id_text(nodes, reference).unwrap().id) is Some,
    decreases nodes.len(),
{
    if uuid_text(nodes[0].id.0) != reference {
        lemma_id_text_declared(nodes.drop_first(), reference);
        let id = node_with_id_text(nodes, reference).unwrap().id;
        if nodes[0].id != id {
            assert(node_with_id(nodes, id) == node_with_id(nodes.drop_first(), id));
        }
    }
}

/// Whatever a reference resolves to is a declared node.
pub proof fn lemma_lookup_declared(nodes: Seq<NodeV>, reference: Seq<char>)
    requires
        lookup_spec(nodes, reference) is Some,
    ensures
        node_with_id(nodes, lookup_spec(nodes, reference).unwrap()) is Some,
{
    if node_named(nodes, reference) is Some {
        lemma_named_declared(nodes, reference);
    } else {
        lemma_id_text_declared(nodes, reference);
    }
}

} // verus!
