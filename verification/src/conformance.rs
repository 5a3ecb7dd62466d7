//! Conformance claims: an architecture saying it has the shape of a pattern.
//! A claim names the pattern by exact version and may bind roles to nodes by
//! hand; the check then holds the architecture to the pattern's roles and
//! required relationships.
use vstd::prelude::*;

use crate::architecture::{
    control_type_label, count_of, display_name, node_type_label, node_with_id, protocol_label, relationship_type_label,
    Architecture, ArchitectureV, Conformance, ConformanceV, ControlType, InterfaceV, Node, NodeType, NodeV, Protocol,
    RelationshipType, RelationshipV,
};
use crate::catalog::{names, PatternRef};
use crate::diagnostic::{Diagnostic, DiagnosticV};
use crate::fmt::{decimal, decimal_string};
use crate::pattern::{Pattern, PatternV, RequiredRelationship, RequiredRelationshipV, Requirement, RequirementV};
use crate::rules::{check_claim, claim_subject, pattern_views, unavailable_finding, unmet, unmet_finding, ClaimCheck};
use crate::seqs::{first_match, lemma_first_match_is};
use crate::chars::{chars_of, concat_strs, joined, owned, str_eq, string_from_chars, sub_chars};
use crate::document::semantic_error;
use crate::error::ParseError;
use crate::resolve::{
    hint_spec, lemma_name_of_id_resolves, lemma_node_with_id_in, lookup_spec, names_unique, node_views, opt_text,
    resolve_binding,
};
use crate::semver::{is_semver, is_semver_exec};
use crate::words::{find_char, first_index_of, lemma_first_index_of};
use crate::diagnostic::NodeId;

verus! {

/// A claim as an author writes it: `pattern` as `name@version`, and roles
/// bound by hand to nodes named by name or identifier, in role order.
#[derive(Clone, Debug, PartialEq, Eq)]
pub struct ConformanceDocModel {
    /// The pattern claimed, as `name@version`.
    pub pattern: String,
    /// Role-to-node bindings.
    pub bindings: Vec<(String, String)>,
}

/// The model of a [`ConformanceDocModel`].
pub struct ConformanceDocV {
    pub pattern: Seq<char>,
    pub bindings: Seq<(Seq<char>, Seq<char>)>,
}

impl View for ConformanceDocModel {
    type V = ConformanceDocV;

    open spec fn view(&self) -> ConformanceDocV {
        ConformanceDocV {
            pattern: self.pattern@,
            bindings: self.bindings@.map_values(|b: (String, String)| (b.0@, b.1@)),
        }
    }
}

/// The name and version a reference `name@version` writes: the name before
/// the first `@`, not empty, and a semantic version after it.
pub open spec fn pattern_ref_spec(text: Seq<char>) -> Option<(Seq<char>, Seq<char>)> {
    let at = first_index_of(text, '@', 0);
    if at < text.len() && at > 0 && is_semver(text.skip(at + 1)) {
        Some((text.take(at), text.skip(at + 1)))
    } else {
        None
    }
}

/// The message for a reference that is not `name@version`.
pub open spec fn bad_reference_message(text: Seq<char>) -> Seq<char> {
    "'"@ + text + "' is not a pattern reference: expected 'name@version' with a semantic version"@
}

/// The suggestion for a reference that is not `name@version`.
pub open spec fn bad_reference_suggestion() -> Seq<char> {
    "a pattern is claimed by exact version, as 'name@1.2.3'"@
}

/// Reads a reference written as `name@version`.
pub fn parse_pattern_ref(text: &str) -> (r: Option<(String, String)>)
    ensures
        match r {
            Some((n, v)) => pattern_ref_spec(text@) == Some((n@, v@)),
            None => pattern_ref_spec(text@) is None,
        },
{
    let cs = chars_of(text);
    let at = find_char(cs.as_slice(), '@', 0);
    proof {
        lemma_first_index_of(cs@, '@', 0);
    }
    if at == 0 || at >= cs.len() {
        return None;
    }
    let version = sub_chars(cs.as_slice(), at + 1, cs.len());
    assert(version@ =~= cs@.skip(at + 1));
    if !is_semver_exec(version.as_slice()) {
        return None;
    }
    let name = sub_chars(cs.as_slice(), 0, at);
    assert(name@ =~= cs@.take(at as int));
    Some((string_from_chars(name.as_slice()), string_from_chars(version.as_slice())))
}

/// Whether a binding's node reference resolves among `nodes`.
pub open spec fn binding_resolves(nodes: Seq<NodeV>, b: (Seq<char>, Seq<char>)) -> bool {
    lookup_spec(nodes, b.1) is Some
}

/// Whether a claim resolves: its reference is well formed and every binding
/// names a node.
pub open spec fn claim_resolves(nodes: Seq<NodeV>, c: ConformanceDocV) -> bool {
    &&& pattern_ref_spec(c.pattern) is Some
    &&& forall|i: int| 0 <= i < c.bindings.len() ==> binding_resolves(nodes, #[trigger] c.bindings[i])
}

/// The claim a resolving claim stands for.
pub open spec fn resolved_claim(nodes: Seq<NodeV>, c: ConformanceDocV) -> ConformanceV {
    ConformanceV {
        pattern_name: pattern_ref_spec(c.pattern).unwrap().0,
        pattern_version: pattern_ref_spec(c.pattern).unwrap().1,
        bindings: c.bindings.map_values(|b: (Seq<char>, Seq<char>)| (b.0, lookup_spec(nodes, b.1).unwrap())),
    }
}

/// Whether `e` is the error resolving claim `c` gives: a malformed
/// reference first, else the first binding that names no node.
pub open spec fn claim_error(nodes: Seq<NodeV>, path: Seq<char>, c: ConformanceDocV, e: ParseError) -> bool {
    if pattern_ref_spec(c.pattern) is None {
        semantic_error(e, path, bad_reference_message(c.pattern), Some(bad_reference_suggestion()))
    } else {
        exists|k: int| {
            &&& 0 <= k < c.bindings.len()
            &&& forall|j: int| 0 <= j < k ==> binding_resolves(nodes, #[trigger] c.bindings[j])
            &&& !binding_resolves(nodes, c.bindings[k])
            &&& e matches ParseError::UnresolvedBinding { path: p, pattern: q, role: o, reference: x, suggestion: s }
            &&& p@ == path && q@ == c.pattern && o@ == c.bindings[k].0 && x@ == c.bindings[k].1
            &&& opt_text(s) == hint_spec(nodes, c.bindings[k].1)
        }
    }
}

/// Resolves one claim against the resolved nodes.
pub fn resolve_claim(path: &str, nodes: &[Node], doc: &ConformanceDocModel) -> (r: Result<Conformance, ParseError>)
    ensures
        match r {
            Ok(c) => claim_resolves(node_views(nodes@), doc@) && c@ == resolved_claim(node_views(nodes@), doc@),
            Err(e) => !claim_resolves(node_views(nodes@), doc@) && claim_error(node_views(nodes@), path@, doc@, e),
        },
{
    let ghost ns = node_views(nodes@);
    let ghost c = doc@;
    let (name, version) = match parse_pattern_ref(doc.pattern.as_str()) {
        Some(p) => p,
        None => {
            let message = concat_strs(
                &[
                    "'",
                    doc.pattern.as_str(),
                    "' is not a pattern reference: expected 'name@version' with a semantic version",
                ],
            );
            proof {
                reveal_with_fuel(joined, 4);
            }
            return Err(
                ParseError::Semantic {
                    path: owned(path),
                    message,
                    suggestion: Some(owned("a pattern is claimed by exact version, as 'name@1.2.3'")),
                },
            );
        },
    };
    let ghost want = resolved_claim(ns, c).bindings;
    let mut bindings: Vec<(String, NodeId)> = Vec::new();
    let mut i: usize = 0;
    while i < doc.bindings.len()
        invariant
            i <= doc.bindings@.len(),
            ns == node_views(nodes@),
            c == doc@,
            c.bindings.len() == doc.bindings@.len(),
            want == resolved_claim(ns, c).bindings,
            pattern_ref_spec(c.pattern) == Some((name@, version@)),
            forall|j: int| 0 <= j < i ==> binding_resolves(ns, #[trigger] c.bindings[j]),
            bindings@.map_values(|b: (String, NodeId)| (b.0@, b.1)) =~= want.take(i as int),
        decreases doc.bindings.len() - i,
    {
        let (role, reference) = &doc.bindings[i];
        assert(c.bindings[i as int] == (role@, reference@));
        match resolve_binding(path, nodes, reference.as_str(), doc.pattern.as_str(), role.as_str()) {
            Ok(id) => {
                bindings.push((owned(role.as_str()), id));
                assert(want.take(i + 1) =~= want.take(i as int).push(want[i as int]));
            },
            Err(e) => {
                assert(!binding_resolves(ns, c.bindings[i as int]));
                assert(pattern_ref_spec(c.pattern) is Some);
                assert({
                    let k = i as int;
                    &&& 0 <= k < c.bindings.len()
                    &&& forall|j: int| 0 <= j < k ==> binding_resolves(ns, #[trigger] c.bindings[j])
                    &&& !binding_resolves(ns, c.bindings[k])
                    &&& e matches ParseError::UnresolvedBinding { path: p, pattern: q, role: o, reference: x, suggestion: s }
                    &&& p@ == path@ && q@ == c.pattern && o@ == c.bindings[k].0 && x@ == c.bindings[k].1
                    &&& opt_text(s) == hint_spec(ns, c.bindings[k].1)
                });
                return Err(e);
            },
        }
        i = i + 1;
    }
    assert(want.take(doc.bindings@.len() as int) =~= want);
    let claim = Conformance { pattern_name: name, pattern_version: version, bindings };
    assert(claim@.bindings =~= want);
    Ok(claim)
}

/// Whether every claim resolves.
pub open spec fn all_claims_resolve(nodes: Seq<NodeV>, cs: Seq<ConformanceDocV>) -> bool {
    forall|i: int| 0 <= i < cs.len() ==> claim_resolves(nodes, #[trigger] cs[i])
}

/// The claims of a document, every one resolving.
pub open spec fn resolved_claims(nodes: Seq<NodeV>, cs: Seq<ConformanceDocV>) -> Seq<ConformanceV> {
    cs.map_values(|c: ConformanceDocV| resolved_claim(nodes, c))
}

/// Whether `e` is the error of the first claim that does not resolve.
pub open spec fn claims_error(nodes: Seq<NodeV>, path: Seq<char>, cs: Seq<ConformanceDocV>, e: ParseError) -> bool {
    exists|k: int| {
        &&& 0 <= k < cs.len()
        &&& forall|j: int| 0 <= j < k ==> claim_resolves(nodes, #[trigger] cs[j])
        &&& !claim_resolves(nodes, cs[k])
        &&& claim_error(nodes, path, cs[k], e)
    }
}

/// Resolves a document's claims in order, stopping at the first that fails.
pub fn resolve_claims(path: &str, nodes: &[Node], docs: &[ConformanceDocModel]) -> (r: Result<Vec<Conformance>, ParseError>)
    ensures
        ({
            let ns = node_views(nodes@);
            let cs = docs@.map_values(|c: ConformanceDocModel| c@);
            match r {
                Ok(v) => all_claims_resolve(ns, cs) && v@.map_values(|c: Conformance| c@) == resolved_claims(ns, cs),
                Err(e) => !all_claims_resolve(ns, cs) && claims_error(ns, path@, cs, e),
            }
        }),
{
    let ghost ns = node_views(nodes@);
    let ghost cs = docs@.map_values(|c: ConformanceDocModel| c@);
    let mut out: Vec<Conformance> = Vec::new();
    let mut i: usize = 0;
    while i < docs.len()
        invariant
            i <= docs@.len(),
            ns == node_views(nodes@),
            cs == docs@.map_values(|c: ConformanceDocModel| c@),
            forall|j: int| 0 <= j < i ==> claim_resolves(ns, #[trigger] cs[j]),
            out@.map_values(|c: Conformance| c@) =~= resolved_claims(ns, cs).take(i as int),
        decreases docs.len() - i,
    {
        assert(cs[i as int] == docs@[i as int]@);
        match resolve_claim(path, nodes, &docs[i]) {
            Ok(c) => {
                out.push(c);
                assert(resolved_claims(ns, cs).take(i + 1) =~= resolved_claims(ns, cs).take(i as int).push(
                    resolved_claims(ns, cs)[i as int],
                ));
            },
            Err(e) => {
                assert(claims_error(ns, path@, cs, e)) by {
                    assert(claim_error(ns, path@, cs[i as int], e));
                }
                return Err(e);
            },
        }
        i = i + 1;
    }
    assert(resolved_claims(ns, cs).take(docs@.len() as int) =~= resolved_claims(ns, cs));
    Ok(out)
}

/// A claim in authoring form: the reference written `name@version`, each
/// bound node by name.
pub open spec fn emitted_claim(a: ArchitectureV, c: ConformanceV) -> ConformanceDocV {
    ConformanceDocV {
        pattern: c.pattern_name + "@"@ + c.pattern_version,
        bindings: c.bindings.map_values(|b: (Seq<char>, NodeId)| (b.0, display_name(a, b.1))),
    }
}

/// Renders a claim back into authoring form.
pub fn emit_claim(a: &Architecture, c: &Conformance) -> (d: ConformanceDocModel)
    ensures
        d@ == emitted_claim(a@, c@),
{
    let ghost want = emitted_claim(a@, c@).bindings;
    let mut bindings: Vec<(String, String)> = Vec::new();
    let mut i: usize = 0;
    while i < c.bindings.len()
        invariant
            i <= c.bindings@.len(),
            want == emitted_claim(a@, c@).bindings,
            want.len() == c.bindings@.len(),
            bindings@.map_values(|b: (String, String)| (b.0@, b.1@)) =~= want.take(i as int),
        decreases c.bindings.len() - i,
    {
        let (role, id) = &c.bindings[i];
        assert(c@.bindings[i as int] == (role@, *id));
        bindings.push((owned(role.as_str()), a.display_name(*id)));
        assert(want.take(i + 1) =~= want.take(i as int).push(want[i as int]));
        i = i + 1;
    }
    assert(want.take(c.bindings@.len() as int) =~= want);
    let pattern = concat_strs(&[c.pattern_name.as_str(), "@", c.pattern_version.as_str()]);
    proof {
        reveal_with_fuel(joined, 4);
    }
    let d = ConformanceDocModel { pattern, bindings };
    assert(d@.bindings =~= want);
    d
}

/// Whether a claim is one resolution could have produced: a name with no
/// `@`, a semantic version, and every bound node declared.
pub open spec fn claim_valid(a: ArchitectureV, c: ConformanceV) -> bool {
    &&& c.pattern_name.len() > 0
    &&& forall|i: int| 0 <= i < c.pattern_name.len() ==> #[trigger] c.pattern_name[i] != '@'
    &&& is_semver(c.pattern_version)
    &&& forall|i: int| 0 <= i < c.bindings.len() ==> node_with_id(a.nodes, (#[trigger] c.bindings[i]).1) is Some
}

/// A reference written `name@version` reads back as that name and version.
pub proof fn lemma_reference_round_trip(name: Seq<char>, version: Seq<char>)
    requires
        name.len() > 0,
        forall|i: int| 0 <= i < name.len() ==> #[trigger] name[i] != '@',
        is_semver(version),
    ensures
        pattern_ref_spec(name + "@"@ + version) == Some((name, version)),
{
    let t = name + "@"@ + version;
    reveal_strlit("@");
    lemma_first_index_of(t, '@', 0);
    let f = first_index_of(t, '@', 0);
    if f < name.len() {
        assert(t[f] == name[f]);
    }
    if f > name.len() {
        assert(t[name.len() as int] == '@');
    }
    assert(f == name.len());
    assert(t.take(f) =~= name);
    assert(t.skip(f + 1) =~= version);
}

/// With distinct names, a claim emitted in authoring form resolves back to
/// itself.
pub proof fn lemma_emitted_claim_resolves_back(a: ArchitectureV, c: ConformanceV)
    requires
        names_unique(a.nodes),
        claim_valid(a, c),
    ensures
        claim_resolves(a.nodes, emitted_claim(a, c)),
        resolved_claim(a.nodes, emitted_claim(a, c)) == c,
{
    let e = emitted_claim(a, c);
    lemma_reference_round_trip(c.pattern_name, c.pattern_version);
    assert forall|i: int| 0 <= i < e.bindings.len() implies binding_resolves(a.nodes, #[trigger] e.bindings[i])
        && lookup_spec(a.nodes, e.bindings[i].1) == Some(c.bindings[i].1) by {
        let id = c.bindings[i].1;
        lemma_name_of_id_resolves(a.nodes, id);
        lemma_node_with_id_in(a.nodes, id);
    }
    assert(resolved_claim(a.nodes, e).bindings =~= c.bindings);
}

// ---------------------------------------------------------------------------
// Checking a claim against its pattern.

/// How a role of a pattern is filled in an architecture.
#[derive(Clone, Copy, Debug, PartialEq, Eq, Structural)]
pub enum RoleFill {
    /// By this node.
    Bound(NodeId),
    /// By nothing: no node has the role's type.
    Missing,
    /// Ambiguously: this many nodes have the role's type.
    Ambiguous(usize),
}

/// The node a claim binds `role` to by hand, if it does.
pub open spec fn by_hand(c: ConformanceV, role: Seq<char>) -> Option<NodeId> {
    let k = first_match(c.bindings, |b: (Seq<char>, NodeId)| b.0 == role);
    if k < c.bindings.len() {
        Some(c.bindings[k].1)
    } else {
        None
    }
}

/// How many of `nodes` have type `t`.
pub open spec fn count_of_type(nodes: Seq<NodeV>, t: NodeType) -> nat
    decreases nodes.len(),
{
    if nodes.len() == 0 {
        0
    } else {
        count_of_type(nodes.drop_last(), t) + if nodes.last().node_type == t {
            1nat
        } else {
            0nat
        }
    }
}

/// Nodes of type `t`.
pub open spec fn of_type(t: NodeType) -> spec_fn(NodeV) -> bool {
    |n: NodeV| n.node_type == t
}

/// How a requirement's role is filled: by hand when the claim binds it,
/// otherwise by the one node of its type, if there is exactly one.
pub open spec fn fill_spec(a: ArchitectureV, c: ConformanceV, r: RequirementV) -> RoleFill {
    match by_hand(c, r.role) {
        Some(id) => RoleFill::Bound(id),
        None => {
            let k = count_of_type(a.nodes, r.node_type);
            if k == 1 {
                RoleFill::Bound(a.nodes[first_match(a.nodes, of_type(r.node_type))].id)
            } else if k == 0 {
                RoleFill::Missing
            } else {
                RoleFill::Ambiguous(k as usize)
            }
        },
    }
}

/// A count of `nodes` of type `t` is one more than a prefix's when the
/// next node has the type.
proof fn lemma_count_step(nodes: Seq<NodeV>, t: NodeType, i: int)
    requires
        0 <= i < nodes.len(),
    ensures
        count_of_type(nodes.take(i + 1), t) == count_of_type(nodes.take(i), t) + if nodes[i].node_type == t {
            1nat
        } else {
            0nat
        },
        count_of_type(nodes.take(i), t) <= i,
    decreases i,
{
    assert(nodes.take(i + 1).drop_last() =~= nodes.take(i));
    if i > 0 {
        lemma_count_step(nodes, t, i - 1);
    } else {
        assert(nodes.take(0) =~= Seq::<NodeV>::empty());
    }
}

/// How a requirement's role is filled.
pub fn fill_role(a: &Architecture, c: &Conformance, r: &Requirement) -> (f: RoleFill)
    ensures
        f == fill_spec(a@, c@, r@),
{
    let ghost bp = |b: (Seq<char>, NodeId)| b.0 == r.role@;
    let ghost bs = c@.bindings;
    let mut i: usize = 0;
    while i < c.bindings.len()
        invariant
            i <= c.bindings@.len(),
            bs == c@.bindings,
            bs.len() == c.bindings@.len(),
            bp == (|b: (Seq<char>, NodeId)| b.0 == r.role@),
            forall|j: int| 0 <= j < i ==> !bp(#[trigger] bs[j]),
        decreases c.bindings.len() - i,
    {
        assert(bs[i as int] == (c.bindings@[i as int].0@, c.bindings@[i as int].1));
        if str_eq(c.bindings[i].0.as_str(), r.role.as_str()) {
            proof {
                lemma_first_match_is(bs, bp, i as int);
            }
            return RoleFill::Bound(c.bindings[i].1);
        }
        i = i + 1;
    }
    proof {
        lemma_first_match_is(bs, bp, i as int);
    }
    let ghost ns = a@.nodes;
    let ghost tp = of_type(r.node_type);
    let mut count: usize = 0;
    let mut first: usize = a.nodes.len();
    let mut j: usize = 0;
    while j < a.nodes.len()
        invariant
            j <= a.nodes@.len(),
            ns == a@.nodes,
            ns.len() == a.nodes@.len(),
            tp == of_type(r.node_type),
            count == count_of_type(ns.take(j as int), r.node_type),
            count <= j,
            first <= a.nodes@.len(),
            (count == 0) == (first == a.nodes@.len()),
            first == a.nodes@.len() ==> forall|q: int| 0 <= q < j ==> !tp(#[trigger] ns[q]),
            first < a.nodes@.len() ==> first < j && tp(ns[first as int]) && forall|q: int| 0 <= q < first ==> !tp(#[trigger] ns[q]),
        decreases a.nodes.len() - j,
    {
        proof {
            lemma_count_step(ns, r.node_type, j as int);
        }
        assert(ns[j as int] == a.nodes@[j as int]@);
        if a.nodes[j].node_type == r.node_type {
            count = count + 1;
            if first == a.nodes.len() {
                first = j;
            }
        }
        j = j + 1;
    }
    assert(ns.take(j as int) =~= ns);
    if count == 1 {
        proof {
            lemma_first_match_is(ns, tp, first as int);
        }
        assert(ns[first as int] == a.nodes@[first as int]@);
        RoleFill::Bound(a.nodes[first].id)
    } else if count == 0 {
        RoleFill::Missing
    } else {
        RoleFill::Ambiguous(count)
    }
}

/// Whether some interface offers protocol `p`.
pub open spec fn has_protocol(interfaces: Seq<InterfaceV>, p: Protocol) -> bool {
    exists|i: int| 0 <= i < interfaces.len() && (#[trigger] interfaces[i]).protocol == p
}

/// The message for a role no node can fill.
pub open spec fn missing_message(r: RequirementV) -> Seq<char> {
    "role '"@ + r.role + "' needs a "@ + node_type_label(r.node_type) + " node; none is declared"@
}

/// The message for a role several nodes could fill.
pub open spec fn ambiguous_message(r: RequirementV, k: usize) -> Seq<char> {
    "role '"@ + r.role + "' could be filled by "@ + decimal(k as nat) + " "@ + node_type_label(r.node_type)
        + " nodes; bind it explicitly"@
}

/// The message for a role bound to a node of another type.
pub open spec fn wrong_type_message(r: RequirementV, n: NodeV) -> Seq<char> {
    "role '"@ + r.role + "' needs a "@ + node_type_label(r.node_type) + " node; '"@ + n.name + "' is a "@
        + node_type_label(n.node_type)
}

/// The gap in security controls, if any.
pub open spec fn security_gap(r: RequirementV, n: NodeV) -> Seq<(Seq<char>, bool)> {
    let have = count_of(n.controls, ControlType::Security);
    if have < r.min_security_controls {
        seq![
            (
                "role '"@ + r.role + "' needs "@ + decimal(r.min_security_controls as nat) + " security controls; '"@
                    + n.name + "' declares "@ + decimal(have),
                true,
            ),
        ]
    } else {
        Seq::empty()
    }
}

/// The required control types `n` declares none of, in order.
pub open spec fn control_gaps(r: RequirementV, n: NodeV, ts: Seq<ControlType>) -> Seq<(Seq<char>, bool)>
    decreases ts.len(),
{
    if ts.len() == 0 {
        Seq::empty()
    } else {
        control_gaps(r, n, ts.drop_last()) + if count_of(n.controls, ts.last()) == 0 {
            seq![
                (
                    "role '"@ + r.role + "' needs a "@ + control_type_label(ts.last()) + " control; '"@ + n.name
                        + "' declares none"@,
                    true,
                ),
            ]
        } else {
            Seq::empty()
        }
    }
}

/// The required protocols `n` offers no interface for, in order.
pub open spec fn protocol_gaps(r: RequirementV, n: NodeV, ps: Seq<Protocol>) -> Seq<(Seq<char>, bool)>
    decreases ps.len(),
{
    if ps.len() == 0 {
        Seq::empty()
    } else {
        protocol_gaps(r, n, ps.drop_last()) + if !has_protocol(n.interfaces, ps.last()) {
            seq![
                (
                    "role '"@ + r.role + "' needs a "@ + protocol_label(ps.last()) + " interface; '"@ + n.name
                        + "' declares none"@,
                    true,
                ),
            ]
        } else {
            Seq::empty()
        }
    }
}

/// What a requirement finds unmet, each with whether an edit can close it.
pub open spec fn requirement_unmet(a: ArchitectureV, c: ConformanceV, r: RequirementV) -> Seq<(Seq<char>, bool)> {
    match fill_spec(a, c, r) {
        RoleFill::Missing => seq![(missing_message(r), true)],
        RoleFill::Ambiguous(k) => seq![(ambiguous_message(r, k), false)],
        RoleFill::Bound(id) => match node_with_id(a.nodes, id) {
            None => Seq::empty(),
            Some(n) => if n.node_type != r.node_type {
                seq![(wrong_type_message(r, n), false)]
            } else {
                security_gap(r, n) + control_gaps(r, n, r.required_control_types) + protocol_gaps(
                    r,
                    n,
                    r.required_protocols,
                )
            },
        },
    }
}

/// Whether a relationship of type `t` runs from `source` to `target`.
pub open spec fn has_edge(rels: Seq<RelationshipV>, source: NodeId, target: NodeId, t: RelationshipType) -> bool {
    exists|i: int|
        0 <= i < rels.len() && (#[trigger] rels[i]).source == source && rels[i].target == target
            && rels[i].relationship_type == t
}

/// The requirement for `role`, by position.
pub open spec fn role_index(p: PatternV, role: Seq<char>) -> int {
    first_match(p.requirements, |q: RequirementV| q.role == role)
}

/// What a required relationship finds unmet: the edge is missing between
/// two bound roles. Roles that are not bound were reported already.
pub open spec fn relationship_unmet(a: ArchitectureV, c: ConformanceV, p: PatternV, rr: RequiredRelationshipV) -> Seq<
    (Seq<char>, bool),
> {
    let s = role_index(p, rr.source);
    let t = role_index(p, rr.target);
    if s < p.requirements.len() && t < p.requirements.len() {
        match (fill_spec(a, c, p.requirements[s]), fill_spec(a, c, p.requirements[t])) {
            (RoleFill::Bound(x), RoleFill::Bound(y)) => if node_with_id(a.nodes, x) is Some && node_with_id(a.nodes, y)
                is Some && !has_edge(a.relationships, x, y, rr.relationship_type) {
                seq![
                    (
                        "pattern requires a "@ + relationship_type_label(rr.relationship_type) + " relationship from '"@
                            + display_name(a, x) + "' (role '"@ + rr.source + "') to '"@ + display_name(a, y)
                            + "' (role '"@ + rr.target + "')"@,
                        true,
                    ),
                ]
            } else {
                Seq::empty()
            },
            _ => Seq::empty(),
        }
    } else {
        Seq::empty()
    }
}

/// Everything the requirements in `rs` find unmet, in order.
pub open spec fn requirements_unmet(a: ArchitectureV, c: ConformanceV, rs: Seq<RequirementV>) -> Seq<(Seq<char>, bool)>
    decreases rs.len(),
{
    if rs.len() == 0 {
        Seq::empty()
    } else {
        requirements_unmet(a, c, rs.drop_last()) + requirement_unmet(a, c, rs.last())
    }
}

/// Everything the required relationships in `rrs` find unmet, in order.
pub open spec fn relationships_unmet(
    a: ArchitectureV,
    c: ConformanceV,
    p: PatternV,
    rrs: Seq<RequiredRelationshipV>,
) -> Seq<(Seq<char>, bool)>
    decreases rrs.len(),
{
    if rrs.len() == 0 {
        Seq::empty()
    } else {
        relationships_unmet(a, c, p, rrs.drop_last()) + relationship_unmet(a, c, p, rrs.last())
    }
}

/// What holding the architecture to pattern `p` under claim `c` finds
/// unmet: each role in order, then each required relationship.
pub open spec fn claim_unmet(a: ArchitectureV, c: ConformanceV, p: PatternV) -> Seq<(Seq<char>, bool)> {
    requirements_unmet(a, c, p.requirements) + relationships_unmet(a, c, p, p.relationships)
}

/// The reference a claim writes.
pub open spec fn claim_reference(c: ConformanceV) -> Seq<char> {
    c.pattern_name + "@"@ + c.pattern_version
}

/// The findings for one claim: the claim unchecked when no supplied pattern
/// is the one it names, else one error for each thing found unmet.
pub open spec fn findings_of_claim(a: ArchitectureV, c: ConformanceV, ps: Seq<PatternV>) -> Seq<DiagnosticV> {
    let k = first_match(ps, |p: PatternV| names(c.pattern_name, c.pattern_version, p));
    if k < ps.len() {
        claim_unmet(a, c, ps[k]).map_values(|u: (Seq<char>, bool)| unmet_finding(claim_reference(c), u.0, u.1))
    } else {
        seq![
            unavailable_finding(
                "patterns-are-satisfied"@,
                claim_subject(claim_reference(c)),
                claim_reference(c),
                ps,
            ),
        ]
    }
}

/// The findings for the claims `cs`, in order.
pub open spec fn claims_findings(a: ArchitectureV, cs: Seq<ConformanceV>, ps: Seq<PatternV>) -> Seq<DiagnosticV>
    decreases cs.len(),
{
    if cs.len() == 0 {
        Seq::empty()
    } else {
        claims_findings(a, cs.drop_last(), ps) + findings_of_claim(a, cs.last(), ps)
    }
}

/// What the `patterns-are-satisfied` rule reports against an architecture
/// and a library.
pub open spec fn claim_findings(a: ArchitectureV, ps: Seq<PatternV>) -> Seq<DiagnosticV> {
    claims_findings(a, a.conformance, ps)
}

/// The model of a list of unmet requirements.
pub open spec fn unmet_view(v: Seq<(String, bool)>) -> Seq<(Seq<char>, bool)> {
    v.map_values(|u: (String, bool)| (u.0@, u.1))
}

/// Appends one unmet requirement.
fn push_unmet(out: &mut Vec<(String, bool)>, message: String, mechanical: bool)
    ensures
        unmet_view(final(out)@) == unmet_view(old(out)@).push((message@, mechanical)),
{
    out.push((message, mechanical));
    assert(unmet_view(out@) =~= unmet_view(old(out)@).push((message@, mechanical)));
}

/// `n` in decimal.
fn decimal_of(n: usize) -> (s: String)
    ensures
        s@ == decimal(n as nat),
{
    decimal_string(n as u64)
}

/// Whether some interface of `n` offers protocol `p`.
fn offers(n: &Node, p: Protocol) -> (b: bool)
    ensures
        b == has_protocol(n@.interfaces, p),
{
    let mut i: usize = 0;
    while i < n.interfaces.len()
        invariant
            i <= n.interfaces@.len(),
            forall|j: int| 0 <= j < i ==> (#[trigger] n@.interfaces[j]).protocol != p,
        decreases n.interfaces.len() - i,
    {
        assert(n@.interfaces[i as int] == n.interfaces@[i as int]@);
        if n.interfaces[i].protocol == p {
            return true;
        }
        i = i + 1;
    }
    false
}

/// Appends what requirement `r` finds unmet on its bound node `n`, which
/// has the role's type.
fn node_gaps(out: &mut Vec<(String, bool)>, r: &Requirement, n: &Node)
    ensures
        unmet_view(final(out)@) == unmet_view(old(out)@) + security_gap(r@, n@) + control_gaps(
            r@,
            n@,
            r@.required_control_types,
        ) + protocol_gaps(r@, n@, r@.required_protocols),
{
    proof {
        reveal_with_fuel(joined, 9);
    }
    let have = n.controls_of_type(ControlType::Security);
    if have < r.min_security_controls {
        let m = concat_strs(
            &[
                "role '",
                r.role.as_str(),
                "' needs ",
                decimal_of(r.min_security_controls).as_str(),
                " security controls; '",
                n.name.as_str(),
                "' declares ",
                decimal_of(have).as_str(),
            ],
        );
        push_unmet(out, m, true);
    }
    let ghost after_security = unmet_view(out@);
    assert(after_security == unmet_view(old(out)@) + security_gap(r@, n@));
    let ghost ts = r@.required_control_types;
    let mut i: usize = 0;
    while i < r.required_control_types.len()
        invariant
            i <= ts.len(),
            ts == r@.required_control_types,
            ts == r.required_control_types@,
            unmet_view(out@) == after_security + control_gaps(r@, n@, ts.take(i as int)),
        decreases r.required_control_types.len() - i,
    {
        let t = r.required_control_types[i];
        assert(ts.take(i + 1).drop_last() =~= ts.take(i as int));
        if n.controls_of_type(t) == 0 {
            let m = concat_strs(
                &["role '", r.role.as_str(), "' needs a ", t.label(), " control; '", n.name.as_str(), "' declares none"],
            );
            proof {
                reveal_with_fuel(joined, 8);
            }
            push_unmet(out, m, true);
        }
        i = i + 1;
    }
    assert(ts.take(ts.len() as int) =~= ts);
    let ghost after_controls = unmet_view(out@);
    let ghost ps = r@.required_protocols;
    let mut k: usize = 0;
    while k < r.required_protocols.len()
        invariant
            k <= ps.len(),
            ps == r@.required_protocols,
            ps == r.required_protocols@,
            unmet_view(out@) == after_controls + protocol_gaps(r@, n@, ps.take(k as int)),
        decreases r.required_protocols.len() - k,
    {
        let p = r.required_protocols[k];
        assert(ps.take(k + 1).drop_last() =~= ps.take(k as int));
        if !offers(n, p) {
            let m = concat_strs(
                &["role '", r.role.as_str(), "' needs a ", p.label(), " interface; '", n.name.as_str(), "' declares none"],
            );
            proof {
                reveal_with_fuel(joined, 8);
            }
            push_unmet(out, m, true);
        }
        k = k + 1;
    }
    assert(ps.take(ps.len() as int) =~= ps);
}

/// Appends what requirement `r` finds unmet under claim `c`.
fn requirement_gaps(out: &mut Vec<(String, bool)>, a: &Architecture, c: &Conformance, r: &Requirement)
    ensures
        unmet_view(final(out)@) == unmet_view(old(out)@) + requirement_unmet(a@, c@, r@),
{
    proof {
        reveal_with_fuel(joined, 7);
    }
    match fill_role(a, c, r) {
        RoleFill::Missing => {
            let m = concat_strs(&["role '", r.role.as_str(), "' needs a ", r.node_type.label(), " node; none is declared"]);
            assert(m@ == missing_message(r@));
            push_unmet(out, m, true);
        },
        RoleFill::Ambiguous(k) => {
            let m = concat_strs(
                &[
                    "role '",
                    r.role.as_str(),
                    "' could be filled by ",
                    decimal_of(k).as_str(),
                    " ",
                    r.node_type.label(),
                    " nodes; bind it explicitly",
                ],
            );
            proof {
                reveal_with_fuel(joined, 8);
            }
            assert(m@ == ambiguous_message(r@, k));
            push_unmet(out, m, false);
        },
        RoleFill::Bound(id) => match a.node(id) {
            None => {
                assert(unmet_view(out@) =~= unmet_view(old(out)@) + Seq::<(Seq<char>, bool)>::empty());
            },
            Some(n) => {
                if n.node_type != r.node_type {
                    let m = concat_strs(
                        &[
                            "role '",
                            r.role.as_str(),
                            "' needs a ",
                            r.node_type.label(),
                            " node; '",
                            n.name.as_str(),
                            "' is a ",
                            n.node_type.label(),
                        ],
                    );
                    proof {
                        reveal_with_fuel(joined, 9);
                    }
                    assert(m@ == wrong_type_message(r@, n@));
                    push_unmet(out, m, false);
                } else {
                    let ghost before = unmet_view(out@);
                    node_gaps(out, r, n);
                    assert(unmet_view(out@) =~= before + (security_gap(r@, n@) + control_gaps(
                        r@,
                        n@,
                        r@.required_control_types,
                    ) + protocol_gaps(r@, n@, r@.required_protocols)));
                }
            },
        },
    }
}

/// The position of the requirement for `role` in `p`, or the count.
fn role_position(p: &Pattern, role: &str) -> (k: usize)
    ensures
        k == role_index(p@, role@),
{
    let ghost pred = |q: RequirementV| q.role == role@;
    let mut i: usize = 0;
    while i < p.requirements.len()
        invariant
            i <= p@.requirements.len(),
            p@.requirements.len() == p.requirements@.len(),
            pred == (|q: RequirementV| q.role == role@),
            forall|j: int| 0 <= j < i ==> !pred(#[trigger] p@.requirements[j]),
        decreases p.requirements.len() - i,
    {
        assert(p@.requirements[i as int] == p.requirements@[i as int]@);
        if str_eq(p.requirements[i].role.as_str(), role) {
            proof {
                lemma_first_match_is(p@.requirements, pred, i as int);
            }
            return i;
        }
        i = i + 1;
    }
    proof {
        lemma_first_match_is(p@.requirements, pred, i as int);
    }
    i
}

/// Whether a relationship of type `t` runs from `source` to `target`.
fn edge_exists(a: &Architecture, source: NodeId, target: NodeId, t: RelationshipType) -> (b: bool)
    ensures
        b == has_edge(a@.relationships, source, target, t),
{
    let mut i: usize = 0;
    while i < a.relationships.len()
        invariant
            i <= a.relationships@.len(),
            forall|j: int|
                0 <= j < i ==> !((#[trigger] a@.relationships[j]).source == source && a@.relationships[j].target == target
                    && a@.relationships[j].relationship_type == t),
        decreases a.relationships.len() - i,
    {
        assert(a@.relationships[i as int] == a.relationships@[i as int]@);
        let e = &a.relationships[i];
        if e.source == source && e.target == target && e.relationship_type == t {
            return true;
        }
        i = i + 1;
    }
    false
}

/// Appends what required relationship `rr` finds unmet under claim `c`.
fn relationship_gaps(out: &mut Vec<(String, bool)>, a: &Architecture, c: &Conformance, p: &Pattern, rr: &RequiredRelationship)
    ensures
        unmet_view(final(out)@) == unmet_view(old(out)@) + relationship_unmet(a@, c@, p@, rr@),
{
    let s = role_position(p, rr.source.as_str());
    let t = role_position(p, rr.target.as_str());
    proof {
        crate::seqs::lemma_first_match(p@.requirements, |q: RequirementV| q.role == rr@.source);
        crate::seqs::lemma_first_match(p@.requirements, |q: RequirementV| q.role == rr@.target);
    }
    if s < p.requirements.len() && t < p.requirements.len() {
        assert(p@.requirements[s as int] == p.requirements@[s as int]@);
        assert(p@.requirements[t as int] == p.requirements@[t as int]@);
        let fs = fill_role(a, c, &p.requirements[s]);
        let ft = fill_role(a, c, &p.requirements[t]);
        match (fs, ft) {
            (RoleFill::Bound(x), RoleFill::Bound(y)) => {
                if a.node(x).is_some() && a.node(y).is_some() && !edge_exists(a, x, y, rr.relationship_type) {
                    let m = concat_strs(
                        &[
                            "pattern requires a ",
                            rr.relationship_type.label(),
                            " relationship from '",
                            a.display_name(x).as_str(),
                            "' (role '",
                            rr.source.as_str(),
                            "') to '",
                            a.display_name(y).as_str(),
                            "' (role '",
                            rr.target.as_str(),
                            "')",
                        ],
                    );
                    proof {
                        reveal_with_fuel(joined, 12);
                    }
                    push_unmet(out, m, true);
                    return;
                }
            },
            _ => {},
        }
    }
    assert(unmet_view(out@) =~= unmet_view(old(out)@) + Seq::<(Seq<char>, bool)>::empty());
}

/// What holding the architecture to pattern `p` under claim `c` finds unmet.
pub fn check_conformance(a: &Architecture, c: &Conformance, p: &Pattern) -> (u: Vec<(String, bool)>)
    ensures
        unmet_view(u@) == claim_unmet(a@, c@, p@),
{
    let mut out: Vec<(String, bool)> = Vec::new();
    let ghost rs = p@.requirements;
    let mut i: usize = 0;
    assert(unmet_view(out@) =~= Seq::<(Seq<char>, bool)>::empty());
    while i < p.requirements.len()
        invariant
            i <= rs.len(),
            rs == p@.requirements,
            rs.len() == p.requirements@.len(),
            unmet_view(out@) == requirements_unmet(a@, c@, rs.take(i as int)),
        decreases p.requirements.len() - i,
    {
        assert(rs[i as int] == p.requirements@[i as int]@);
        assert(rs.take(i + 1).drop_last() =~= rs.take(i as int));
        requirement_gaps(&mut out, a, c, &p.requirements[i]);
        i = i + 1;
    }
    assert(rs.take(rs.len() as int) =~= rs);
    let ghost mid = unmet_view(out@);
    let ghost rrs = p@.relationships;
    let mut k: usize = 0;
    while k < p.relationships.len()
        invariant
            k <= rrs.len(),
            rrs == p@.relationships,
            rrs.len() == p.relationships@.len(),
            unmet_view(out@) == mid + relationships_unmet(a@, c@, p@, rrs.take(k as int)),
        decreases p.relationships.len() - k,
    {
        assert(rrs[k as int] == p.relationships@[k as int]@);
        assert(rrs.take(k + 1).drop_last() =~= rrs.take(k as int));
        relationship_gaps(&mut out, a, c, p, &p.relationships[k]);
        k = k + 1;
    }
    assert(rrs.take(rrs.len() as int) =~= rrs);
    out
}

/// The views of a list of findings.
pub open spec fn diagnostic_views(ds: Seq<Diagnostic>) -> Seq<DiagnosticV> {
    ds.map_values(|d: Diagnostic| d@)
}

/// Appends the findings for one claim.
fn claim_gaps(out: &mut Vec<Diagnostic>, a: &Architecture, c: &Conformance, library: &[Pattern])
    ensures
        diagnostic_views(final(out)@) == diagnostic_views(old(out)@) + findings_of_claim(a@, c@, pattern_views(library@)),
{
    let claim = PatternRef::new(c.pattern_name.as_str(), c.pattern_version.as_str());
    match check_claim(&claim, library) {
        ClaimCheck::Unavailable(d) => {
            out.push(d);
            assert(diagnostic_views(out@) =~= diagnostic_views(old(out)@).push(d@));
        },
        ClaimCheck::Available(k) => {
            let reference = concat_strs(&[c.pattern_name.as_str(), "@", c.pattern_version.as_str()]);
            proof {
                reveal_with_fuel(joined, 4);
                crate::seqs::lemma_first_match(
                    pattern_views(library@),
                    |p: PatternV| names(c@.pattern_name, c@.pattern_version, p),
                );
            }
            assert(pattern_views(library@)[k as int] == library@[k as int]@);
            let unmet_list = check_conformance(a, c, &library[k]);
            let ghost us = unmet_view(unmet_list@);
            let ghost start = diagnostic_views(out@);
            let mut i: usize = 0;
            while i < unmet_list.len()
                invariant
                    i <= unmet_list@.len(),
                    us == unmet_view(unmet_list@),
                    reference@ == claim_reference(c@),
                    diagnostic_views(out@) == start + us.take(i as int).map_values(
                        |u: (Seq<char>, bool)| unmet_finding(claim_reference(c@), u.0, u.1),
                    ),
                decreases unmet_list.len() - i,
            {
                let d = unmet(reference.as_str(), unmet_list[i].0.as_str(), unmet_list[i].1);
                let ghost before = diagnostic_views(out@);
                out.push(d);
                assert(us[i as int] == (unmet_list@[i as int].0@, unmet_list@[i as int].1));
                assert(us.take(i + 1).map_values(|u: (Seq<char>, bool)| unmet_finding(claim_reference(c@), u.0, u.1))
                    =~= us.take(i as int).map_values(|u: (Seq<char>, bool)| unmet_finding(claim_reference(c@), u.0, u.1)).push(
                    d@,
                ));
                assert(diagnostic_views(out@) =~= before.push(d@));
                i = i + 1;
            }
            assert(us.take(us.len() as int) =~= us);
        },
    }
}

/// What the `patterns-are-satisfied` rule reports: for each claim in order,
/// a warning when no supplied pattern is the one it names, else an error for
/// each thing the architecture does not meet.
pub fn patterns_are_satisfied(a: &Architecture, library: &[Pattern]) -> (d: Vec<Diagnostic>)
    ensures
        diagnostic_views(d@) == claim_findings(a@, pattern_views(library@)),
{
    let ghost cs = a@.conformance;
    let mut out: Vec<Diagnostic> = Vec::new();
    assert(diagnostic_views(out@) =~= Seq::<DiagnosticV>::empty());
    let mut i: usize = 0;
    while i < a.conformance.len()
        invariant
            i <= cs.len(),
            cs == a@.conformance,
            cs.len() == a.conformance@.len(),
            diagnostic_views(out@) == claims_findings(a@, cs.take(i as int), pattern_views(library@)),
        decreases a.conformance.len() - i,
    {
        assert(cs[i as int] == a.conformance@[i as int]@);
        assert(cs.take(i + 1).drop_last() =~= cs.take(i as int));
        claim_gaps(&mut out, a, &a.conformance[i], library);
        i = i + 1;
    }
    assert(cs.take(cs.len() as int) =~= cs);
    out
}

/// An architecture that claims nothing is never touched by the rule.
pub proof fn law_no_claims_no_findings(a: ArchitectureV, ps: Seq<PatternV>)
    requires
        a.conformance.len() == 0,
    ensures
        claim_findings(a, ps) == Seq::<DiagnosticV>::empty(),
{
}

/// Every claim naming a pattern the library does not hold is reported as
/// unchecked, with a warning, never assumed satisfied: the findings hold
/// that warning.
pub proof fn law_unchecked_claims_are_reported(a: ArchitectureV, ps: Seq<PatternV>, i: int)
    requires
        0 <= i < a.conformance.len(),
        forall|k: int|
            0 <= k < ps.len() ==> !names(a.conformance[i].pattern_name, a.conformance[i].pattern_version, #[trigger] ps[k]),
    ensures
        claim_findings(a, ps).contains(
            unavailable_finding(
                "patterns-are-satisfied"@,
                claim_subject(claim_reference(a.conformance[i])),
                claim_reference(a.conformance[i]),
                ps,
            ),
        ),
{
    lemma_claim_reported(a, a.conformance, ps, i);
}

proof fn lemma_claim_reported(a: ArchitectureV, cs: Seq<ConformanceV>, ps: Seq<PatternV>, i: int)
    requires
        0 <= i < cs.len(),
        forall|k: int| 0 <= k < ps.len() ==> !names(cs[i].pattern_name, cs[i].pattern_version, #[trigger] ps[k]),
    ensures
        claims_findings(a, cs, ps).contains(
            unavailable_finding("patterns-are-satisfied"@, claim_subject(claim_reference(cs[i])), claim_reference(cs[i]), ps),
        ),
    decreases cs.len(),
{
    let f = unavailable_finding("patterns-are-satisfied"@, claim_subject(claim_reference(cs[i])), claim_reference(cs[i]), ps);
    let before = claims_findings(a, cs.drop_last(), ps);
    let last = findings_of_claim(a, cs.last(), ps);
    if i == cs.len() - 1 {
        let p = |q: PatternV| names(cs[i].pattern_name, cs[i].pattern_version, q);
        crate::seqs::lemma_first_match(ps, p);
        let k = first_match(ps, p);
        if k < ps.len() {
            assert(p(ps[k]));
        }
        assert(last =~= seq![f]);
        assert((before + last)[before.len() as int] == f);
    } else {
        assert(cs.drop_last()[i] == cs[i]);
        lemma_claim_reported(a, cs.drop_last(), ps, i);
        let j = choose|j: int| 0 <= j < before.len() && before[j] == f;
        assert((before + last)[j] == f);
    }
}

/// A claim whose pattern is held and which the architecture meets in full
/// adds nothing: a claim held to its pattern reports exactly what it does
/// not meet.
pub proof fn law_met_claims_add_nothing(a: ArchitectureV, c: ConformanceV, ps: Seq<PatternV>)
    requires
        exists|k: int| 0 <= k < ps.len() && names(c.pattern_name, c.pattern_version, #[trigger] ps[k]),
        claim_unmet(a, c, ps[first_match(ps, |p: PatternV| names(c.pattern_name, c.pattern_version, p))]).len() == 0,
    ensures
        findings_of_claim(a, c, ps) == Seq::<DiagnosticV>::empty(),
{
    let p = |q: PatternV| names(c.pattern_name, c.pattern_version, q);
    crate::seqs::lemma_first_match(ps, p);
    let w = choose|k: int| 0 <= k < ps.len() && names(c.pattern_name, c.pattern_version, ps[k]);
    assert(p(ps[w]));
    assert(findings_of_claim(a, c, ps) =~= Seq::<DiagnosticV>::empty());
}


/// A role bound by hand to a node of another type than the role requires
/// is unmet: the requirement reports that node's wrong type, whatever else
/// the node has.
pub proof fn law_wrong_type_is_unmet(a: ArchitectureV, c: ConformanceV, r: RequirementV, n: NodeV)
    requires
        by_hand(c, r.role) == Some(n.id),
        node_with_id(a.nodes, n.id) == Some(n),
        n.node_type != r.node_type,
    ensures
        requirement_unmet(a, c, r).contains((wrong_type_message(r, n), false)),
        requirement_unmet(a, c, r).len() > 0,
{
    assert(requirement_unmet(a, c, r)[0] == (wrong_type_message(r, n), false));
}

/// Nothing is unmet in a list of requirements only where nothing is unmet
/// in any one of them.
proof fn lemma_each_requirement_met(a: ArchitectureV, c: ConformanceV, rs: Seq<RequirementV>, i: int)
    requires
        0 <= i < rs.len(),
        requirements_unmet(a, c, rs).len() == 0,
    ensures
        requirement_unmet(a, c, rs[i]).len() == 0,
    decreases rs.len(),
{
    if i < rs.len() - 1 {
        assert(rs.drop_last()[i] == rs[i]);
        lemma_each_requirement_met(a, c, rs.drop_last(), i);
    }
}

/// A claim held to its pattern is met only where every role is filled by a
/// node of the type the role requires: a role bound by hand names a node of
/// that type, and a role left unbound has exactly one node of its type to
/// fill it.
pub proof fn law_met_claims_fill_roles_with_their_type(a: ArchitectureV, c: ConformanceV, p: PatternV, i: int)
    requires
        0 <= i < p.requirements.len(),
        claim_unmet(a, c, p).len() == 0,
    ensures
        match by_hand(c, p.requirements[i].role) {
            Some(id) => match node_with_id(a.nodes, id) {
                Some(n) => n.node_type == p.requirements[i].node_type,
                None => true,
            },
            None => count_of_type(a.nodes, p.requirements[i].node_type) == 1,
        },
{
    lemma_each_requirement_met(a, c, p.requirements, i);
    let r = p.requirements[i];
    if let Some(id) = by_hand(c, r.role) {
        if let Some(n) = node_with_id(a.nodes, id) {
            if n.node_type != r.node_type {
                assert(requirement_unmet(a, c, r).len() == 1);
            }
        }
    } else {
        let k = count_of_type(a.nodes, r.node_type);
        if k == 0 {
            assert(requirement_unmet(a, c, r).len() == 1);
        } else if k > 1 {
            assert(requirement_unmet(a, c, r).len() == 1);
        }
    }
}

} // verus!
