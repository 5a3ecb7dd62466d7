//! A pattern as its file writes it, and the checks that make it a pattern:
//! roles named and each required once, relationships between two different
//! declared roles, a name a reference can carry, and a semantic version.
use vstd::prelude::*;

use crate::architecture::{opt_view, ControlType, NodeType, Protocol, RelationshipType};
use crate::chars::{chars_of, concat_strs, joined, owned, str_eq};
use crate::document::semantic_error;
use crate::error::ParseError;
use crate::pattern::{Pattern, PatternV, RequiredRelationship, RequiredRelationshipV, Requirement, RequirementV};
use crate::record::Attributes;
use crate::semver::{is_semver, is_semver_exec};
use crate::seqs::{first_match, lemma_first_match_is};
use crate::suggest::{closest, closest_of, did_you_mean};

verus! {

/// A role as a pattern file writes it.
#[derive(Clone, Debug, PartialEq, Eq)]
pub struct RequirementDocModel {
    /// The role's name, unique within the pattern.
    pub role: String,
    /// The node type a filling node must have.
    pub node_type: NodeType,
    /// What the role is for.
    pub description: Option<String>,
    /// The fewest `security` controls the filling node must declare.
    pub min_security_controls: Option<usize>,
    /// Control types the filling node must declare at least one of each.
    pub requires_controls: Vec<ControlType>,
    /// Protocols the filling node must offer an interface for.
    pub requires_protocols: Vec<Protocol>,
}

/// The model of a [`RequirementDocModel`].
pub struct RequirementDocV {
    pub role: Seq<char>,
    pub node_type: NodeType,
    pub description: Option<Seq<char>>,
    pub min_security_controls: Option<usize>,
    pub requires_controls: Seq<ControlType>,
    pub requires_protocols: Seq<Protocol>,
}

impl View for RequirementDocModel {
    type V = RequirementDocV;

    open spec fn view(&self) -> RequirementDocV {
        RequirementDocV {
            role: self.role@,
            node_type: self.node_type,
            description: opt_view(self.description),
            min_security_controls: self.min_security_controls,
            requires_controls: self.requires_controls@,
            requires_protocols: self.requires_protocols@,
        }
    }
}

/// A required relationship as a pattern file writes it.
#[derive(Clone, Debug, PartialEq, Eq)]
pub struct RequiredRelationshipDocModel {
    /// The originating role.
    pub source: String,
    /// The receiving role.
    pub target: String,
    /// The edge semantics that must hold.
    pub relationship_type: RelationshipType,
    /// What the edge is for.
    pub description: Option<String>,
}

/// The model of a [`RequiredRelationshipDocModel`].
pub struct RequiredRelationshipDocV {
    pub source: Seq<char>,
    pub target: Seq<char>,
    pub relationship_type: RelationshipType,
    pub description: Option<Seq<char>>,
}

impl View for RequiredRelationshipDocModel {
    type V = RequiredRelationshipDocV;

    open spec fn view(&self) -> RequiredRelationshipDocV {
        RequiredRelationshipDocV {
            source: self.source@,
            target: self.target@,
            relationship_type: self.relationship_type,
            description: opt_view(self.description),
        }
    }
}

/// A pattern as its file writes it.
#[derive(Clone, Debug, PartialEq, Eq)]
pub struct PatternDocModel {
    /// The pattern's name.
    pub name: String,
    /// Its semantic version.
    pub version: String,
    /// What it is for.
    pub description: Option<String>,
    /// The roles it requires.
    pub requirements: Vec<RequirementDocModel>,
    /// The relationships that must hold between those roles.
    pub relationships: Vec<RequiredRelationshipDocModel>,
    /// Standards conforming to it helps satisfy.
    pub satisfies: Vec<String>,
    /// Free-form annotations, one value per key, in key order.
    pub metadata: Attributes,
}

/// The model of a [`PatternDocModel`].
pub struct PatternDocV {
    pub name: Seq<char>,
    pub version: Seq<char>,
    pub description: Option<Seq<char>>,
    pub requirements: Seq<RequirementDocV>,
    pub relationships: Seq<RequiredRelationshipDocV>,
    pub satisfies: Seq<Seq<char>>,
    pub metadata: Seq<(Seq<char>, Seq<char>)>,
}

impl View for PatternDocModel {
    type V = PatternDocV;

    open spec fn view(&self) -> PatternDocV {
        PatternDocV {
            name: self.name@,
            version: self.version@,
            description: opt_view(self.description),
            requirements: self.requirements@.map_values(|r: RequirementDocModel| r@),
            relationships: self.relationships@.map_values(|r: RequiredRelationshipDocModel| r@),
            satisfies: self.satisfies@.map_values(|t: String| t@),
            metadata: self.metadata@,
        }
    }
}

/// Roles with no name.
pub open spec fn unnamed() -> spec_fn(RequirementDocV) -> bool {
    |r: RequirementDocV| r.role.len() == 0
}

/// Relationships from a role to itself.
pub open spec fn to_itself() -> spec_fn(RequiredRelationshipDocV) -> bool {
    |r: RequiredRelationshipDocV| r.source == r.target
}

/// For each role, whether an earlier role has its name.
pub open spec fn repeated_roles(rs: Seq<RequirementDocV>) -> Seq<bool> {
    Seq::new(rs.len(), |j: int| exists|i: int| 0 <= i < j && rs[i].role == rs[j].role)
}

/// Whether `role` is one the pattern requires.
pub open spec fn declares(rs: Seq<RequirementDocV>, role: Seq<char>) -> bool {
    exists|i: int| 0 <= i < rs.len() && (#[trigger] rs[i]).role == role
}

/// Relationships naming a role the pattern does not require.
pub open spec fn names_unknown(rs: Seq<RequirementDocV>) -> spec_fn(RequiredRelationshipDocV) -> bool {
    |r: RequiredRelationshipDocV| !declares(rs, r.source) || !declares(rs, r.target)
}

/// Whether `name` can name a pattern: not empty, and no `@`, which
/// separates it from the version in a reference.
pub open spec fn pattern_name_ok(name: Seq<char>) -> bool {
    name.len() > 0 && forall|i: int| 0 <= i < name.len() ==> #[trigger] name[i] != '@'
}

/// The hint for a role the pattern does not require.
pub open spec fn role_hint_spec(rs: Seq<RequirementDocV>, role: Seq<char>) -> Option<Seq<char>> {
    match closest_of(role, rs.map_values(|r: RequirementDocV| r.role)) {
        Some(c) => Some("did you mean `"@ + c + "`?"@),
        None => None,
    }
}

/// The requirement a role as written stands for.
pub open spec fn requirement_of(r: RequirementDocV) -> RequirementV {
    RequirementV {
        role: r.role,
        node_type: r.node_type,
        description: r.description,
        min_security_controls: match r.min_security_controls {
            Some(n) => n,
            None => 0,
        },
        required_control_types: r.requires_controls,
        required_protocols: r.requires_protocols,
    }
}

/// The required relationship as written stands for.
pub open spec fn required_relationship_of(r: RequiredRelationshipDocV) -> RequiredRelationshipV {
    RequiredRelationshipV {
        source: r.source,
        target: r.target,
        relationship_type: r.relationship_type,
        description: r.description,
    }
}

/// The pattern a sound file stands for.
pub open spec fn pattern_of(d: PatternDocV) -> PatternV {
    PatternV {
        name: d.name,
        version: d.version,
        description: d.description,
        requirements: d.requirements.map_values(|r: RequirementDocV| requirement_of(r)),
        relationships: d.relationships.map_values(|r: RequiredRelationshipDocV| required_relationship_of(r)),
        satisfies: d.satisfies,
        metadata: d.metadata,
    }
}

/// What reading a pattern file gives, refused at the first fault in this
/// order: a role with no name; a relationship from a role to itself; a name
/// a reference cannot carry; a version that is not semantic; a role required
/// twice; a relationship naming a role the pattern does not require.
pub open spec fn into_pattern_ok(d: PatternDocV, path: Seq<char>, r: Result<Pattern, ParseError>) -> bool {
    let er = first_match(d.requirements, unnamed());
    let sr = first_match(d.relationships, to_itself());
    let dup = first_match(repeated_roles(d.requirements), |b: bool| b);
    let uk = first_match(d.relationships, names_unknown(d.requirements));
    if er < d.requirements.len() {
        r matches Err(e) && semantic_error(e, path, "role '': a role needs a name"@, None)
    } else if sr < d.relationships.len() {
        r matches Err(e) && semantic_error(
            e,
            path,
            "relationship '"@ + d.relationships[sr].source + "' -> '"@ + d.relationships[sr].target
                + "': a role cannot require a relationship to itself"@,
            None,
        )
    } else if !pattern_name_ok(d.name) {
        r matches Err(e) && semantic_error(
            e,
            path,
            "'"@ + d.name + "' is not a pattern name: it must be non-empty and contain no '@'"@,
            None,
        )
    } else if !is_semver(d.version) {
        r matches Err(e) && semantic_error(
            e,
            path,
            "pattern '"@ + d.name + "': '"@ + d.version + "' is not a semantic version"@,
            None,
        )
    } else if dup < d.requirements.len() {
        r matches Err(e) && semantic_error(
            e,
            path,
            "pattern '"@ + d.name + "': role '"@ + d.requirements[dup].role + "' is required twice"@,
            None,
        )
    } else if uk < d.relationships.len() {
        let role = if !declares(d.requirements, d.relationships[uk].source) {
            d.relationships[uk].source
        } else {
            d.relationships[uk].target
        };
        r matches Err(e) && semantic_error(
            e,
            path,
            "pattern '"@ + d.name + "': a relationship names role '"@ + role + "', which the pattern does not require"@,
            role_hint_spec(d.requirements, role),
        )
    } else {
        r matches Ok(p) && p@ == pattern_of(d)
    }
}

/// Whether the requirements declare `role`.
fn declares_exec(rs: &Vec<RequirementDocModel>, role: &str) -> (b: bool)
    ensures
        b == declares(rs@.map_values(|r: RequirementDocModel| r@), role@),
{
    let ghost v = rs@.map_values(|r: RequirementDocModel| r@);
    let mut i: usize = 0;
    while i < rs.len()
        invariant
            i <= rs@.len(),
            v == rs@.map_values(|r: RequirementDocModel| r@),
            forall|j: int| 0 <= j < i ==> (#[trigger] v[j]).role != role@,
        decreases rs.len() - i,
    {
        assert(v[i as int] == rs@[i as int]@);
        if str_eq(rs[i].role.as_str(), role) {
            return true;
        }
        i = i + 1;
    }
    false
}

/// The hint for a role the requirements do not declare.
fn role_hint(rs: &Vec<RequirementDocModel>, role: &str) -> (h: Option<String>)
    ensures
        opt_view(h) == role_hint_spec(rs@.map_values(|r: RequirementDocModel| r@), role@),
{
    let ghost ns = rs@.map_values(|r: RequirementDocModel| r@).map_values(|r: RequirementDocV| r.role);
    let mut names: Vec<&str> = Vec::new();
    let mut i: usize = 0;
    while i < rs.len()
        invariant
            i <= rs@.len(),
            ns == rs@.map_values(|r: RequirementDocModel| r@).map_values(|r: RequirementDocV| r.role),
            ns.len() == rs@.len(),
            names@.map_values(|c: &str| c@) =~= ns.take(i as int),
        decreases rs.len() - i,
    {
        assert(ns[i as int] == rs@[i as int].role@);
        names.push(rs[i].role.as_str());
        assert(ns.take(i + 1) =~= ns.take(i as int).push(ns[i as int]));
        i = i + 1;
    }
    assert(ns.take(rs@.len() as int) =~= ns);
    match closest(role, names.as_slice()) {
        Some(c) => Some(did_you_mean(c)),
        None => None,
    }
}

/// A semantic error with no suggestion.
fn plain_error(path: &str, message: String) -> (e: ParseError)
    ensures
        semantic_error(e, path@, message@, None),
{
    ParseError::Semantic { path: owned(path), message, suggestion: None }
}

/// Reads a pattern file's grammar into a pattern, refusing the first fault.
pub fn into_pattern(doc: &PatternDocModel, path: &str) -> (r: Result<Pattern, ParseError>)
    ensures
        into_pattern_ok(doc@, path@, r),
{
    let ghost d = doc@;
    proof {
        reveal_with_fuel(joined, 8);
    }
    // Each role, as written.
    let mut i: usize = 0;
    while i < doc.requirements.len()
        invariant
            i <= doc.requirements@.len(),
            d == doc@,
            d.requirements.len() == doc.requirements@.len(),
            forall|j: int| 0 <= j < i ==> !unnamed()(#[trigger] d.requirements[j]),
        decreases doc.requirements.len() - i,
    {
        assert(d.requirements[i as int] == doc.requirements@[i as int]@);
        if chars_of(doc.requirements[i].role.as_str()).len() == 0 {
            proof {
                lemma_first_match_is(d.requirements, unnamed(), i as int);
            }
            return Err(plain_error(path, owned("role '': a role needs a name")));
        }
        i = i + 1;
    }
    proof {
        lemma_first_match_is(d.requirements, unnamed(), i as int);
    }
    // Each relationship, as written.
    let mut k: usize = 0;
    while k < doc.relationships.len()
        invariant
            k <= doc.relationships@.len(),
            d == doc@,
            d.relationships.len() == doc.relationships@.len(),
            first_match(d.requirements, unnamed()) == d.requirements.len(),
            forall|j: int| 0 <= j < k ==> !to_itself()(#[trigger] d.relationships[j]),
        decreases doc.relationships.len() - k,
    {
        assert(d.relationships[k as int] == doc.relationships@[k as int]@);
        let rr = &doc.relationships[k];
        if str_eq(rr.source.as_str(), rr.target.as_str()) {
            proof {
                lemma_first_match_is(d.relationships, to_itself(), k as int);
            }
            let m = concat_strs(
                &["relationship '", rr.source.as_str(), "' -> '", rr.target.as_str(), "': a role cannot require a relationship to itself"],
            );
            proof {
                reveal_with_fuel(joined, 8);
            }
            return Err(plain_error(path, m));
        }
        k = k + 1;
    }
    proof {
        lemma_first_match_is(d.relationships, to_itself(), k as int);
    }
    // The pattern as a whole.
    let name = chars_of(doc.name.as_str());
    let mut n: usize = 0;
    let mut name_ok = name.len() > 0;
    while n < name.len()
        invariant
            n <= name@.len(),
            name@ == doc.name@,
            name_ok == (name@.len() > 0 && forall|j: int| 0 <= j < n ==> #[trigger] name@[j] != '@'),
        decreases name.len() - n,
    {
        if name[n] == '@' {
            name_ok = false;
        }
        n = n + 1;
    }
    if !name_ok {
        let m = concat_strs(&["'", doc.name.as_str(), "' is not a pattern name: it must be non-empty and contain no '@'"]);
        return Err(plain_error(path, m));
    }
    if !is_semver_exec(chars_of(doc.version.as_str()).as_slice()) {
        let m = concat_strs(&["pattern '", doc.name.as_str(), "': '", doc.version.as_str(), "' is not a semantic version"]);
        return Err(plain_error(path, m));
    }
    let ghost flags = repeated_roles(d.requirements);
    let mut j: usize = 0;
    while j < doc.requirements.len()
        invariant
            j <= doc.requirements@.len(),
            d == doc@,
            d.requirements.len() == doc.requirements@.len(),
            flags == repeated_roles(d.requirements),
            first_match(d.requirements, unnamed()) == d.requirements.len(),
            first_match(d.relationships, to_itself()) == d.relationships.len(),
            pattern_name_ok(d.name),
            is_semver(d.version),
            forall|q: int| 0 <= q < j ==> !(#[trigger] flags[q]),
        decreases doc.requirements.len() - j,
    {
        let mut p: usize = 0;
        while p < j
            invariant
                p <= j,
                j < doc.requirements@.len(),
                d == doc@,
                d.requirements.len() == doc.requirements@.len(),
                flags == repeated_roles(d.requirements),
                first_match(d.requirements, unnamed()) == d.requirements.len(),
                first_match(d.relationships, to_itself()) == d.relationships.len(),
                pattern_name_ok(d.name),
                is_semver(d.version),
                forall|q: int| 0 <= q < j ==> !(#[trigger] flags[q]),
                forall|q: int| 0 <= q < p ==> d.requirements[q].role != d.requirements[j as int].role,
            decreases j - p,
        {
            assert(d.requirements[p as int] == doc.requirements@[p as int]@);
            assert(d.requirements[j as int] == doc.requirements@[j as int]@);
            if str_eq(doc.requirements[p].role.as_str(), doc.requirements[j].role.as_str()) {
                proof {
                    assert(flags[j as int]);
                    lemma_first_match_is(flags, |b: bool| b, j as int);
                }
                let m = concat_strs(
                    &["pattern '", doc.name.as_str(), "': role '", doc.requirements[j].role.as_str(), "' is required twice"],
                );
                proof {
                    reveal_with_fuel(joined, 8);
                }
                return Err(plain_error(path, m));
            }
            p = p + 1;
        }
        assert(!flags[j as int]) by {
            if flags[j as int] {
                let q = choose|q: int| 0 <= q < j && d.requirements[q].role == d.requirements[j as int].role;
                assert(d.requirements[q].role != d.requirements[j as int].role);
            }
        }
        j = j + 1;
    }
    proof {
        lemma_first_match_is(flags, |b: bool| b, j as int);
    }
    let ghost unknown = names_unknown(d.requirements);
    let mut u: usize = 0;
    while u < doc.relationships.len()
        invariant
            u <= doc.relationships@.len(),
            d == doc@,
            d.relationships.len() == doc.relationships@.len(),
            unknown == names_unknown(d.requirements),
            first_match(d.requirements, unnamed()) == d.requirements.len(),
            first_match(d.relationships, to_itself()) == d.relationships.len(),
            pattern_name_ok(d.name),
            is_semver(d.version),
            first_match(repeated_roles(d.requirements), |b: bool| b) == d.requirements.len(),
            forall|q: int| 0 <= q < u ==> !unknown(#[trigger] d.relationships[q]),
        decreases doc.relationships.len() - u,
    {
        assert(d.relationships[u as int] == doc.relationships@[u as int]@);
        let rr = &doc.relationships[u];
        let source_ok = declares_exec(&doc.requirements, rr.source.as_str());
        let target_ok = declares_exec(&doc.requirements, rr.target.as_str());
        if !source_ok || !target_ok {
            proof {
                lemma_first_match_is(d.relationships, unknown, u as int);
            }
            let role = if !source_ok {
                rr.source.as_str()
            } else {
                rr.target.as_str()
            };
            let m = concat_strs(
                &["pattern '", doc.name.as_str(), "': a relationship names role '", role, "', which the pattern does not require"],
            );
            let hint = role_hint(&doc.requirements, role);
            proof {
                reveal_with_fuel(joined, 8);
            }
            return Err(ParseError::Semantic { path: owned(path), message: m, suggestion: hint });
        }
        u = u + 1;
    }
    proof {
        lemma_first_match_is(d.relationships, unknown, u as int);
    }
    Ok(build_pattern(doc))
}

/// The pattern a sound file stands for.
fn build_pattern(doc: &PatternDocModel) -> (p: Pattern)
    ensures
        p@ == pattern_of(doc@),
{
    let ghost want = pattern_of(doc@);
    let mut requirements: Vec<Requirement> = Vec::new();
    let mut i: usize = 0;
    while i < doc.requirements.len()
        invariant
            i <= doc.requirements@.len(),
            want == pattern_of(doc@),
            want.requirements.len() == doc.requirements@.len(),
            requirements@.map_values(|r: Requirement| r@) =~= want.requirements.take(i as int),
        decreases doc.requirements.len() - i,
    {
        let r = &doc.requirements[i];
        assert(want.requirements[i as int] == requirement_of(r@));
        requirements.push(
            Requirement {
                role: owned(r.role.as_str()),
                node_type: r.node_type,
                description: copy_text(&r.description),
                min_security_controls: match r.min_security_controls {
                    Some(n) => n,
                    None => 0,
                },
                required_control_types: copy_controls(&r.requires_controls),
                required_protocols: copy_protocols(&r.requires_protocols),
            },
        );
        assert(want.requirements.take(i + 1) =~= want.requirements.take(i as int).push(want.requirements[i as int]));
        i = i + 1;
    }
    assert(want.requirements.take(doc.requirements@.len() as int) =~= want.requirements);
    let mut relationships: Vec<RequiredRelationship> = Vec::new();
    let mut k: usize = 0;
    while k < doc.relationships.len()
        invariant
            k <= doc.relationships@.len(),
            want == pattern_of(doc@),
            want.relationships.len() == doc.relationships@.len(),
            relationships@.map_values(|r: RequiredRelationship| r@) =~= want.relationships.take(k as int),
        decreases doc.relationships.len() - k,
    {
        let r = &doc.relationships[k];
        assert(want.relationships[k as int] == required_relationship_of(r@));
        relationships.push(
            RequiredRelationship {
                source: owned(r.source.as_str()),
                target: owned(r.target.as_str()),
                relationship_type: r.relationship_type,
                description: copy_text(&r.description),
            },
        );
        assert(want.relationships.take(k + 1) =~= want.relationships.take(k as int).push(want.relationships[k as int]));
        k = k + 1;
    }
    assert(want.relationships.take(doc.relationships@.len() as int) =~= want.relationships);
    let p = Pattern {
        name: owned(doc.name.as_str()),
        version: owned(doc.version.as_str()),
        description: copy_text(&doc.description),
        requirements,
        relationships,
        satisfies: copy_texts(&doc.satisfies),
        metadata: doc.metadata.clone(),
    };
    assert(p@.requirements =~= want.requirements);
    assert(p@.relationships =~= want.relationships);
    p
}

fn copy_text(s: &Option<String>) -> (r: Option<String>)
    ensures
        opt_view(r) == opt_view(*s),
{
    match s {
        Some(t) => Some(owned(t.as_str())),
        None => None,
    }
}

fn copy_texts(v: &Vec<String>) -> (r: Vec<String>)
    ensures
        r@.map_values(|t: String| t@) == v@.map_values(|t: String| t@),
{
    let mut r: Vec<String> = Vec::new();
    let mut i: usize = 0;
    while i < v.len()
        invariant
            i <= v@.len(),
            r@.map_values(|t: String| t@) =~= v@.map_values(|t: String| t@).take(i as int),
        decreases v@.len() - i,
    {
        r.push(owned(v[i].as_str()));
        proof {
            let ts = v@.map_values(|t: String| t@);
            assert(ts.take(i + 1) =~= ts.take(i as int).push(ts[i as int]));
        }
        i = i + 1;
    }
    assert(v@.map_values(|t: String| t@).take(v@.len() as int) =~= v@.map_values(|t: String| t@));
    r
}

fn copy_controls(v: &Vec<ControlType>) -> (r: Vec<ControlType>)
    ensures
        r@ == v@,
{
    let mut r: Vec<ControlType> = Vec::new();
    let mut i: usize = 0;
    while i < v.len()
        invariant
            i <= v@.len(),
            r@ =~= v@.take(i as int),
        decreases v@.len() - i,
    {
        r.push(v[i]);
        assert(v@.take(i + 1) =~= v@.take(i as int).push(v@[i as int]));
        i = i + 1;
    }
    assert(v@.take(v@.len() as int) =~= v@);
    r
}

fn copy_protocols(v: &Vec<Protocol>) -> (r: Vec<Protocol>)
    ensures
        r@ == v@,
{
    let mut r: Vec<Protocol> = Vec::new();
    let mut i: usize = 0;
    while i < v.len()
        invariant
            i <= v@.len(),
            r@ =~= v@.take(i as int),
        decreases v@.len() - i,
    {
        r.push(v[i]);
        assert(v@.take(i + 1) =~= v@.take(i as int).push(v@[i as int]));
        i = i + 1;
    }
    assert(v@.take(v@.len() as int) =~= v@);
    r
}

/// A role in file form: a minimum of zero security controls is left out.
pub open spec fn requirement_doc_of(r: RequirementV) -> RequirementDocV {
    RequirementDocV {
        role: r.role,
        node_type: r.node_type,
        description: r.description,
        min_security_controls: if r.min_security_controls == 0 {
            None
        } else {
            Some(r.min_security_controls)
        },
        requires_controls: r.required_control_types,
        requires_protocols: r.required_protocols,
    }
}

/// A required relationship in file form.
pub open spec fn required_relationship_doc_of(r: RequiredRelationshipV) -> RequiredRelationshipDocV {
    RequiredRelationshipDocV {
        source: r.source,
        target: r.target,
        relationship_type: r.relationship_type,
        description: r.description,
    }
}

/// A pattern in file form.
pub open spec fn pattern_doc_of(p: PatternV) -> PatternDocV {
    PatternDocV {
        name: p.name,
        version: p.version,
        description: p.description,
        requirements: p.requirements.map_values(|r: RequirementV| requirement_doc_of(r)),
        relationships: p.relationships.map_values(|r: RequiredRelationshipV| required_relationship_doc_of(r)),
        satisfies: p.satisfies,
        metadata: p.metadata,
    }
}

/// Renders a pattern back into file form.
pub fn from_pattern(p: &Pattern) -> (d: PatternDocModel)
    ensures
        d@ == pattern_doc_of(p@),
{
    let ghost want = pattern_doc_of(p@);
    let mut requirements: Vec<RequirementDocModel> = Vec::new();
    let mut i: usize = 0;
    while i < p.requirements.len()
        invariant
            i <= p.requirements@.len(),
            want == pattern_doc_of(p@),
            want.requirements.len() == p.requirements@.len(),
            requirements@.map_values(|r: RequirementDocModel| r@) =~= want.requirements.take(i as int),
        decreases p.requirements.len() - i,
    {
        let r = &p.requirements[i];
        assert(want.requirements[i as int] == requirement_doc_of(r@));
        requirements.push(
            RequirementDocModel {
                role: owned(r.role.as_str()),
                node_type: r.node_type,
                description: copy_text(&r.description),
                min_security_controls: if r.min_security_controls == 0 {
                    None
                } else {
                    Some(r.min_security_controls)
                },
                requires_controls: copy_controls(&r.required_control_types),
                requires_protocols: copy_protocols(&r.required_protocols),
            },
        );
        assert(want.requirements.take(i + 1) =~= want.requirements.take(i as int).push(want.requirements[i as int]));
        i = i + 1;
    }
    assert(want.requirements.take(p.requirements@.len() as int) =~= want.requirements);
    let mut relationships: Vec<RequiredRelationshipDocModel> = Vec::new();
    let mut k: usize = 0;
    while k < p.relationships.len()
        invariant
            k <= p.relationships@.len(),
            want == pattern_doc_of(p@),
            want.relationships.len() == p.relationships@.len(),
            relationships@.map_values(|r: RequiredRelationshipDocModel| r@) =~= want.relationships.take(k as int),
        decreases p.relationships.len() - k,
    {
        let r = &p.relationships[k];
        assert(want.relationships[k as int] == required_relationship_doc_of(r@));
        relationships.push(
            RequiredRelationshipDocModel {
                source: owned(r.source.as_str()),
                target: owned(r.target.as_str()),
                relationship_type: r.relationship_type,
                description: copy_text(&r.description),
            },
        );
        assert(want.relationships.take(k + 1) =~= want.relationships.take(k as int).push(want.relationships[k as int]));
        k = k + 1;
    }
    assert(want.relationships.take(p.relationships@.len() as int) =~= want.relationships);
    let d = PatternDocModel {
        name: owned(p.name.as_str()),
        version: owned(p.version.as_str()),
        description: copy_text(&p.description),
        requirements,
        relationships,
        satisfies: copy_texts(&p.satisfies),
        metadata: p.metadata.clone(),
    };
    assert(d@.requirements =~= want.requirements);
    assert(d@.relationships =~= want.relationships);
    d
}

/// Whether a pattern is one reading a file could give: every role named and
/// required once, every required relationship between two different
/// declared roles, a name a reference can carry, a semantic version.
pub open spec fn pattern_sound(p: PatternV) -> bool {
    &&& forall|i: int| 0 <= i < p.requirements.len() ==> (#[trigger] p.requirements[i]).role.len() > 0
    &&& forall|i: int, j: int|
        0 <= i < j < p.requirements.len() ==> #[trigger] p.requirements[i].role != #[trigger] p.requirements[j].role
    &&& forall|i: int|
        0 <= i < p.relationships.len() ==> {
            let r = #[trigger] p.relationships[i];
            &&& r.source != r.target
            &&& exists|k: int| 0 <= k < p.requirements.len() && (#[trigger] p.requirements[k]).role == r.source
            &&& exists|k: int| 0 <= k < p.requirements.len() && (#[trigger] p.requirements[k]).role == r.target
        }
    &&& pattern_name_ok(p.name)
    &&& is_semver(p.version)
}

/// Writing a sound pattern back to file form and reading it again gives the
/// same pattern: the file form is faithful in every format.
pub proof fn law_pattern_round_trip(p: PatternV, path: Seq<char>, r: Result<Pattern, ParseError>)
    requires
        pattern_sound(p),
        into_pattern_ok(pattern_doc_of(p), path, r),
    ensures
        r matches Ok(q) && q@ == p,
{
    let d = pattern_doc_of(p);
    assert forall|i: int| 0 <= i < d.requirements.len() implies !unnamed()(#[trigger] d.requirements[i]) by {
        assert(p.requirements[i].role.len() > 0);
    }
    lemma_first_match_is(d.requirements, unnamed(), d.requirements.len() as int);
    assert forall|i: int| 0 <= i < d.relationships.len() implies !to_itself()(#[trigger] d.relationships[i]) by {
        assert(p.relationships[i].source != p.relationships[i].target);
    }
    lemma_first_match_is(d.relationships, to_itself(), d.relationships.len() as int);
    let flags = repeated_roles(d.requirements);
    assert forall|j: int| 0 <= j < flags.len() implies !(#[trigger] flags[j]) by {
        if flags[j] {
            let q = choose|q: int| 0 <= q < j && d.requirements[q].role == d.requirements[j].role;
            assert(p.requirements[q].role != p.requirements[j].role);
        }
    }
    lemma_first_match_is(flags, |b: bool| b, flags.len() as int);
    let unknown = names_unknown(d.requirements);
    assert forall|i: int| 0 <= i < d.relationships.len() implies !unknown(#[trigger] d.relationships[i]) by {
        let rr = p.relationships[i];
        let ks = choose|k: int| 0 <= k < p.requirements.len() && (#[trigger] p.requirements[k]).role == rr.source;
        let kt = choose|k: int| 0 <= k < p.requirements.len() && (#[trigger] p.requirements[k]).role == rr.target;
        assert(d.requirements[ks].role == rr.source);
        assert(d.requirements[kt].role == rr.target);
    }
    lemma_first_match_is(d.relationships, unknown, d.relationships.len() as int);
    let q = pattern_of(d);
    assert forall|i: int| 0 <= i < q.requirements.len() implies #[trigger] q.requirements[i] == p.requirements[i] by {
    }
    assert(q.requirements =~= p.requirements);
    assert(q.relationships =~= p.relationships);
}

} // verus!
