//! Patterns: named, versioned shapes an architecture can claim to conform
//! to. A pattern names roles, each filled by a node of a given type, and the
//! relationships required between roles.
use vstd::prelude::*;

use crate::architecture::{opt_view, ControlType, NodeType, Protocol, RelationshipType};
use crate::record::Attributes;
use crate::chars::{concat_strs, joined};

verus! {

/// A role a pattern requires to be filled.
#[derive(Clone, Debug, PartialEq, Eq)]
pub struct Requirement {
    /// The role's name, such as `edge`.
    pub role: String,
    /// The type of node that must fill it.
    pub node_type: NodeType,
    /// What the role is for.
    pub description: Option<String>,
    /// The fewest `security` controls the filling node must declare.
    pub min_security_controls: usize,
    /// Control types the filling node must declare at least one of each.
    pub required_control_types: Vec<ControlType>,
    /// Protocols the filling node must offer an interface for.
    pub required_protocols: Vec<Protocol>,
}

/// The model of a [`Requirement`].
pub struct RequirementV {
    pub role: Seq<char>,
    pub node_type: NodeType,
    pub description: Option<Seq<char>>,
    pub min_security_controls: usize,
    pub required_control_types: Seq<ControlType>,
    pub required_protocols: Seq<Protocol>,
}

impl View for Requirement {
    type V = RequirementV;

    open spec fn view(&self) -> RequirementV {
        RequirementV {
            role: self.role@,
            node_type: self.node_type,
            description: opt_view(self.description),
            min_security_controls: self.min_security_controls,
            required_control_types: self.required_control_types@,
            required_protocols: self.required_protocols@,
        }
    }
}

/// A relationship a pattern requires between two of its roles.
#[derive(Clone, Debug, PartialEq, Eq)]
pub struct RequiredRelationship {
    /// The calling role.
    pub source: String,
    /// The called role.
    pub target: String,
    /// The type the relationship must have.
    pub relationship_type: RelationshipType,
    /// What the edge is for.
    pub description: Option<String>,
}

/// The model of a [`RequiredRelationship`].
pub struct RequiredRelationshipV {
    pub source: Seq<char>,
    pub target: Seq<char>,
    pub relationship_type: RelationshipType,
    pub description: Option<Seq<char>>,
}

impl View for RequiredRelationship {
    type V = RequiredRelationshipV;

    open spec fn view(&self) -> RequiredRelationshipV {
        RequiredRelationshipV {
            source: self.source@,
            target: self.target@,
            relationship_type: self.relationship_type,
            description: opt_view(self.description),
        }
    }
}

/// A pattern.
#[derive(Clone, Debug, PartialEq, Eq)]
pub struct Pattern {
    /// The pattern's name.
    pub name: String,
    /// Its semantic version.
    pub version: String,
    /// What the pattern is for.
    pub description: Option<String>,
    /// The roles it requires, in declaration order.
    pub requirements: Vec<Requirement>,
    /// The relationships it requires between roles, in declaration order.
    pub relationships: Vec<RequiredRelationship>,
    /// Standards that conforming to the pattern helps satisfy.
    pub satisfies: Vec<String>,
    /// Free-form annotations, one value per key, in key order.
    pub metadata: Attributes,
}

/// The model of a [`Pattern`].
pub struct PatternV {
    pub name: Seq<char>,
    pub version: Seq<char>,
    pub description: Option<Seq<char>>,
    pub requirements: Seq<RequirementV>,
    pub relationships: Seq<RequiredRelationshipV>,
    pub satisfies: Seq<Seq<char>>,
    pub metadata: Seq<(Seq<char>, Seq<char>)>,
}

impl View for Pattern {
    type V = PatternV;

    open spec fn view(&self) -> PatternV {
        PatternV {
            name: self.name@,
            version: self.version@,
            description: opt_view(self.description),
            requirements: self.requirements@.map_values(|r: Requirement| r@),
            relationships: self.relationships@.map_values(|r: RequiredRelationship| r@),
            satisfies: self.satisfies@.map_values(|t: String| t@),
            metadata: self.metadata@,
        }
    }
}

/// How a pattern is referred to: `name@version`.
pub open spec fn reference_of(p: PatternV) -> Seq<char> {
    p.name + "@"@ + p.version
}

impl Pattern {
    /// How the pattern is referred to: `name@version`.
    pub fn reference(&self) -> (s: String)
        ensures
            s@ == reference_of(self@),
    {
        let s = concat_strs(&[self.name.as_str(), "@", self.version.as_str()]);
        proof {
            reveal_with_fuel(joined, 4);
        }
        s
    }
}

} // verus!
