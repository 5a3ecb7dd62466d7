//! The authoring grammar of an architecture and its resolution into the
//! model: nodes by name, relationships naming nodes by name or identifier,
//! identifiers written as UUIDs. This is the single gate where the permissive
//! shape an author writes becomes an architecture the validator reads.
use vstd::prelude::*;

use vstd::arithmetic::power::pow;

use sha3::Digest;

use crate::architecture::{
    node_with_id, Conformance, ConformanceV, opt_view, Architecture, ArchitectureV, Control, ControlV, Interface, InterfaceV, Node, NodeType, NodeV, Protocol,
    Relationship, RelationshipV,
};
use crate::chars::{chars_of, concat_strs, joined, owned, str_eq};
use crate::error::ParseError;
use crate::resolve::{
    emit_relationships, emitted, endpoints_declared, law_emitted_relationships_resolve_back, names_unique,
    copy_controls, doc_resolves, endpoint_ok, node_views, resolve_relationships, lookup_spec, resolved_relationship, RelationshipDoc, RelationshipDocV};
use crate::seqs::{first_match, lemma_first_match_is};
use crate::record::Attributes;
use crate::conformance::{
    all_claims_resolve, claim_resolves, claim_valid, claims_error, emit_claim, lemma_emitted_claim_resolves_back,
    resolved_claim, emitted_claim, resolve_claims, resolved_claims, ConformanceDocModel,
    ConformanceDocV,
};
use crate::diagnostic::NodeId;
use crate::fmt::{digit_char, hex_bytes, hex_bytes_string, hex_padded, uuid_string, uuid_text};

verus! {

/// The value of a hexadecimal digit, either case.
pub open spec fn hex_digit_value(c: char) -> Option<nat> {
    if '0' <= c && c <= '9' {
        Some((c as u32 - 48) as nat)
    } else if 'a' <= c && c <= 'f' {
        Some((c as u32 - 87) as nat)
    } else if 'A' <= c && c <= 'F' {
        Some((c as u32 - 55) as nat)
    } else {
        None
    }
}

/// The value of a run of hexadecimal digits, most significant first.
pub open spec fn hex_value(s: Seq<char>) -> Option<nat>
    decreases s.len(),
{
    if s.len() == 0 {
        Some(0)
    } else {
        match (hex_value(s.drop_last()), hex_digit_value(s.last())) {
            (Some(v), Some(d)) => Some(v * 16 + d),
            _ => None,
        }
    }
}

/// The thirty-two digits of an identifier written as a UUID, hyphens
/// removed.
pub open spec fn uuid_digits(text: Seq<char>) -> Seq<char> {
    text.subrange(0, 8) + text.subrange(9, 13) + text.subrange(14, 18) + text.subrange(19, 23)
        + text.subrange(24, 36)
}

/// Whether `text` is shaped as a hyphenated UUID.
pub open spec fn uuid_shaped(text: Seq<char>) -> bool {
    &&& text.len() == 36
    &&& text[8] == '-' && text[13] == '-' && text[18] == '-' && text[23] == '-'
}

/// Whether thirty-two UUID digits carry version 7 and the RFC variant: the
/// thirteenth digit is `7`, the seventeenth one of `8`, `9`, `a`, `b`.
pub open spec fn version_seven(digits: Seq<char>) -> bool {
    &&& digits[12] == '7'
    &&& (digits[16] == '8' || digits[16] == '9' || digits[16] == 'a' || digits[16] == 'b'
        || digits[16] == 'A' || digits[16] == 'B')
}

/// The node identifier `text` writes: a hyphenated UUID of version 7, in
/// either case.
pub open spec fn parse_node_id_spec(text: Seq<char>) -> Option<NodeId> {
    if uuid_shaped(text) && version_seven(uuid_digits(text)) {
        match hex_value(uuid_digits(text)) {
            Some(v) => Some(NodeId(v as u128)),
            None => None,
        }
    } else {
        None
    }
}

/// A run of hexadecimal digits is below sixteen to its length.
proof fn lemma_hex_value_bound(s: Seq<char>)
    ensures
        hex_value(s) matches Some(v) ==> v < pow(16, s.len()),
    decreases s.len(),
{
    reveal(pow);
    if s.len() > 0 {
        lemma_hex_value_bound(s.drop_last());
        if let Some(v) = hex_value(s) {
            let p = pow(16, (s.len() - 1) as nat);
            let w = hex_value(s.drop_last())->0;
            let d = hex_digit_value(s.last())->0;
            assert(d < 16);
            assert(w < p);
            assert(w * 16 + d < p * 16) by (nonlinear_arith)
                requires
                    w < p,
                    d < 16,
            ;
        }
    }
}

/// Sixteen to the thirty-second is two to the hundred and twenty-eighth.
proof fn lemma_pow16_32()
    ensures
        pow(16, 32) == 340282366920938463463374607431768211456nat,
{
    reveal_with_fuel(pow, 33);
}

/// The digit written for `d` reads back as `d`.
proof fn lemma_digit_value(d: nat)
    requires
        d < 16,
    ensures
        hex_digit_value(digit_char(d)) == Some(d),
{
}

/// The digits that write a value, padded to the same width, are the
/// lowercase forms of the digits read.
proof fn lemma_hex_padded_of_value(s: Seq<char>)
    requires
        hex_value(s) is Some,
    ensures
        forall|k: int|
            0 <= k < s.len() ==> {
                &&& hex_digit_value(#[trigger] s[k]) matches Some(d)
                &&& d < 16
                &&& hex_padded(hex_value(s).unwrap(), s.len())[k] == digit_char(d)
            },
    decreases s.len(),
{
    if s.len() > 0 {
        let init = s.drop_last();
        lemma_hex_padded_of_value(init);
        let v0 = hex_value(init).unwrap();
        let d = hex_digit_value(s.last()).unwrap();
        let v = hex_value(s).unwrap();
        assert(d < 16);
        assert(v == v0 * 16 + d);
        assert(v / 16 == v0 && v % 16 == d) by (nonlinear_arith)
            requires
                v == v0 * 16 + d,
                d < 16,
        ;
        let h = hex_padded(v, s.len());
        crate::fmt::lemma_hex_len(v0, init.len());
        assert(h == hex_padded(v0, init.len()) + seq![digit_char(d)]);
        assert forall|k: int| 0 <= k < s.len() implies {
            &&& hex_digit_value(#[trigger] s[k]) matches Some(e)
            &&& e < 16
            &&& h[k] == digit_char(e)
        } by {
            if k < init.len() {
                assert(s[k] == init[k]);
                assert(h[k] == hex_padded(v0, init.len())[k]);
            } else {
                assert(s[k] == s.last());
                assert(h[k] == digit_char(d));
            }
        }
    }
}

/// An identifier read from a version-7 UUID writes back as one.
proof fn lemma_parsed_id_version_seven(t: Seq<char>)
    requires
        parse_node_id_spec(t) is Some,
    ensures
        version_seven(hex_padded(parse_node_id_spec(t).unwrap().0 as nat, 32)),
{
    let digits = uuid_digits(t);
    let v = hex_value(digits).unwrap();
    lemma_hex_value_bound(digits);
    lemma_pow16_32();
    assert(digits.len() == 32);
    lemma_hex_padded_of_value(digits);
    let h = hex_padded(v, 32);
    assert(parse_node_id_spec(t).unwrap().0 as nat == v);
    assert(hex_digit_value(digits[12]) == Some(7nat));
    assert(h[12] == digit_char(7));
    let e = hex_digit_value(digits[16]).unwrap();
    assert(8 <= e <= 11);
    assert(h[16] == digit_char(e));
}

/// Padded hexadecimal digits read back as the number they write.
proof fn lemma_hex_round_trip(n: nat, width: nat)
    requires
        n < pow(16, width),
    ensures
        hex_value(hex_padded(n, width)) == Some(n),
    decreases width,
{
    reveal(pow);
    if width == 0 {
    } else {
        let p = pow(16, (width - 1) as nat);
        assert(n / 16 < p) by (nonlinear_arith)
            requires
                n < 16 * p,
        ;
        lemma_hex_round_trip(n / 16, (width - 1) as nat);
        lemma_digit_value(n % 16);
        let s = hex_padded(n, width);
        assert(s.drop_last() =~= hex_padded(n / 16, (width - 1) as nat));
        assert(n == (n / 16) * 16 + n % 16) by (nonlinear_arith);
    }
}

/// An identifier written as a UUID of version 7 reads back as itself.
pub proof fn lemma_node_id_round_trip(id: NodeId)
    requires
        version_seven(hex_padded(id.0 as nat, 32)),
    ensures
        parse_node_id_spec(uuid_text(id.0)) == Some(id),
{
    let t = uuid_text(id.0);
    let h = hex_padded(id.0 as nat, 32);
    crate::fmt::lemma_hex_len(id.0 as nat, 32);
    assert(uuid_digits(t) =~= h);
    lemma_pow16_32();
    lemma_hex_round_trip(id.0 as nat, 32);
}

/// The value of a hexadecimal digit, either case.
fn hex_digit(c: char) -> (r: Option<u128>)
    ensures
        match hex_digit_value(c) {
            Some(v) => r == Some(v as u128),
            None => r is None,
        },
{
    if '0' <= c && c <= '9' {
        Some((c as u32 - 48) as u128)
    } else if 'a' <= c && c <= 'f' {
        Some((c as u32 - 87) as u128)
    } else if 'A' <= c && c <= 'F' {
        Some((c as u32 - 55) as u128)
    } else {
        None
    }
}

/// Reads a node identifier written as a hyphenated UUID of version 7.
pub fn parse_node_id(text: &str) -> (r: Option<NodeId>)
    ensures
        r == parse_node_id_spec(text@),
{
    let cs = chars_of(text);
    if cs.len() != 36 || cs[8] != '-' || cs[13] != '-' || cs[18] != '-' || cs[23] != '-' {
        return None;
    }
    let mut digits: Vec<char> = Vec::new();
    let mut i: usize = 0;
    while i < 36
        invariant
            cs@ == text@,
            cs@.len() == 36,
            i <= 36,
            digits@ == uuid_digits(cs@).take(
                if i <= 8 { i as int } else if i <= 13 { i - 1 } else if i <= 18 { i - 2 } else if i <= 23 {
                    i - 3
                } else {
                    i - 4
                },
            ),
        decreases 36 - i,
    {
        if i != 8 && i != 13 && i != 18 && i != 23 {
            digits.push(cs[i]);
        }
        i = i + 1;
        proof {
            let u = uuid_digits(cs@);
            assert(u.len() == 32);
            assert(digits@ =~= u.take(
                if i <= 8 { i as int } else if i <= 13 { i - 1 } else if i <= 18 { i - 2 } else if i <= 23 {
                    i - 3
                } else {
                    i - 4
                },
            ));
        }
    }
    let ghost u = uuid_digits(cs@);
    assert(digits@ =~= u);
    let variant = digits[16];
    if digits[12] != '7' || !(variant == '8' || variant == '9' || variant == 'a' || variant == 'b'
        || variant == 'A' || variant == 'B') {
        return None;
    }
    let mut value: u128 = 0;
    let mut k: usize = 0;
    while k < 32
        invariant
            k <= 32,
            digits@ == u,
            u.len() == 32,
            u == uuid_digits(text@),
            uuid_shaped(text@),
            version_seven(u),
            hex_value(u.take(k as int)) == Some(value as nat),
        decreases 32 - k,
    {
        assert(u.take(k + 1).drop_last() =~= u.take(k as int));
        match hex_digit(digits[k]) {
            Some(d) => {
                proof {
                    lemma_hex_value_bound(u.take(k + 1));
                    lemma_pow16_32();
                    vstd::arithmetic::power::lemma_pow_increases(16, (k + 1) as nat, 32);
                }
                value = value * 16 + d;
            },
            None => {
                proof {
                    lemma_hex_none_extends(u, k as int + 1);
                }
                return None;
            },
        }
        k = k + 1;
    }
    assert(u.take(32) =~= u);
    Some(NodeId(value))
}

/// A run with a non-digit has no value, however it continues.
proof fn lemma_hex_none_extends(s: Seq<char>, k: int)
    requires
        0 <= k <= s.len(),
        hex_value(s.take(k)) is None,
    ensures
        hex_value(s) is None,
    decreases s.len() - k,
{
    if k < s.len() {
        assert(s.take(k + 1).drop_last() =~= s.take(k));
        lemma_hex_none_extends(s, k + 1);
    } else {
        assert(s.take(k) =~= s);
    }
}

// ---------------------------------------------------------------------------
// The authoring grammar.

/// An interface as an author writes it.
#[derive(Clone, Debug, PartialEq, Eq)]
pub struct InterfaceDoc {
    /// The interface's name, unique within its node.
    pub name: String,
    /// The wire protocol.
    pub protocol: Protocol,
    /// The contract's semantic version.
    pub version: String,
    /// Inline contract text.
    pub schema: Option<String>,
    /// A pinned contract digest, as 64 lowercase hexadecimal characters.
    pub schema_hash: Option<String>,
    /// What the interface is for.
    pub description: Option<String>,
}

/// The model of an [`InterfaceDoc`].
pub struct InterfaceDocV {
    pub name: Seq<char>,
    pub protocol: Protocol,
    pub version: Seq<char>,
    pub schema: Option<Seq<char>>,
    pub schema_hash: Option<Seq<char>>,
    pub description: Option<Seq<char>>,
}

impl View for InterfaceDoc {
    type V = InterfaceDocV;

    open spec fn view(&self) -> InterfaceDocV {
        InterfaceDocV {
            name: self.name@,
            protocol: self.protocol,
            version: self.version@,
            schema: opt_view(self.schema),
            schema_hash: opt_view(self.schema_hash),
            description: opt_view(self.description),
        }
    }
}

/// A node as an author writes it.
#[derive(Clone, Debug, PartialEq, Eq)]
pub struct NodeDoc {
    /// The node's name, unique within the architecture.
    pub name: String,
    /// The node's architectural role.
    pub node_type: NodeType,
    /// An explicit identifier, written as a UUID; minted when omitted.
    pub id: Option<String>,
    /// What the node is.
    pub description: Option<String>,
    /// The interfaces it exposes.
    pub interfaces: Vec<InterfaceDoc>,
    /// The controls it is asserted to satisfy.
    pub controls: Vec<Control>,
    /// Free-form annotations, one value per key, in key order.
    pub metadata: Attributes,
}

/// The model of a [`NodeDoc`].
pub struct NodeDocV {
    pub name: Seq<char>,
    pub node_type: NodeType,
    pub id: Option<Seq<char>>,
    pub description: Option<Seq<char>>,
    pub interfaces: Seq<InterfaceDocV>,
    pub controls: Seq<ControlV>,
    pub metadata: Seq<(Seq<char>, Seq<char>)>,
}

impl View for NodeDoc {
    type V = NodeDocV;

    open spec fn view(&self) -> NodeDocV {
        NodeDocV {
            name: self.name@,
            node_type: self.node_type,
            id: opt_view(self.id),
            description: opt_view(self.description),
            interfaces: self.interfaces@.map_values(|i: InterfaceDoc| i@),
            controls: self.controls@.map_values(|c: Control| c@),
            metadata: self.metadata@,
        }
    }
}

/// An architecture as an author writes it: nodes by name, relationships
/// naming their endpoints by name or identifier.
#[derive(Clone, Debug, PartialEq, Eq)]
pub struct DocumentModel {
    /// The architecture's name.
    pub name: String,
    /// Its semantic version.
    pub version: String,
    /// What it is.
    pub description: Option<String>,
    /// The participants, in declaration order.
    pub nodes: Vec<NodeDoc>,
    /// The directed edges between them, in declaration order.
    pub relationships: Vec<RelationshipDoc>,
    /// The patterns it claims to conform to, in declaration order.
    pub patterns: Vec<ConformanceDocModel>,
    /// Free-form annotations, one value per key, in key order.
    pub metadata: Attributes,
}

/// The model of a [`DocumentModel`].
pub struct DocumentModelV {
    pub name: Seq<char>,
    pub version: Seq<char>,
    pub description: Option<Seq<char>>,
    pub nodes: Seq<NodeDocV>,
    pub relationships: Seq<RelationshipDocV>,
    pub patterns: Seq<ConformanceDocV>,
    pub metadata: Seq<(Seq<char>, Seq<char>)>,
}

impl View for DocumentModel {
    type V = DocumentModelV;

    open spec fn view(&self) -> DocumentModelV {
        DocumentModelV {
            name: self.name@,
            version: self.version@,
            description: opt_view(self.description),
            nodes: self.nodes@.map_values(|n: NodeDoc| n@),
            relationships: self.relationships@.map_values(|r: RelationshipDoc| r@),
            patterns: self.patterns@.map_values(|c: ConformanceDocModel| c@),
            metadata: self.metadata@,
        }
    }
}

// ---------------------------------------------------------------------------
// What a document resolves to.

/// Whether `h` is a contract digest: 64 lowercase hexadecimal characters.
pub open spec fn is_schema_hash(h: Seq<char>) -> bool {
    &&& h.len() == 64
    &&& forall|i: int| 0 <= i < h.len() ==> ('0' <= #[trigger] h[i] && h[i] <= '9') || ('a' <= h[i] && h[i] <= 'f')
}

/// What is wrong with a node as written, if anything.
pub enum NodeFault {
    /// Its explicit identifier is not a UUID of version 7.
    BadId,
    /// Interface `k` declares both an inline schema and a pinned digest.
    BothSchemas(usize),
    /// Interface `k` pins a digest that is not 64 lowercase hexadecimal
    /// characters.
    BadHash(usize),
}

/// Whether an interface as written is at fault.
pub open spec fn interface_faulty(i: InterfaceDocV) -> bool {
    (i.schema is Some && i.schema_hash is Some) || (i.schema_hash matches Some(h) && !is_schema_hash(h))
}

/// Interfaces at fault.
pub open spec fn faulty_interface() -> spec_fn(InterfaceDocV) -> bool {
    |i: InterfaceDocV| interface_faulty(i)
}

/// The first thing wrong with a node as written: its identifier, then its
/// interfaces in order.
pub open spec fn node_fault(d: NodeDocV) -> Option<NodeFault> {
    if d.id matches Some(t) && parse_node_id_spec(t) is None {
        Some(NodeFault::BadId)
    } else {
        let k = first_match(d.interfaces, faulty_interface());
        if k < d.interfaces.len() {
            if d.interfaces[k].schema is Some && d.interfaces[k].schema_hash is Some {
                Some(NodeFault::BothSchemas(k as usize))
            } else {
                Some(NodeFault::BadHash(k as usize))
            }
        } else {
            None
        }
    }
}

/// Nodes at fault.
pub open spec fn faulty_node() -> spec_fn(NodeDocV) -> bool {
    |d: NodeDocV| node_fault(d) is Some
}

/// The message reporting fault `f` of node `d`.
pub open spec fn fault_message(d: NodeDocV, f: NodeFault) -> Seq<char> {
    match f {
        NodeFault::BadId => "node '"@ + d.name + "': '"@ + d.id->0 + "' is not a UUIDv7 node id"@,
        NodeFault::BothSchemas(k) => "interface '"@ + d.interfaces[k as int].name + "' on node '"@ + d.name
            + "' declares both 'schema' and 'schema-hash'"@,
        NodeFault::BadHash(k) => "interface '"@ + d.interfaces[k as int].name + "' on node '"@ + d.name
            + "' has an invalid schema-hash: expected 64 lowercase hexadecimal characters"@,
    }
}

/// The suggestion attached to fault `f`.
pub open spec fn fault_suggestion(f: NodeFault) -> Seq<char> {
    match f {
        NodeFault::BadId => "omit 'id' to have CASIMIR generate a valid UUIDv7 for you"@,
        NodeFault::BothSchemas(_) => "keep 'schema' to hash inline content, or 'schema-hash' to pin a known digest — not both"@,
        NodeFault::BadHash(_) => "a schema hash is 64 lowercase hexadecimal characters (SHA3-256)"@,
    }
}

/// Whether `e` reports, against `path`, the error `message` with
/// `suggestion`.
pub open spec fn semantic_error(e: ParseError, path: Seq<char>, message: Seq<char>, suggestion: Option<Seq<char>>) -> bool {
    e matches ParseError::Semantic { path: p, message: m, suggestion: s } && p@ == path && m@ == message
        && opt_view(s) == suggestion
}

/// An interface of the model, from its authored form.
pub open spec fn interface_of(i: InterfaceDocV) -> InterfaceV {
    InterfaceV {
        name: i.name,
        protocol: i.protocol,
        version: i.version,
        schema_hash: match i.schema {
            Some(content) => Some(schema_digest_spec(content)),
            None => i.schema_hash,
        },
        description: i.description,
    }
}

/// The node an authored node resolves to: its explicit identifier, or
/// `minted` when it has none.
pub open spec fn node_of(d: NodeDocV, minted: NodeId) -> NodeV {
    NodeV {
        id: match d.id {
            Some(t) => parse_node_id_spec(t)->0,
            None => minted,
        },
        name: d.name,
        node_type: d.node_type,
        description: d.description,
        interfaces: d.interfaces.map_values(|i: InterfaceDocV| interface_of(i)),
        controls: d.controls,
        metadata: d.metadata,
    }
}

/// The nodes of a document, the `i`th taking `minted[i]` when it names no
/// identifier.
pub open spec fn resolved_nodes(ds: Seq<NodeDocV>, minted: Seq<NodeId>) -> Seq<NodeV> {
    Seq::new(ds.len(), |i: int| node_of(ds[i], minted[i]))
}

/// The relationships of a document between `nodes`, every endpoint resolving.
pub open spec fn resolved_relationships(nodes: Seq<NodeV>, rs: Seq<RelationshipDocV>) -> Seq<RelationshipV> {
    Seq::new(
        rs.len(),
        |i: int|
            resolved_relationship(
                rs[i],
                lookup_spec(nodes, rs[i].source).unwrap(),
                lookup_spec(nodes, rs[i].target).unwrap(),
            ),
    )
}

/// Relationships from a node to itself.
pub open spec fn self_edge() -> spec_fn(RelationshipV) -> bool {
    |r: RelationshipV| r.source == r.target
}

/// For each node, whether an earlier node has its name.
pub open spec fn repeated_names(nodes: Seq<NodeV>) -> Seq<bool> {
    Seq::new(nodes.len(), |j: int| exists|i: int| 0 <= i < j && nodes[i].name == nodes[j].name)
}

/// Whether every relationship's endpoints resolve among `nodes`.
pub open spec fn all_endpoints_resolve(nodes: Seq<NodeV>, rs: Seq<RelationshipDocV>) -> bool {
    forall|i: int| 0 <= i < rs.len() ==> doc_resolves(nodes, #[trigger] rs[i])
}

/// The message refusing a relationship from a node to itself.
pub open spec fn self_edge_message(r: RelationshipDocV) -> Seq<char> {
    "relationship '"@ + r.source + "' -> '"@ + r.target + "': self-edges are not allowed"@
}

/// The message refusing a second node of the same name.
pub open spec fn repeated_name_message(name: Seq<char>) -> Seq<char> {
    "a node named '"@ + name + "' already exists"@
}

/// The architecture a document resolves to, when nothing is wrong with it.
pub open spec fn resolved_architecture(d: DocumentModelV, minted: Seq<NodeId>) -> ArchitectureV {
    let nodes = resolved_nodes(d.nodes, minted);
    ArchitectureV {
        name: d.name,
        version: d.version,
        description: d.description,
        nodes,
        relationships: resolved_relationships(nodes, d.relationships),
        conformance: resolved_claims(nodes, d.patterns),
        metadata: d.metadata,
    }
}

/// Whether nothing is wrong with a document: every node as written is
/// sound, every endpoint resolves, no relationship joins a node to itself,
/// and no two nodes share a name.
pub open spec fn document_resolves(d: DocumentModelV, minted: Seq<NodeId>) -> bool {
    let nodes = resolved_nodes(d.nodes, minted);
    &&& first_match(d.nodes, faulty_node()) == d.nodes.len()
    &&& all_endpoints_resolve(nodes, d.relationships)
    &&& all_claims_resolve(nodes, d.patterns)
    &&& first_match(resolved_relationships(nodes, d.relationships), self_edge()) == d.relationships.len()
    &&& first_match(repeated_names(nodes), |b: bool| b) == nodes.len()
}

// ---------------------------------------------------------------------------
// Contract digests.

/// The SHA3-256 digest of `bytes`.
pub uninterp spec fn sha3_256_of(bytes: Seq<u8>) -> Seq<u8>;

/// `sha3::Sha3_256::digest`, through the `Digest` trait: the result is the
/// named digest of the bytes handed over, and its length is the 32 bytes
/// that `Sha3_256`'s output size (`U32`) fixes.
#[verifier::external_body]
fn sha3_256(bytes: &[u8]) -> (r: Vec<u8>)
    ensures
        r@ == sha3_256_of(bytes@),
        r@.len() == 32,
{
    sha3::Sha3_256::digest(bytes).to_vec()
}

/// The digest recorded for inline contract text: SHA3-256 of its UTF-8
/// bytes, in lowercase hexadecimal.
pub open spec fn schema_digest_spec(content: Seq<char>) -> Seq<char> {
    hex_bytes(sha3_256_of(vstd::utf8::encode_utf8(content)))
}

/// The digest of inline contract text, computed when a document is read.
pub fn schema_digest(content: &str) -> (r: String)
    ensures
        r@ == schema_digest_spec(content@),
        is_schema_hash(r@),
{
    let d = sha3_256(content.as_bytes());
    proof {
        crate::fmt::lemma_hex_bytes_digits(d@);
    }
    hex_bytes_string(d.as_slice())
}

// ---------------------------------------------------------------------------
// Resolution, executed.

/// A copy of an optional text.
fn copy_opt(s: &Option<String>) -> (r: Option<String>)
    ensures
        opt_view(r) == opt_view(*s),
{
    match s {
        Some(t) => Some(owned(t.as_str())),
        None => None,
    }
}

/// Whether `h` is 64 lowercase hexadecimal characters.
fn is_schema_hash_exec(h: &str) -> (b: bool)
    ensures
        b == is_schema_hash(h@),
{
    let cs = chars_of(h);
    if cs.len() != 64 {
        return false;
    }
    let mut i: usize = 0;
    while i < cs.len()
        invariant
            cs@ == h@,
            i <= cs@.len(),
            forall|j: int| 0 <= j < i ==> ('0' <= #[trigger] cs@[j] && cs@[j] <= '9') || ('a' <= cs@[j] && cs@[j] <= 'f'),
        decreases cs.len() - i,
    {
        let c = cs[i];
        if !(('0' <= c && c <= '9') || ('a' <= c && c <= 'f')) {
            return false;
        }
        i = i + 1;
    }
    true
}

/// The error for fault `f` of node `d`, reported against `path`.
fn fault_error(path: &str, d: &NodeDoc, f: NodeFault) -> (e: ParseError)
    requires
        f is BadId ==> d@.id is Some,
        f matches NodeFault::BothSchemas(k) ==> 0 <= k < d@.interfaces.len(),
        f matches NodeFault::BadHash(k) ==> 0 <= k < d@.interfaces.len(),
    ensures
        semantic_error(e, path@, fault_message(d@, f), Some(fault_suggestion(f))),
{
    proof {
        reveal_with_fuel(joined, 6);
    }
    match f {
        NodeFault::BadId => {
            let raw = match &d.id {
                Some(t) => t.as_str(),
                None => "",
            };
            let message = concat_strs(&["node '", d.name.as_str(), "': '", raw, "' is not a UUIDv7 node id"]);
            ParseError::Semantic {
                path: owned(path),
                message,
                suggestion: Some(owned("omit 'id' to have CASIMIR generate a valid UUIDv7 for you")),
            }
        },
        NodeFault::BothSchemas(k) => {
            proof {
                assert(d@.interfaces[k as int] == d.interfaces@[k as int]@);
            }
            let message = concat_strs(
                &[
                    "interface '",
                    d.interfaces[k].name.as_str(),
                    "' on node '",
                    d.name.as_str(),
                    "' declares both 'schema' and 'schema-hash'",
                ],
            );
            ParseError::Semantic {
                path: owned(path),
                message,
                suggestion: Some(
                    owned("keep 'schema' to hash inline content, or 'schema-hash' to pin a known digest — not both"),
                ),
            }
        },
        NodeFault::BadHash(k) => {
            proof {
                assert(d@.interfaces[k as int] == d.interfaces@[k as int]@);
            }
            let message = concat_strs(
                &[
                    "interface '",
                    d.interfaces[k].name.as_str(),
                    "' on node '",
                    d.name.as_str(),
                    "' has an invalid schema-hash: expected 64 lowercase hexadecimal characters",
                ],
            );
            ParseError::Semantic {
                path: owned(path),
                message,
                suggestion: Some(owned("a schema hash is 64 lowercase hexadecimal characters (SHA3-256)")),
            }
        },
    }
}

/// Checks a node as written: its identifier, then its interfaces in order.
pub fn check_node(path: &str, d: &NodeDoc) -> (r: Result<(), ParseError>)
    ensures
        match node_fault(d@) {
            None => r is Ok,
            Some(f) => r matches Err(e) && semantic_error(e, path@, fault_message(d@, f), Some(fault_suggestion(f))),
        },
{
    if let Some(raw) = &d.id {
        if parse_node_id(raw.as_str()).is_none() {
            return Err(fault_error(path, d, NodeFault::BadId));
        }
    }
    let ghost is = d@.interfaces;
    let mut j: usize = 0;
    while j < d.interfaces.len()
        invariant
            j <= d.interfaces@.len(),
            is == d@.interfaces,
            is.len() == d.interfaces@.len(),
            d@.id matches Some(t) ==> parse_node_id_spec(t) is Some,
            forall|k: int| 0 <= k < j ==> !faulty_interface()(#[trigger] is[k]),
        decreases d.interfaces.len() - j,
    {
        let i = &d.interfaces[j];
        assert(is[j as int] == i@);
        if i.schema.is_some() && i.schema_hash.is_some() {
            proof {
                lemma_first_match_is(is, faulty_interface(), j as int);
            }
            return Err(fault_error(path, d, NodeFault::BothSchemas(j)));
        }
        if let Some(h) = &i.schema_hash {
            if !is_schema_hash_exec(h.as_str()) {
                proof {
                    lemma_first_match_is(is, faulty_interface(), j as int);
                }
                return Err(fault_error(path, d, NodeFault::BadHash(j)));
            }
        }
        j = j + 1;
    }
    proof {
        lemma_first_match_is(is, faulty_interface(), j as int);
    }
    Ok(())
}

/// The node a sound authored node resolves to.
pub fn build_node(d: &NodeDoc, minted: NodeId) -> (n: Node)
    requires
        node_fault(d@) is None,
    ensures
        n@ == node_of(d@, minted),
        forall|k: int|
            0 <= k < n@.interfaces.len() ==> ((#[trigger] n@.interfaces[k]).schema_hash matches Some(h) ==> is_schema_hash(h)),
{
    proof {
        crate::seqs::lemma_first_match(d@.interfaces, faulty_interface());
    }
    let id = match &d.id {
        Some(raw) => parse_node_id(raw.as_str()).unwrap(),
        None => minted,
    };
    let ghost want = d@.interfaces.map_values(|i: InterfaceDocV| interface_of(i));
    let mut interfaces: Vec<Interface> = Vec::new();
    let mut j: usize = 0;
    while j < d.interfaces.len()
        invariant
            j <= d.interfaces@.len(),
            want == d@.interfaces.map_values(|i: InterfaceDocV| interface_of(i)),
            interfaces@.map_values(|i: Interface| i@) =~= want.take(j as int),
            forall|k: int| 0 <= k < d@.interfaces.len() ==> !faulty_interface()(#[trigger] d@.interfaces[k]),
            forall|k: int| 0 <= k < j ==> ((#[trigger] want[k]).schema_hash matches Some(h) ==> is_schema_hash(h)),
        decreases d.interfaces.len() - j,
    {
        let i = &d.interfaces[j];
        assert(want[j as int] == interface_of(i@));
        let schema_hash = match &i.schema {
            Some(content) => Some(schema_digest(content.as_str())),
            None => copy_opt(&i.schema_hash),
        };
        interfaces.push(
            Interface {
                name: owned(i.name.as_str()),
                protocol: i.protocol,
                version: owned(i.version.as_str()),
                schema_hash,
                description: copy_opt(&i.description),
            },
        );
        assert(want.take(j + 1) =~= want.take(j as int).push(want[j as int]));
        j = j + 1;
    }
    assert(want.take(d.interfaces@.len() as int) =~= want);
    let n = Node {
        id,
        name: owned(d.name.as_str()),
        node_type: d.node_type,
        description: copy_opt(&d.description),
        interfaces,
        controls: copy_controls(&d.controls),
        metadata: d.metadata.clone(),
    };
    assert(n@.interfaces =~= want);
    n
}

/// Resolves a document into an architecture. Nodes come first, so that a
/// relationship may name a node declared anywhere in the document; a node
/// that names no identifier takes the one minted for its position. What is
/// refused, and with which error, is decided in this order: the first node
/// whose identifier or interfaces are malformed; the first relationship with
/// an endpoint that resolves to nothing; the first relationship from a node
/// to itself; the first node whose name an earlier node already has.
pub fn into_architecture(doc: &DocumentModel, path: &str, minted: &[NodeId]) -> (r: Result<Architecture, ParseError>)
    requires
        minted@.len() == doc@.nodes.len(),
        forall|i: int| 0 <= i < minted@.len() ==> version_seven(hex_padded((#[trigger] minted@[i]).0 as nat, 32)),
    ensures
        r matches Ok(a) ==> round_trip_ready(a@),
        ({
            let d = doc@;
            let nf = first_match(d.nodes, faulty_node());
            let ns = resolved_nodes(d.nodes, minted@);
            let rels = resolved_relationships(ns, d.relationships);
            let se = first_match(rels, self_edge());
            let dup = first_match(repeated_names(ns), |b: bool| b);
            if nf < d.nodes.len() {
                let f = node_fault(d.nodes[nf]).unwrap();
                r matches Err(e) && semantic_error(e, path@, fault_message(d.nodes[nf], f), Some(fault_suggestion(f)))
            } else if !all_endpoints_resolve(ns, d.relationships) {
                r matches Err(e) && exists|k: int| {
                    &&& 0 <= k < d.relationships.len()
                    &&& forall|j: int| 0 <= j < k ==> doc_resolves(ns, #[trigger] d.relationships[j])
                    &&& !doc_resolves(ns, d.relationships[k])
                    &&& if lookup_spec(ns, d.relationships[k].source) is None {
                        endpoint_ok(ns, path@, d.relationships[k].source, "source"@, Err(e))
                    } else {
                        endpoint_ok(ns, path@, d.relationships[k].target, "target"@, Err(e))
                    }
                }
            } else if !all_claims_resolve(ns, d.patterns) {
                r matches Err(e) && claims_error(ns, path@, d.patterns, e)
            } else if se < rels.len() {
                r matches Err(e) && semantic_error(e, path@, self_edge_message(d.relationships[se]), None)
            } else if dup < ns.len() {
                r matches Err(e) && semantic_error(e, path@, repeated_name_message(ns[dup].name), None)
            } else {
                &&& document_resolves(d, minted@)
                &&& r matches Ok(a) && a@ == resolved_architecture(d, minted@)
            }
        }),
{
    let ghost d = doc@;
    let ghost ns = resolved_nodes(d.nodes, minted@);
    let mut nodes: Vec<Node> = Vec::new();
    let mut i: usize = 0;
    while i < doc.nodes.len()
        invariant
            i <= doc.nodes@.len(),
            d == doc@,
            d.nodes.len() == doc.nodes@.len(),
            minted@.len() == d.nodes.len(),
            ns == resolved_nodes(d.nodes, minted@),
            forall|j: int| 0 <= j < i ==> !faulty_node()(#[trigger] d.nodes[j]),
            node_views(nodes@) =~= ns.take(i as int),
            hashes_valid(ns.take(i as int)),
        decreases doc.nodes.len() - i,
    {
        assert(d.nodes[i as int] == doc.nodes@[i as int]@);
        match check_node(path, &doc.nodes[i]) {
            Err(e) => {
                proof {
                    lemma_first_match_is(d.nodes, faulty_node(), i as int);
                }
                return Err(e);
            },
            Ok(()) => {},
        }
        let n = build_node(&doc.nodes[i], minted[i]);
        nodes.push(n);
        assert(ns.take(i + 1) =~= ns.take(i as int).push(ns[i as int]));
        assert(hashes_valid(ns.take(i + 1))) by {
            let t = ns.take(i + 1);
            assert forall|q: int, k: int| 0 <= q < t.len() && 0 <= k < t[q].interfaces.len() implies ((
            #[trigger] t[q].interfaces[k]).schema_hash matches Some(h) ==> is_schema_hash(h)) by {
                if q < i {
                    assert(t[q] == ns.take(i as int)[q]);
                } else {
                    assert(t[q] == n@);
                }
            }
        }
        i = i + 1;
    }
    proof {
        lemma_first_match_is(d.nodes, faulty_node(), i as int);
    }
    assert(node_views(nodes@) =~= ns);
    assert(ns.take(i as int) =~= ns);
    let rels = match resolve_relationships(path, nodes.as_slice(), doc.relationships.as_slice()) {
        Ok(v) => v,
        Err(e) => {
            proof {
                let k = choose|k: int| {
                    &&& 0 <= k < d.relationships.len()
                    &&& forall|j: int| 0 <= j < k ==> doc_resolves(ns, #[trigger] d.relationships[j])
                    &&& !doc_resolves(ns, d.relationships[k])
                    &&& if lookup_spec(ns, d.relationships[k].source) is None {
                        endpoint_ok(ns, path@, d.relationships[k].source, "source"@, Err(e))
                    } else {
                        endpoint_ok(ns, path@, d.relationships[k].target, "target"@, Err(e))
                    }
                };
                assert(!all_endpoints_resolve(ns, d.relationships));
            }
            return Err(e);
        },
    };
    let ghost rv = resolved_relationships(ns, d.relationships);
    proof {
        assert(rels@.map_values(|x: Relationship| x@) =~= rv);
        assert(all_endpoints_resolve(ns, d.relationships));
    }
    let claims = match resolve_claims(path, nodes.as_slice(), doc.patterns.as_slice()) {
        Ok(v) => v,
        Err(e) => {
            return Err(e);
        },
    };
    let ghost cv = resolved_claims(ns, d.patterns);
    assert(claims@.map_values(|c: Conformance| c@) == cv);
    let mut k: usize = 0;
    while k < rels.len()
        invariant
            k <= rels@.len(),
            rels@.map_values(|x: Relationship| x@) == rv,
            rv.len() == d.relationships.len(),
            d == doc@,
            ns == resolved_nodes(d.nodes, minted@),
            rv == resolved_relationships(ns, d.relationships),
            first_match(d.nodes, faulty_node()) == d.nodes.len(),
            all_endpoints_resolve(ns, d.relationships),
            all_claims_resolve(ns, d.patterns),
            hashes_valid(ns),
            forall|j: int| 0 <= j < k ==> !self_edge()(#[trigger] rv[j]),
        decreases rels.len() - k,
    {
        assert(rv[k as int] == rels@[k as int]@);
        if rels[k].source == rels[k].target {
            proof {
                lemma_first_match_is(rv, self_edge(), k as int);
                assert(d.relationships[k as int] == doc.relationships@[k as int]@);
            }
            let message = concat_strs(
                &[
                    "relationship '",
                    doc.relationships[k].source.as_str(),
                    "' -> '",
                    doc.relationships[k].target.as_str(),
                    "': self-edges are not allowed",
                ],
            );
            proof {
                reveal_with_fuel(joined, 6);
            }
            return Err(ParseError::Semantic { path: owned(path), message, suggestion: None });
        }
        k = k + 1;
    }
    proof {
        lemma_first_match_is(rv, self_edge(), k as int);
    }
    let ghost flags = repeated_names(ns);
    let mut j: usize = 0;
    while j < nodes.len()
        invariant
            j <= nodes@.len(),
            node_views(nodes@) == ns,
            ns.len() == nodes@.len(),
            flags == repeated_names(ns),
            d == doc@,
            ns == resolved_nodes(d.nodes, minted@),
            rv == resolved_relationships(ns, d.relationships),
            first_match(d.nodes, faulty_node()) == d.nodes.len(),
            all_endpoints_resolve(ns, d.relationships),
            all_claims_resolve(ns, d.patterns),
            hashes_valid(ns),
            first_match(rv, self_edge()) == rv.len(),
            forall|q: int| 0 <= q < j ==> !(#[trigger] flags[q]),
        decreases nodes.len() - j,
    {
        let mut p: usize = 0;
        while p < j
            invariant
                p <= j,
                j < nodes@.len(),
                node_views(nodes@) == ns,
                ns.len() == nodes@.len(),
                flags == repeated_names(ns),
                d == doc@,
                ns == resolved_nodes(d.nodes, minted@),
                rv == resolved_relationships(ns, d.relationships),
                first_match(d.nodes, faulty_node()) == d.nodes.len(),
                all_endpoints_resolve(ns, d.relationships),
                all_claims_resolve(ns, d.patterns),
                hashes_valid(ns),
                first_match(rv, self_edge()) == rv.len(),
                forall|q: int| 0 <= q < j ==> !(#[trigger] flags[q]),
                forall|q: int| 0 <= q < p ==> ns[q].name != ns[j as int].name,
            decreases j - p,
        {
            assert(ns[p as int] == nodes@[p as int]@);
            assert(ns[j as int] == nodes@[j as int]@);
            if str_eq(nodes[p].name.as_str(), nodes[j].name.as_str()) {
                proof {
                    assert(flags[j as int]);
                    lemma_first_match_is(flags, |b: bool| b, j as int);
                }
                let message = concat_strs(&["a node named '", nodes[j].name.as_str(), "' already exists"]);
                proof {
                    reveal_with_fuel(joined, 4);
                }
                return Err(ParseError::Semantic { path: owned(path), message, suggestion: None });
            }
            p = p + 1;
        }
        assert(!flags[j as int]) by {
            if flags[j as int] {
                let q = choose|q: int| 0 <= q < j && ns[q].name == ns[j as int].name;
                assert(ns[q].name != ns[j as int].name);
            }
        }
        j = j + 1;
    }
    proof {
        lemma_first_match_is(flags, |b: bool| b, j as int);
    }
    let a = Architecture {
        name: owned(doc.name.as_str()),
        version: owned(doc.version.as_str()),
        description: copy_opt(&doc.description),
        nodes,
        relationships: rels,
        conformance: claims,
        metadata: doc.metadata.clone(),
    };
    assert(a@.nodes =~= ns);
    assert(a@.relationships =~= rv);
    assert(a@.conformance =~= cv);
    proof {
        lemma_resolved_ready(d, minted@);
    }
    Ok(a)
}

// ---------------------------------------------------------------------------
// Back into authoring form.

/// A node in authoring form: its identifier always written, so a round trip
/// never mints new identifiers and breaks relationships written by
/// identifier.
pub open spec fn node_doc_of(n: NodeV) -> NodeDocV {
    NodeDocV {
        name: n.name,
        node_type: n.node_type,
        id: Some(uuid_text(n.id.0)),
        description: n.description,
        interfaces: n.interfaces.map_values(
            |i: InterfaceV|
                InterfaceDocV {
                    name: i.name,
                    protocol: i.protocol,
                    version: i.version,
                    schema: None,
                    schema_hash: i.schema_hash,
                    description: i.description,
                },
        ),
        controls: n.controls,
        metadata: n.metadata,
    }
}

/// An architecture in authoring form: nodes with their identifiers,
/// relationships naming their endpoints by name.
pub open spec fn emitted_document(a: ArchitectureV) -> DocumentModelV {
    DocumentModelV {
        name: a.name,
        version: a.version,
        description: a.description,
        nodes: a.nodes.map_values(|n: NodeV| node_doc_of(n)),
        relationships: a.relationships.map_values(|r: RelationshipV| emitted(a, r)),
        patterns: a.conformance.map_values(|c: ConformanceV| emitted_claim(a, c)),
        metadata: a.metadata,
    }
}

/// Renders a node back into authoring form.
fn node_doc(n: &Node) -> (d: NodeDoc)
    ensures
        d@ == node_doc_of(n@),
{
    let ghost want = node_doc_of(n@).interfaces;
    let mut interfaces: Vec<InterfaceDoc> = Vec::new();
    let mut j: usize = 0;
    while j < n.interfaces.len()
        invariant
            j <= n.interfaces@.len(),
            want == node_doc_of(n@).interfaces,
            want.len() == n.interfaces@.len(),
            interfaces@.map_values(|i: InterfaceDoc| i@) =~= want.take(j as int),
        decreases n.interfaces.len() - j,
    {
        let i = &n.interfaces[j];
        assert(n@.interfaces[j as int] == i@);
        interfaces.push(
            InterfaceDoc {
                name: owned(i.name.as_str()),
                protocol: i.protocol,
                version: owned(i.version.as_str()),
                schema: None,
                schema_hash: copy_opt(&i.schema_hash),
                description: copy_opt(&i.description),
            },
        );
        assert(want.take(j + 1) =~= want.take(j as int).push(want[j as int]));
        j = j + 1;
    }
    assert(want.take(n.interfaces@.len() as int) =~= want);
    let d = NodeDoc {
        name: owned(n.name.as_str()),
        node_type: n.node_type,
        id: Some(uuid_string(n.id.0)),
        description: copy_opt(&n.description),
        interfaces,
        controls: copy_controls(&n.controls),
        metadata: n.metadata.clone(),
    };
    assert(d@.interfaces =~= want);
    d
}

/// Renders an architecture back into authoring form: what an author would
/// have written, endpoints by name, so an emitted file stays reviewable.
pub fn from_architecture(a: &Architecture) -> (d: DocumentModel)
    ensures
        d@ == emitted_document(a@),
{
    let ghost want = emitted_document(a@).nodes;
    let mut nodes: Vec<NodeDoc> = Vec::new();
    let mut i: usize = 0;
    while i < a.nodes.len()
        invariant
            i <= a.nodes@.len(),
            want == emitted_document(a@).nodes,
            want.len() == a.nodes@.len(),
            nodes@.map_values(|n: NodeDoc| n@) =~= want.take(i as int),
        decreases a.nodes.len() - i,
    {
        assert(a@.nodes[i as int] == a.nodes@[i as int]@);
        nodes.push(node_doc(&a.nodes[i]));
        assert(want.take(i + 1) =~= want.take(i as int).push(want[i as int]));
        i = i + 1;
    }
    assert(want.take(a.nodes@.len() as int) =~= want);
    let ghost want_claims = emitted_document(a@).patterns;
    let mut patterns: Vec<ConformanceDocModel> = Vec::new();
    let mut k: usize = 0;
    while k < a.conformance.len()
        invariant
            k <= a.conformance@.len(),
            want_claims == emitted_document(a@).patterns,
            want_claims.len() == a.conformance@.len(),
            patterns@.map_values(|c: ConformanceDocModel| c@) =~= want_claims.take(k as int),
        decreases a.conformance.len() - k,
    {
        assert(a@.conformance[k as int] == a.conformance@[k as int]@);
        patterns.push(emit_claim(a, &a.conformance[k]));
        assert(want_claims.take(k + 1) =~= want_claims.take(k as int).push(want_claims[k as int]));
        k = k + 1;
    }
    assert(want_claims.take(a.conformance@.len() as int) =~= want_claims);
    let d = DocumentModel {
        name: owned(a.name.as_str()),
        version: owned(a.version.as_str()),
        description: copy_opt(&a.description),
        nodes,
        relationships: emit_relationships(a),
        patterns,
        metadata: a.metadata.clone(),
    };
    assert(d@.nodes =~= want);
    assert(d@.patterns =~= want_claims);
    d
}

/// Whether every contract digest `nodes` record is well formed.
pub open spec fn hashes_valid(nodes: Seq<NodeV>) -> bool {
    forall|i: int, k: int|
        0 <= i < nodes.len() && 0 <= k < nodes[i].interfaces.len() ==> ((
        #[trigger] nodes[i].interfaces[k]).schema_hash matches Some(h) ==> is_schema_hash(h))
}

/// Whether an architecture is one resolution could have produced with
/// identifiers of version 7: names distinct, endpoints declared, no node
/// joined to itself, every contract digest well formed, every claim valid.
pub open spec fn round_trip_ready(a: ArchitectureV) -> bool {
    &&& names_unique(a.nodes)
    &&& endpoints_declared(a)
    &&& forall|i: int| 0 <= i < a.nodes.len() ==> version_seven(hex_padded((#[trigger] a.nodes[i]).id.0 as nat, 32))
    &&& forall|i: int| 0 <= i < a.relationships.len() ==> (#[trigger] a.relationships[i]).source != a.relationships[i].target
    &&& hashes_valid(a.nodes)
    &&& forall|i: int| 0 <= i < a.conformance.len() ==> claim_valid(a, #[trigger] a.conformance[i])
}

/// What resolution produces is ready for the round trip: a document that
/// resolves, with identifiers minted of version 7 and well-formed digests,
/// gives an architecture whose emitted form resolves back to it.
pub proof fn lemma_resolved_ready(d: DocumentModelV, minted: Seq<NodeId>)
    requires
        minted.len() == d.nodes.len(),
        document_resolves(d, minted),
        hashes_valid(resolved_nodes(d.nodes, minted)),
        forall|i: int| 0 <= i < minted.len() ==> version_seven(hex_padded((#[trigger] minted[i]).0 as nat, 32)),
    ensures
        round_trip_ready(resolved_architecture(d, minted)),
{
    let a = resolved_architecture(d, minted);
    let ns = a.nodes;
    crate::seqs::lemma_first_match(d.nodes, faulty_node());
    crate::seqs::lemma_first_match(repeated_names(ns), |b: bool| b);
    crate::seqs::lemma_first_match(a.relationships, self_edge());
    assert forall|i: int, j: int| 0 <= i < j < ns.len() implies #[trigger] ns[i].name != #[trigger] ns[j].name by {
        assert(!repeated_names(ns)[j]);
    }
    assert forall|i: int| 0 <= i < a.relationships.len() implies {
        &&& node_with_id(a.nodes, #[trigger] a.relationships[i].source) is Some
        &&& node_with_id(a.nodes, a.relationships[i].target) is Some
    } by {
        assert(doc_resolves(ns, d.relationships[i]));
        crate::resolve::lemma_lookup_declared(ns, d.relationships[i].source);
        crate::resolve::lemma_lookup_declared(ns, d.relationships[i].target);
    }
    assert forall|i: int| 0 <= i < ns.len() implies version_seven(hex_padded((#[trigger] ns[i]).id.0 as nat, 32)) by {
        assert(!faulty_node()(d.nodes[i]));
        if let Some(t) = d.nodes[i].id {
            lemma_parsed_id_version_seven(t);
        }
    }
    assert forall|i: int| 0 <= i < a.relationships.len() implies (#[trigger] a.relationships[i]).source
        != a.relationships[i].target by {
        assert(!self_edge()(a.relationships[i]));
    }
    assert forall|i: int| 0 <= i < a.conformance.len() implies claim_valid(a, #[trigger] a.conformance[i]) by {
        let c = d.patterns[i];
        assert(claim_resolves(ns, c));
        let text = c.pattern;
        crate::words::lemma_first_index_of(text, '@', 0);
        let at = crate::words::first_index_of(text, '@', 0);
        let name = text.take(at);
        assert forall|q: int| 0 <= q < name.len() implies #[trigger] name[q] != '@' by {
            assert(name[q] == text[q]);
        }
        let rc = a.conformance[i];
        assert forall|q: int| 0 <= q < rc.bindings.len() implies node_with_id(a.nodes, (#[trigger] rc.bindings[q]).1)
            is Some by {
            assert(crate::conformance::binding_resolves(ns, c.bindings[q]));
            crate::resolve::lemma_lookup_declared(ns, c.bindings[q].1);
        }
    }
}

/// Whether an identifier is one a document may name: written as a UUID, it
/// carries version 7 and the RFC variant.
pub fn is_version_seven(id: NodeId) -> (b: bool)
    ensures
        b == version_seven(hex_padded(id.0 as nat, 32)),
{
    let text = chars_of(uuid_string(id.0).as_str());
    proof {
        crate::fmt::lemma_hex_len(id.0 as nat, 32);
        let h = hex_padded(id.0 as nat, 32);
        assert(text@[14] == h[12]);
        assert(text@[19] == h[16]);
    }
    let v = text[19];
    text[14] == '7' && (v == '8' || v == '9' || v == 'a' || v == 'b' || v == 'A' || v == 'B')
}

/// Resolving a document and emitting what it resolved to gives a document
/// that resolves back to the same architecture, whatever identifiers are
/// minted the second time: `parse → emit → parse` is a fixed point, and
/// emitting mints no identifier.
pub proof fn law_resolution_round_trips(d: DocumentModelV, minted: Seq<NodeId>, again: Seq<NodeId>)
    requires
        minted.len() == d.nodes.len(),
        again.len() == d.nodes.len(),
        document_resolves(d, minted),
        hashes_valid(resolved_nodes(d.nodes, minted)),
        forall|i: int| 0 <= i < minted.len() ==> version_seven(hex_padded((#[trigger] minted[i]).0 as nat, 32)),
    ensures
        document_resolves(emitted_document(resolved_architecture(d, minted)), again),
        resolved_architecture(emitted_document(resolved_architecture(d, minted)), again) == resolved_architecture(d, minted),
{
    lemma_resolved_ready(d, minted);
    law_emitted_document_resolves_back(resolved_architecture(d, minted), again);
}

/// Emitting an architecture and resolving the emitted document gives the
/// architecture back: `parse → emit → parse` is a fixed point. It holds of
/// every architecture the resolution itself could have produced with
/// identifiers of version 7: names distinct, endpoints declared, no node
/// joined to itself.
pub proof fn law_emitted_document_resolves_back(a: ArchitectureV, minted: Seq<NodeId>)
    requires
        minted.len() == a.nodes.len(),
        round_trip_ready(a),
    ensures
        document_resolves(emitted_document(a), minted),
        resolved_architecture(emitted_document(a), minted) == a,
{
    let d = emitted_document(a);
    assert forall|i: int| 0 <= i < d.nodes.len() implies !faulty_node()(#[trigger] d.nodes[i]) && node_of(d.nodes[i], minted[i]) == a.nodes[i] by {
        let n = a.nodes[i];
        lemma_node_id_round_trip(n.id);
        let is = d.nodes[i].interfaces;
        assert forall|k: int| 0 <= k < is.len() implies !faulty_interface()(#[trigger] is[k]) by {
            assert(is[k].schema_hash == n.interfaces[k].schema_hash);
        }
        lemma_first_match_is(is, faulty_interface(), is.len() as int);
        assert(node_of(d.nodes[i], minted[i]).interfaces =~= n.interfaces);
    }
    lemma_first_match_is(d.nodes, faulty_node(), d.nodes.len() as int);
    let ns = resolved_nodes(d.nodes, minted);
    assert(ns =~= a.nodes);
    law_emitted_relationships_resolve_back(a);
    let ps = d.patterns;
    assert forall|i: int| 0 <= i < ps.len() implies claim_resolves(ns, #[trigger] ps[i])
        && resolved_claim(ns, ps[i]) == a.conformance[i] by {
        lemma_emitted_claim_resolves_back(a, a.conformance[i]);
    }
    assert(resolved_claims(ns, ps) =~= a.conformance);
    let rv = resolved_relationships(ns, d.relationships);
    assert(rv =~= a.relationships);
    assert(all_endpoints_resolve(ns, d.relationships));
    lemma_first_match_is(rv, self_edge(), rv.len() as int);
    let flags = repeated_names(ns);
    assert forall|j: int| 0 <= j < flags.len() implies !(#[trigger] flags[j]) by {
        if flags[j] {
            let q = choose|q: int| 0 <= q < j && ns[q].name == ns[j].name;
            assert(ns[q].name != ns[j].name);
        }
    }
    lemma_first_match_is(flags, |b: bool| b, flags.len() as int);
}

} // verus!

