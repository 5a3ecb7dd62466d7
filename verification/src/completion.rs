//! Deciding what the author may legally type at the cursor.
//!
//! After `type:` inside `nodes:` the answer is the node types; after `type:`
//! inside a `controls:` block it is the control types; after `source:` it is
//! the names of the nodes this document declares. The three are textually
//! identical and told apart only by the enclosing section and block the
//! index tracks. Filtering by the typed prefix is left to the editor; the
//! prefix is still reported.
use vstd::prelude::*;

use crate::chars::{
    chars_of, concat_strs, join_strings, joined, joined_with, leading_ws, leading_ws_count, lemma_leading_ws_bound, owned,
    string_from_chars, sub_chars, trim_chars, trim_spec,
};
use crate::architecture::node_type_label;
use crate::fmt::{decimal, decimal_string};
use crate::index::{Block, DocumentIndex, IndexV, NodeEntry, NodeEntryV, Section};
use crate::pattern::{reference_of, Pattern, PatternV, Requirement, RequirementV};
use crate::schema::{
    control_keys, control_keys_spec, control_types, control_types_spec, interface_keys,
    interface_keys_spec, node_keys, node_keys_spec, node_types, node_types_spec, protocols,
    protocols_spec, relationship_keys, relationship_keys_spec, relationship_types,
    relationship_types_spec, root_keys, root_keys_spec, Term,
};
use crate::text::{char_index_at_units, char_index_at_units_of, Position};
use crate::words::opt_is_word;

verus! {

/// What kind of thing the cursor is positioned to receive.
#[derive(Clone, Copy, Debug, PartialEq, Eq, Structural)]
pub enum CompletionContext {
    /// A top-level key.
    RootKey,
    /// A field of a node.
    NodeKey,
    /// A field of a relationship.
    RelationshipKey,
    /// A field of an interface.
    InterfaceKey,
    /// A field of a control.
    ControlKey,
    /// A field of a conformance claim.
    ClaimKey,
    /// A role name inside a claim's `bind:` mapping.
    BindingRoleKey,
    /// The value of a claim's `pattern:`.
    PatternReferenceValue,
    /// The value of a node's `type:`.
    NodeTypeValue,
    /// The value of a relationship's `type:`.
    RelationshipTypeValue,
    /// The value of a control's `type:`.
    ControlTypeValue,
    /// The value of a `protocol:`.
    ProtocolValue,
    /// The value of a `source:` or `target:`: a node name.
    NodeNameValue,
    /// Nowhere anything can usefully be suggested, such as inside `metadata:`.
    Nothing,
}

/// How a completion item should be presented.
#[derive(Clone, Copy, Debug, PartialEq, Eq, Structural)]
pub enum ItemKind {
    /// A field name.
    Field,
    /// A fixed enum value.
    Value,
    /// A reference to something the document declares.
    Reference,
}

/// A single suggestion.
#[derive(Clone, Debug, PartialEq, Eq)]
pub struct Completion {
    /// The text shown in the list.
    pub label: String,
    /// The text actually inserted; for a field this includes the trailing `: `.
    pub insert_text: String,
    /// A short right-hand annotation.
    pub detail: String,
    /// The full explanation.
    pub documentation: String,
    /// How to present the item.
    pub kind: ItemKind,
}

/// The model of a [`Completion`].
pub struct CompletionV {
    pub label: Seq<char>,
    pub insert_text: Seq<char>,
    pub detail: Seq<char>,
    pub documentation: Seq<char>,
    pub kind: ItemKind,
}

impl View for Completion {
    type V = CompletionV;

    open spec fn view(&self) -> CompletionV {
        CompletionV {
            label: self.label@,
            insert_text: self.insert_text@,
            detail: self.detail@,
            documentation: self.documentation@,
            kind: self.kind,
        }
    }
}

/// The suggestion of a field, which inserts `label: ` ready for a value.
pub open spec fn field_item(t: Term) -> CompletionV {
    CompletionV {
        label: t.label@,
        insert_text: t.label@ + ": "@,
        detail: t.detail@,
        documentation: t.documentation@,
        kind: ItemKind::Field,
    }
}

/// The suggestion of a fixed value, which inserts the bare label.
pub open spec fn value_item(t: Term) -> CompletionV {
    CompletionV {
        label: t.label@,
        insert_text: t.label@,
        detail: t.detail@,
        documentation: t.documentation@,
        kind: ItemKind::Value,
    }
}

/// The suggestion of a node the document declares, annotated with its type.
pub open spec fn reference_item(n: NodeEntryV) -> CompletionV {
    CompletionV {
        label: n.name,
        insert_text: n.name,
        detail: match n.node_type {
            Some(t) => t,
            None => "node"@,
        },
        documentation: "The node `"@ + n.name + "` declared in this document."@,
        kind: ItemKind::Reference,
    }
}

/// The role names of a pattern, each in backticks.
pub open spec fn quoted_roles(requirements: Seq<RequirementV>) -> Seq<Seq<char>> {
    requirements.map_values(|r: RequirementV| "`"@ + r.role + "`"@)
}

/// The suggestion of a pattern the library holds: its reference, how many
/// roles it has, and its description followed by its roles.
pub open spec fn pattern_item(p: PatternV) -> CompletionV {
    let roles = joined_with(quoted_roles(p.requirements), ", "@);
    CompletionV {
        label: reference_of(p),
        insert_text: reference_of(p),
        detail: decimal(p.requirements.len()) + " role(s)"@,
        documentation: match p.description {
            Some(d) => d + "\n\nRoles: "@ + roles + "."@,
            None => "Roles: "@ + roles + "."@,
        },
        kind: ItemKind::Reference,
    }
}

/// The suggestion of a role a claimed pattern names.
pub open spec fn role_item(r: RequirementV) -> CompletionV {
    CompletionV {
        label: r.role,
        insert_text: r.role + ": "@,
        detail: node_type_label(r.node_type),
        documentation: match r.description {
            Some(d) => d,
            None => "Bind a "@ + node_type_label(r.node_type) + " to this role."@,
        },
        kind: ItemKind::Field,
    }
}

impl Completion {
    /// The suggestion referencing a pattern the library holds.
    pub fn pattern(pattern: &Pattern) -> (c: Self)
        ensures
            c@ == pattern_item(pattern@),
    {
        let ghost p = pattern@;
        let mut quoted: Vec<String> = Vec::new();
        let mut i: usize = 0;
        while i < pattern.requirements.len()
            invariant
                i <= p.requirements.len(),
                p == pattern@,
                quoted@.map_values(|q: String| q@) == quoted_roles(p.requirements).take(i as int),
            decreases p.requirements.len() - i,
        {
            let ghost before = quoted@.map_values(|q: String| q@);
            let q = concat_strs(&["`", pattern.requirements[i].role.as_str(), "`"]);
            proof {
                reveal_with_fuel(joined, 4);
            }
            quoted.push(q);
            assert(pattern.requirements@[i as int]@ == p.requirements[i as int]);
            assert(quoted@.map_values(|q: String| q@) =~= before.push("`"@ + p.requirements[i as int].role + "`"@));
            assert(quoted_roles(p.requirements).take(i + 1) =~= quoted_roles(p.requirements).take(i as int).push(
                "`"@ + p.requirements[i as int].role + "`"@,
            ));
            i = i + 1;
        }
        assert(quoted_roles(p.requirements).take(i as int) =~= quoted_roles(p.requirements));
        let roles = join_strings(quoted.as_slice(), ", ");
        let reference = pattern.reference();
        let detail = concat_strs(&[decimal_string(pattern.requirements.len() as u64).as_str(), " role(s)"]);
        let documentation = match &pattern.description {
            Some(d) => concat_strs(&[d.as_str(), "\n\nRoles: ", roles.as_str(), "."]),
            None => concat_strs(&["Roles: ", roles.as_str(), "."]),
        };
        proof {
            reveal_with_fuel(joined, 5);
        }
        Completion {
            label: owned(reference.as_str()),
            insert_text: reference,
            detail,
            documentation,
            kind: ItemKind::Reference,
        }
    }

    /// The suggestion for a role a claimed pattern names.
    pub fn role(requirement: &Requirement) -> (c: Self)
        ensures
            c@ == role_item(requirement@),
    {
        let documentation = match &requirement.description {
            Some(d) => owned(d.as_str()),
            None => {
                let s = concat_strs(&["Bind a ", requirement.node_type.label(), " to this role."]);
                proof {
                    reveal_with_fuel(joined, 4);
                }
                s
            },
        };
        let insert_text = concat_strs(&[requirement.role.as_str(), ": "]);
        proof {
            reveal_with_fuel(joined, 3);
        }
        Completion {
            label: owned(requirement.role.as_str()),
            insert_text,
            detail: owned(requirement.node_type.label()),
            documentation,
            kind: ItemKind::Field,
        }
    }
    /// The suggestion of a field.
    fn field(term: &Term) -> (c: Self)
        ensures
            c@ == field_item(*term),
    {
        let insert = concat_strs(&[term.label, ": "]);
        proof {
            reveal_with_fuel(joined, 3);
        }
        Completion {
            label: owned(term.label),
            insert_text: insert,
            detail: owned(term.detail),
            documentation: owned(term.documentation),
            kind: ItemKind::Field,
        }
    }

    /// The suggestion of a fixed value.
    fn value(term: &Term) -> (c: Self)
        ensures
            c@ == value_item(*term),
    {
        Completion {
            label: owned(term.label),
            insert_text: owned(term.label),
            detail: owned(term.detail),
            documentation: owned(term.documentation),
            kind: ItemKind::Value,
        }
    }

    /// The suggestion of a declared node.
    fn reference(node: &NodeEntry) -> (c: Self)
        ensures
            c@ == reference_item(node@),
    {
        let detail = match &node.node_type {
            Some(t) => owned(t.as_str()),
            None => owned("node"),
        };
        let documentation = concat_strs(
            &["The node `", node.name.as_str(), "` declared in this document."],
        );
        proof {
            reveal_with_fuel(joined, 4);
        }
        Completion {
            label: owned(node.name.as_str()),
            insert_text: owned(node.name.as_str()),
            detail,
            documentation,
            kind: ItemKind::Reference,
        }
    }
}

/// The outcome of a completion request.
#[derive(Clone, Debug, PartialEq, Eq)]
pub struct CompletionResult {
    /// What the cursor is positioned to receive.
    pub context: CompletionContext,
    /// The word fragment already typed.
    pub prefix: String,
    /// The suggestions, unfiltered.
    pub items: Vec<Completion>,
}

/// The model of a [`CompletionResult`].
pub struct CompletionResultV {
    pub context: CompletionContext,
    pub prefix: Seq<char>,
    pub items: Seq<CompletionV>,
}

impl View for CompletionResult {
    type V = CompletionResultV;

    open spec fn view(&self) -> CompletionResultV {
        CompletionResultV {
            context: self.context,
            prefix: self.prefix@,
            items: self.items@.map_values(|c: Completion| c@),
        }
    }
}

/// Nothing to suggest, with no prefix.
pub open spec fn empty_result() -> CompletionResultV {
    CompletionResultV { context: CompletionContext::Nothing, prefix: Seq::empty(), items: Seq::empty() }
}

/// The position of the first `: ` at or after `from`, or `s.len()`.
pub open spec fn colon_space_from(s: Seq<char>, from: int) -> int
    decreases s.len() - from,
{
    if from < 0 || from + 1 >= s.len() {
        s.len() as int
    } else if s[from] == ':' && s[from + 1] == ' ' {
        from
    } else {
        colon_space_from(s, from + 1)
    }
}

/// The position of the colon ending the key: the first `: `, else a colon
/// ending the text.
pub open spec fn separator_of(before: Seq<char>) -> Option<int> {
    let k = colon_space_from(before, 0);
    if k < before.len() {
        Some(k)
    } else if before.len() > 0 && before.last() == ':' {
        Some(before.len() - 1)
    } else {
        None
    }
}

/// `s` without any number of leading `- `.
pub open spec fn without_dashes(s: Seq<char>) -> Seq<char>
    decreases s.len(),
{
    if s.len() >= 2 && s[0] == '-' && s[1] == ' ' {
        without_dashes(s.skip(2))
    } else {
        s
    }
}

/// `s` without leading whitespace.
pub open spec fn trim_start(s: Seq<char>) -> Seq<char> {
    s.skip(leading_ws(s) as int)
}

/// The key fragment typed before the cursor.
pub open spec fn key_prefix(before: Seq<char>) -> Seq<char> {
    trim_start(without_dashes(trim_start(before)))
}

/// The key vocabulary offered at a section and block, if any.
pub open spec fn key_offer(section: Section, block: Block) -> Option<(CompletionContext, Seq<Term>)> {
    match (section, block) {
        (Section::Root, _) => Some((CompletionContext::RootKey, root_keys_spec())),
        (Section::Nodes, Block::Direct) => Some((CompletionContext::NodeKey, node_keys_spec())),
        (Section::Nodes, Block::Interfaces) => Some(
            (CompletionContext::InterfaceKey, interface_keys_spec()),
        ),
        (Section::Nodes, Block::Controls) | (Section::Relationships, Block::Controls) => Some(
            (CompletionContext::ControlKey, control_keys_spec()),
        ),
        (Section::Relationships, Block::Direct) => Some(
            (CompletionContext::RelationshipKey, relationship_keys_spec()),
        ),
        _ => None,
    }
}

/// Completions while writing a key.
pub open spec fn key_spec(section: Section, block: Block, prefix: Seq<char>) -> CompletionResultV {
    match key_offer(section, block) {
        Some((context, terms)) => CompletionResultV {
            context,
            prefix,
            items: terms.map_values(|t: Term| field_item(t)),
        },
        None => empty_result(),
    }
}

/// The value vocabulary offered for `key` at a section and block: a fixed
/// table, the declared nodes (`None` table), or nothing.
pub open spec fn value_offer(section: Section, block: Block, key: Option<Seq<char>>) -> (CompletionContext, Option<Seq<Term>>) {
    if key == Some("type"@) && section == Section::Nodes && block == Block::Direct {
        (CompletionContext::NodeTypeValue, Some(node_types_spec()))
    } else if key == Some("type"@) && section == Section::Relationships && block == Block::Direct {
        (CompletionContext::RelationshipTypeValue, Some(relationship_types_spec()))
    } else if key == Some("type"@) && block == Block::Controls {
        (CompletionContext::ControlTypeValue, Some(control_types_spec()))
    } else if key == Some("protocol"@) {
        (CompletionContext::ProtocolValue, Some(protocols_spec()))
    } else if (key == Some("source"@) || key == Some("target"@)) && section == Section::Relationships
        && block == Block::Direct {
        (CompletionContext::NodeNameValue, None)
    } else {
        (CompletionContext::Nothing, Some(Seq::empty()))
    }
}

/// Completions while writing a value.
pub open spec fn value_spec(ix: IndexV, section: Section, block: Block, key: Option<Seq<char>>, prefix: Seq<char>) -> CompletionResultV {
    let (context, table) = value_offer(section, block, key);
    CompletionResultV {
        context,
        prefix,
        items: match table {
            Some(terms) => terms.map_values(|t: Term| value_item(t)),
            None => ix.nodes.map_values(|n: NodeEntryV| reference_item(n)),
        },
    }
}

/// The text of line `line`, or nothing.
pub open spec fn raw_text(ix: IndexV, line: u32) -> Seq<char> {
    if line < ix.raw_lines.len() {
        ix.raw_lines[line as int]
    } else {
        Seq::empty()
    }
}

/// What completion offers at `position`.
pub open spec fn complete_spec(ix: IndexV, position: Position) -> CompletionResultV {
    if position.line >= ix.lines.len() {
        empty_result()
    } else {
        let line = ix.lines[position.line as int];
        let raw = raw_text(ix, position.line);
        let before = raw.take(char_index_at_units(raw, position.character as int) as int);
        match separator_of(before) {
            Some(k) => value_spec(ix, line.section, line.block, line.key, trim_spec(before.skip(k + 1))),
            None => key_spec(line.section, line.block, key_prefix(before)),
        }
    }
}

/// The position of the colon ending the key.
fn find_separator(before: &[char]) -> (r: Option<usize>)
    ensures
        match r {
            Some(k) => separator_of(before@) == Some(k as int) && k < before.len(),
            None => separator_of(before@) is None,
        },
{
    let mut k: usize = 0;
    while before.len() > 0 && k < before.len() - 1
        invariant
            k <= before.len(),
            colon_space_from(before@, k as int) == colon_space_from(before@, 0),
        decreases before.len() - k,
    {
        if before[k] == ':' && before[k + 1] == ' ' {
            return Some(k);
        }
        k = k + 1;
    }
    assert(colon_space_from(before@, 0) == before@.len());
    if before.len() > 0 && before[before.len() - 1] == ':' {
        return Some(before.len() - 1);
    }
    None
}

/// `s` without any number of leading `- `.
fn strip_dashes(s: &[char]) -> (r: Vec<char>)
    ensures
        r@ == without_dashes(s@),
{
    let mut i: usize = 0;
    assert(s@.skip(0) =~= s@);
    while s.len() > 0 && i < s.len() - 1 && s[i] == '-' && s[i + 1] == ' '
        invariant
            i <= s.len(),
            without_dashes(s@) == without_dashes(s@.skip(i as int)),
        decreases s.len() - i,
    {
        assert(s@.skip(i as int).skip(2) =~= s@.skip(i + 2));
        i = i + 2;
    }
    sub_chars(s, i, s.len())
}

/// `s` without leading whitespace.
fn trim_start_chars(s: &[char]) -> (r: Vec<char>)
    ensures
        r@ == trim_start(s@),
{
    proof {
        lemma_leading_ws_bound(s@);
    }
    let n = leading_ws_count(s);
    sub_chars(s, n, s.len())
}

/// Suggestions from a vocabulary, as fields or as values.
fn items_of(terms: &[Term], as_fields: bool) -> (r: Vec<Completion>)
    ensures
        r@.map_values(|c: Completion| c@) == if as_fields {
            terms@.map_values(|t: Term| field_item(t))
        } else {
            terms@.map_values(|t: Term| value_item(t))
        },
{
    let mut r: Vec<Completion> = Vec::new();
    let mut i: usize = 0;
    while i < terms.len()
        invariant
            i <= terms.len(),
            r@.len() == i,
            forall|j: int| 0 <= j < i ==> #[trigger] r@[j]@ == if as_fields {
                field_item(terms@[j])
            } else {
                value_item(terms@[j])
            },
        decreases terms.len() - i,
    {
        if as_fields {
            r.push(Completion::field(&terms[i]));
        } else {
            r.push(Completion::value(&terms[i]));
        }
        i = i + 1;
    }
    proof {
        if as_fields {
            assert(r@.map_values(|c: Completion| c@) =~= terms@.map_values(|t: Term| field_item(t)));
        } else {
            assert(r@.map_values(|c: Completion| c@) =~= terms@.map_values(|t: Term| value_item(t)));
        }
    }
    r
}

/// Suggestions naming every node the document declares.
fn references_of(nodes: &[NodeEntry]) -> (r: Vec<Completion>)
    ensures
        r@.map_values(|c: Completion| c@) == crate::index::nodes_view(nodes@).map_values(
            |n: NodeEntryV| reference_item(n),
        ),
{
    let mut r: Vec<Completion> = Vec::new();
    let mut i: usize = 0;
    while i < nodes.len()
        invariant
            i <= nodes.len(),
            r@.len() == i,
            forall|j: int| 0 <= j < i ==> #[trigger] r@[j]@ == reference_item(nodes@[j]@),
        decreases nodes.len() - i,
    {
        r.push(Completion::reference(&nodes[i]));
        i = i + 1;
    }
    assert(r@.map_values(|c: Completion| c@) =~= crate::index::nodes_view(nodes@).map_values(
        |n: NodeEntryV| reference_item(n),
    ));
    r
}

/// Nothing to suggest.
fn empty() -> (r: CompletionResult)
    ensures
        r@ == empty_result(),
{
    let r = CompletionResult { context: CompletionContext::Nothing, prefix: String::new(), items: Vec::new() };
    assert(r@.items =~= Seq::<CompletionV>::empty());
    r
}

/// Completions while writing a key.
fn key_completions(section: Section, block: Block, prefix: String) -> (r: CompletionResult)
    ensures
        r@ == key_spec(section, block, prefix@),
{
    let (context, terms) = match (section, block) {
        (Section::Root, _) => (CompletionContext::RootKey, root_keys()),
        (Section::Nodes, Block::Direct) => (CompletionContext::NodeKey, node_keys()),
        (Section::Nodes, Block::Interfaces) => (CompletionContext::InterfaceKey, interface_keys()),
        (Section::Nodes, Block::Controls) | (Section::Relationships, Block::Controls) => (
            CompletionContext::ControlKey,
            control_keys(),
        ),
        (Section::Relationships, Block::Direct) => (
            CompletionContext::RelationshipKey,
            relationship_keys(),
        ),
        _ => {
            return empty();
        },
    };
    CompletionResult { context, prefix, items: items_of(terms, true) }
}

/// Completions while writing a value.
fn value_completions(
    index: &DocumentIndex,
    section: Section,
    block: Block,
    key: &Option<String>,
    prefix: String,
) -> (r: CompletionResult)
    ensures
        r@ == value_spec(index@, section, block, crate::index::opt_view(*key), prefix@),
{
    let is_type = match key {
        Some(k) => crate::chars::str_eq(k.as_str(), "type"),
        None => false,
    };
    let is_protocol = match key {
        Some(k) => crate::chars::str_eq(k.as_str(), "protocol"),
        None => false,
    };
    let is_endpoint = match key {
        Some(k) => crate::chars::str_eq(k.as_str(), "source") || crate::chars::str_eq(
            k.as_str(),
            "target",
        ),
        None => false,
    };
    let (context, items) = if is_type && section == Section::Nodes && block == Block::Direct {
        (CompletionContext::NodeTypeValue, items_of(node_types(), false))
    } else if is_type && section == Section::Relationships && block == Block::Direct {
        (CompletionContext::RelationshipTypeValue, items_of(relationship_types(), false))
    } else if is_type && block == Block::Controls {
        (CompletionContext::ControlTypeValue, items_of(control_types(), false))
    } else if is_protocol {
        (CompletionContext::ProtocolValue, items_of(protocols(), false))
    } else if is_endpoint && section == Section::Relationships && block == Block::Direct {
        (CompletionContext::NodeNameValue, references_of(index.nodes()))
    } else {
        (CompletionContext::Nothing, Vec::new())
    };
    let r = CompletionResult { context, prefix, items };
    assert(r@.items =~= value_spec(index@, section, block, crate::index::opt_view(*key), prefix@).items);
    r
}

/// Computes completions for `position` in the indexed document.
pub fn complete(index: &DocumentIndex, position: Position) -> (r: CompletionResult)
    ensures
        r@ == complete_spec(index@, position),
{
    let line = match index.line(position.line) {
        Some(l) => l,
        None => {
            return empty();
        },
    };
    let raw: Vec<char> = match index.raw_line(position.line) {
        Some(text) => chars_of(text),
        None => Vec::new(),
    };
    let ghost raw_spec = raw_text(index@, position.line);
    assert(raw@ =~= raw_spec);
    let k = char_index_at_units_of(raw.as_slice(), position.character);
    let before = sub_chars(raw.as_slice(), 0, k);
    assert(before@ =~= raw_spec.take(char_index_at_units(raw_spec, position.character as int) as int));
    match find_separator(before.as_slice()) {
        Some(offset) => {
            let tail = sub_chars(before.as_slice(), offset + 1, before.len());
            let prefix = string_from_chars(trim_chars(tail.as_slice()).as_slice());
            value_completions(index, line.section, line.block, &line.key, prefix)
        },
        None => {
            let first = trim_start_chars(before.as_slice());
            let dashed = strip_dashes(first.as_slice());
            let prefix = string_from_chars(trim_start_chars(dashed.as_slice()).as_slice());
            key_completions(line.section, line.block, prefix)
        },
    }
}

/// On the value of a relationship's `source:` or `target:` key, completion
/// offers the document's declared nodes, in order, each by its name: the two
/// endpoints are completed alike.
pub proof fn law_endpoints_complete_to_declared_nodes(ix: IndexV, position: Position)
    requires
        position.line < ix.lines.len(),
        ix.lines[position.line as int].section == Section::Relationships,
        ix.lines[position.line as int].block == Block::Direct,
        ix.lines[position.line as int].key == Some("source"@) || ix.lines[position.line as int].key == Some(
            "target"@,
        ),
        separator_of(
            raw_text(ix, position.line).take(
                char_index_at_units(raw_text(ix, position.line), position.character as int) as int,
            ),
        ) is Some,
    ensures
        complete_spec(ix, position).context == CompletionContext::NodeNameValue,
        complete_spec(ix, position).items.len() == ix.nodes.len(),
        forall|i: int|
            0 <= i < ix.nodes.len() ==> (#[trigger] complete_spec(ix, position).items[i]).label == ix.nodes[i].name
                && complete_spec(ix, position).items[i].insert_text == ix.nodes[i].name
                && complete_spec(ix, position).items[i].kind == ItemKind::Reference,
{
    reveal_strlit("source");
    reveal_strlit("target");
    reveal_strlit("type");
    reveal_strlit("protocol");
    assert("source"@.len() == 6 && "target"@.len() == 6 && "type"@.len() == 4 && "protocol"@.len() == 8);
    let line = ix.lines[position.line as int];
    let raw = raw_text(ix, position.line);
    let before = raw.take(char_index_at_units(raw, position.character as int) as int);
    let k = separator_of(before).unwrap();
    assert(value_offer(line.section, line.block, line.key) == (CompletionContext::NodeNameValue, None::<Seq<Term>>));
    assert(complete_spec(ix, position) == value_spec(ix, line.section, line.block, line.key, trim_spec(before.skip(k + 1))));
}

} // verus!
