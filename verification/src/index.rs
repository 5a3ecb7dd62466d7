//! Mapping cursor positions onto the semantic elements of an architecture file.
//!
//! A line-oriented read of the text that never fails: it records where each key,
//! value, node definition and node reference lives, so an editor can answer
//! "what is under the cursor" even while the document is syntactically broken.
//! A malformed document simply yields fewer symbols.
use vstd::prelude::*;

use crate::chars::{
    leading_spaces, leading_spaces_count, lemma_leading_spaces_bound,
    chars_of, clamp_u32, clamp_usize, is_white_space, leading_ws, leading_ws_count,
    lemma_leading_ws_bound, lemma_trailing_ws_bound, lemma_units_push, owned, str_eq, utf8_prefix_len,

    string_from_chars, sub_chars, trailing_ws, trailing_ws_count, utf8_len, utf8_width,
};
use crate::text::{byte_to_utf16_spec, char_index_of_byte, lemma_char_index_of_byte, Position, Span};
use crate::seqs::{first_match, lemma_first_match_is};
use crate::words::{is_word, lines_of, opt_is_word, split_lines};
use vstd::string::StrSliceExecFns;

verus! {

/// The top-level section of an architecture document a line belongs to.
#[derive(Clone, Copy, Debug, PartialEq, Eq, Structural, Hash)]
pub enum Section {
    /// Before any recognised section: the `name`, `version`, `description` preamble.
    Root,
    /// Inside the `nodes:` sequence.
    Nodes,
    /// Inside the `relationships:` sequence.
    Relationships,
    /// Inside the `metadata:` mapping.
    Metadata,
    /// Inside a top-level key this grammar does not recognise.
    Unknown,
}

/// A nested block within a node or relationship item.
#[derive(Clone, Copy, Debug, PartialEq, Eq, Structural, Hash)]
pub enum Block {
    /// Directly on the item, not inside a nested sequence.
    Direct,
    /// Inside an `interfaces:` sequence.
    Interfaces,
    /// Inside a `controls:` sequence.
    Controls,
}

/// Which end of a relationship a node reference names.
#[derive(Clone, Copy, Debug, PartialEq, Eq, Structural, Hash)]
pub enum Endpoint {
    /// The `source:` field.
    Source,
    /// The `target:` field.
    Target,
}

impl Endpoint {
    /// The field name this endpoint is written as.
    pub fn label(self) -> (s: &'static str)
        ensures
            s@ == (match self {
                Endpoint::Source => "source"@,
                Endpoint::Target => "target"@,
            }),
    {
        match self {
            Endpoint::Source => "source",
            Endpoint::Target => "target",
        }
    }
}

/// What a span of text means.
#[derive(Clone, Copy, Debug, PartialEq, Eq, Structural, Hash)]
pub enum SymbolKind {
    /// The `name:` of a node: the declaration a reference resolves to.
    NodeDefinition,
    /// A `source:` or `target:` naming a node.
    NodeReference(Endpoint),
    /// A node's `type:` value.
    NodeTypeValue,
    /// A relationship's `type:` value.
    RelationshipTypeValue,
    /// A control's `type:` value.
    ControlTypeValue,
    /// A `protocol:` value, on an interface or a relationship.
    ProtocolValue,
}

/// A resolved element of the document, with its location.
#[derive(Clone, Debug, PartialEq, Eq)]
pub struct Symbol {
    /// What this element is.
    pub kind: SymbolKind,
    /// Its literal text.
    pub text: String,
    /// Where the text sits.
    pub span: Span,
}

/// The model of a [`Symbol`].
pub struct SymbolV {
    pub kind: SymbolKind,
    pub text: Seq<char>,
    pub span: Span,
}

impl View for Symbol {
    type V = SymbolV;

    open spec fn view(&self) -> SymbolV {
        SymbolV { kind: self.kind, text: self.text@, span: self.span }
    }
}

/// Everything known about one line of the document.
#[derive(Clone, Debug, PartialEq, Eq)]
pub struct LineInfo {
    /// Zero-based line number.
    pub number: u32,
    /// Leading spaces, in bytes. Tabs are not YAML indentation and are not
    /// counted.
    pub indent: usize,
    /// The top-level section this line belongs to.
    pub section: Section,
    /// The nested block this line belongs to.
    pub block: Block,
    /// `true` if the line opens a sequence entry with `- `.
    pub is_list_item: bool,
    /// The key text, if the line has one.
    pub key: Option<String>,
    /// Where the key sits.
    pub key_span: Option<Span>,
    /// The value text, if the line has a non-empty one.
    pub value: Option<String>,
    /// Where the value sits.
    pub value_span: Option<Span>,
}

/// The model of an optional string.
pub open spec fn opt_view(o: Option<String>) -> Option<Seq<char>> {
    match o {
        Some(s) => Some(s@),
        None => None,
    }
}

/// The model of a [`LineInfo`].
pub struct LineInfoV {
    pub number: u32,
    pub indent: usize,
    pub section: Section,
    pub block: Block,
    pub is_list_item: bool,
    pub key: Option<Seq<char>>,
    pub key_span: Option<Span>,
    pub value: Option<Seq<char>>,
    pub value_span: Option<Span>,
}

impl View for LineInfo {
    type V = LineInfoV;

    open spec fn view(&self) -> LineInfoV {
        LineInfoV {
            number: self.number,
            indent: self.indent,
            section: self.section,
            block: self.block,
            is_list_item: self.is_list_item,
            key: opt_view(self.key),
            key_span: self.key_span,
            value: opt_view(self.value),
            value_span: self.value_span,
        }
    }
}

/// The indent at which the fields of an item sit: under the key, not the dash.
pub open spec fn field_indent_of(indent: usize, is_list_item: bool) -> usize {
    if is_list_item {
        if indent + 2 > usize::MAX {
            usize::MAX
        } else {
            (indent + 2) as usize
        }
    } else {
        indent
    }
}

impl LineInfo {
    /// The indent at which this item's fields sit. For `  - name: api` the
    /// fields are at column 4, aligned under `name`, not under the dash.
    pub fn field_indent(&self) -> (n: usize)
        ensures
            n == field_indent_of(self.indent, self.is_list_item),
    {
        if self.is_list_item {
            self.indent.saturating_add(2)
        } else {
            self.indent
        }
    }
}

/// A node declaration found in the document.
#[derive(Clone, Debug, PartialEq, Eq)]
pub struct NodeEntry {
    /// The declared name.
    pub name: String,
    /// Where the name sits: the go-to-definition target.
    pub name_span: Span,
    /// The declared type, if the item has one.
    pub node_type: Option<String>,
    /// The line the `- ` sequence entry begins on.
    pub item_line: u32,
    /// The last line belonging to this item.
    pub last_line: u32,
    /// The indent at which this node's fields sit.
    pub field_indent: usize,
}

/// The model of a [`NodeEntry`].
pub struct NodeEntryV {
    pub name: Seq<char>,
    pub name_span: Span,
    pub node_type: Option<Seq<char>>,
    pub item_line: u32,
    pub last_line: u32,
    pub field_indent: usize,
}

impl View for NodeEntry {
    type V = NodeEntryV;

    open spec fn view(&self) -> NodeEntryV {
        NodeEntryV {
            name: self.name@,
            name_span: self.name_span,
            node_type: opt_view(self.node_type),
            item_line: self.item_line,
            last_line: self.last_line,
            field_indent: self.field_indent,
        }
    }
}

/// A relationship declaration found in the document. It begins at the `- `
/// of its sequence item; its fields may be written in any order.
#[derive(Clone, Debug, PartialEq, Eq)]
pub struct RelationshipEntry {
    /// The declared `source:`, if written yet.
    pub source: Option<String>,
    /// Where the source value sits.
    pub source_span: Option<Span>,
    /// The declared `target:`, if written yet.
    pub target: Option<String>,
    /// Where the target value sits.
    pub target_span: Option<Span>,
    /// The declared `type:`, if written yet.
    pub kind: Option<String>,
    /// The line the `- ` sequence entry begins on.
    pub item_line: u32,
    /// The last line belonging to this item.
    pub last_line: u32,
    /// The indent at which this relationship's fields sit.
    pub field_indent: usize,
}

/// The model of a [`RelationshipEntry`].
pub struct RelationshipEntryV {
    pub source: Option<Seq<char>>,
    pub source_span: Option<Span>,
    pub target: Option<Seq<char>>,
    pub target_span: Option<Span>,
    pub kind: Option<Seq<char>>,
    pub item_line: u32,
    pub last_line: u32,
    pub field_indent: usize,
}

impl View for RelationshipEntry {
    type V = RelationshipEntryV;

    open spec fn view(&self) -> RelationshipEntryV {
        RelationshipEntryV {
            source: opt_view(self.source),
            source_span: self.source_span,
            target: opt_view(self.target),
            target_span: self.target_span,
            kind: opt_view(self.kind),
            item_line: self.item_line,
            last_line: self.last_line,
            field_indent: self.field_indent,
        }
    }
}

/// The span a diagnostic about a relationship anchors on: the source, else the
/// target, else the start of the opening line.
pub open spec fn anchor_span_of(e: RelationshipEntryV) -> Span {
    match e.source_span {
        Some(s) => s,
        None => match e.target_span {
            Some(t) => t,
            None => Span { line: e.item_line, start: 0, end: 0 },
        },
    }
}

impl RelationshipEntry {
    /// The best span to anchor a diagnostic about this relationship on:
    /// whichever of source, target, or opening line the author has written.
    pub fn anchor_span(&self) -> (s: Span)
        ensures
            s == anchor_span_of(self@),
    {
        match self.source_span {
            Some(s) => s,
            None => match self.target_span {
                Some(t) => t,
                None => Span::line_start(self.item_line),
            },
        }
    }
}

/// The model of a [`DocumentIndex`].
pub struct IndexV {
    pub lines: Seq<LineInfoV>,
    pub raw_lines: Seq<Seq<char>>,
    pub symbols: Seq<SymbolV>,
    pub nodes: Seq<NodeEntryV>,
    pub relationships: Seq<RelationshipEntryV>,
}

/// A position-aware view of an architecture document. Construction never
/// fails; a malformed document simply yields fewer symbols.
#[derive(Clone, Debug)]
pub struct DocumentIndex {
    lines: Vec<LineInfo>,
    raw_lines: Vec<String>,
    symbols: Vec<Symbol>,
    nodes: Vec<NodeEntry>,
    relationships: Vec<RelationshipEntry>,
}

pub open spec fn lines_view(v: Seq<LineInfo>) -> Seq<LineInfoV> {
    v.map_values(|l: LineInfo| l@)
}

pub open spec fn strings_view(v: Seq<String>) -> Seq<Seq<char>> {
    v.map_values(|s: String| s@)
}

pub open spec fn symbols_view(v: Seq<Symbol>) -> Seq<SymbolV> {
    v.map_values(|s: Symbol| s@)
}

pub open spec fn nodes_view(v: Seq<NodeEntry>) -> Seq<NodeEntryV> {
    v.map_values(|n: NodeEntry| n@)
}

pub open spec fn rels_view(v: Seq<RelationshipEntry>) -> Seq<RelationshipEntryV> {
    v.map_values(|r: RelationshipEntry| r@)
}

impl View for DocumentIndex {
    type V = IndexV;

    closed spec fn view(&self) -> IndexV {
        IndexV {
            lines: lines_view(self.lines@),
            raw_lines: strings_view(self.raw_lines@),
            symbols: symbols_view(self.symbols@),
            nodes: nodes_view(self.nodes@),
            relationships: rels_view(self.relationships@),
        }
    }
}

// ---------------------------------------------------------------------------
// The scan, stated over character sequences.
// ---------------------------------------------------------------------------

/// Where a trailing `#` comment begins at or after `from`: a `#` at the start of
/// the line or after whitespace. `s.len()` when there is none.
pub open spec fn comment_start_from(s: Seq<char>, from: int) -> int
    decreases s.len() - from,
{
    if from < 0 || from >= s.len() {
        s.len() as int
    } else if s[from] == '#' && (from == 0 || is_white_space(s[from - 1])) {
        from
    } else {
        comment_start_from(s, from + 1)
    }
}

/// `s` without its trailing comment.
pub open spec fn strip_comment_spec(s: Seq<char>) -> Seq<char> {
    s.take(comment_start_from(s, 0))
}

/// Where the `key: value` separator sits at or after `from`: a colon followed by a
/// space, a tab, or the end of the line. `s.len()` when there is none.
pub open spec fn separator_from(s: Seq<char>, from: int) -> int
    decreases s.len() - from,
{
    if from < 0 || from >= s.len() {
        s.len() as int
    } else if s[from] == ':' && (from + 1 == s.len() || s[from + 1] == ' ' || s[from + 1]
        == '\t') {
        from
    } else {
        separator_from(s, from + 1)
    }
}

/// A line's key and value and their byte ranges within the line body.
pub struct KeyValueV {
    pub key: Option<Seq<char>>,
    pub key_range: Option<(int, int)>,
    pub value: Option<Seq<char>>,
    pub value_range: Option<(int, int)>,
}

/// Splits `body` at its first separator: the key is the text before it with
/// trailing whitespace removed, the value the text after it trimmed. An empty
/// key or value is absent.
pub open spec fn split_key_value_spec(body: Seq<char>) -> KeyValueV {
    let colon = separator_from(body, 0);
    if colon >= body.len() {
        KeyValueV { key: None, key_range: None, value: None, value_range: None }
    } else {
        let key_raw = body.take(colon);
        let key = key_raw.take(key_raw.len() - trailing_ws(key_raw));
        let key_start = utf8_len(key_raw.take(leading_ws(key_raw) as int));
        let after = body.skip(colon + 1);
        let lw = leading_ws(after);
        let value = after.skip(lw as int).take(after.len() - lw - trailing_ws(
            after.skip(lw as int),
        ));
        let colon_byte = utf8_len(body.take(colon));
        let offset = colon_byte + 1 + utf8_len(after.take(lw as int));
        KeyValueV {
            key: if key.len() == 0 {
                None
            } else {
                Some(key)
            },
            key_range: if key.len() == 0 {
                None
            } else {
                Some((key_start as int, (key_start + utf8_len(key)) as int))
            },
            value: if value.len() == 0 {
                None
            } else {
                Some(value)
            },
            value_range: if value.len() == 0 {
                None
            } else {
                Some((offset as int, (offset + utf8_len(value)) as int))
            },
        }
    }
}

/// Classifies a top-level key.
pub open spec fn section_of_key(key: Seq<char>) -> Section {
    if key == "nodes"@ {
        Section::Nodes
    } else if key == "relationships"@ {
        Section::Relationships
    } else if key == "metadata"@ {
        Section::Metadata
    } else if key == "name"@ || key == "version"@ || key == "description"@ {
        Section::Root
    } else {
        Section::Unknown
    }
}

/// The scanner's state between lines.
pub struct BuilderV {
    pub lines: Seq<LineInfoV>,
    pub raw_lines: Seq<Seq<char>>,
    pub symbols: Seq<SymbolV>,
    pub nodes: Seq<NodeEntryV>,
    pub relationships: Seq<RelationshipEntryV>,
    pub section: Section,
    pub block: Block,
    pub block_indent: Option<usize>,
}

/// The state before any line.
pub open spec fn builder_start() -> BuilderV {
    BuilderV {
        lines: Seq::empty(),
        raw_lines: Seq::empty(),
        symbols: Seq::empty(),
        nodes: Seq::empty(),
        relationships: Seq::empty(),
        section: Section::Root,
        block: Block::Direct,
        block_indent: None,
    }
}

/// Updates section and block state for a non-blank line, giving the new state
/// and the block the line itself sits in. A block's opening key line sits
/// outside the block it opens; a list item at the block's own indent stays in it.
pub open spec fn update_scope_spec(
    st: BuilderV,
    indent: usize,
    is_list_item: bool,
    key: Option<Seq<char>>,
) -> (BuilderV, Block) {
    if indent == 0 && !is_list_item {
        match key {
            Some(k) => (
                BuilderV {
                    section: section_of_key(k),
                    block: Block::Direct,
                    block_indent: None,
                    ..st
                },
                Block::Direct,
            ),
            None => (st, st.block),
        }
    } else {
        let closed = match st.block_indent {
            Some(open_at) => indent < open_at || (indent == open_at && !is_list_item),
            None => false,
        };
        let st1 = if closed {
            BuilderV { block: Block::Direct, block_indent: None, ..st }
        } else {
            st
        };
        let line_block = st1.block;
        let opens = st1.block == Block::Direct && (st1.section == Section::Nodes || st1.section
            == Section::Relationships);
        let st2 = if opens && key == Some("interfaces"@) {
            BuilderV { block: Block::Interfaces, block_indent: Some(indent), ..st1 }
        } else if opens && key == Some("controls"@) {
            BuilderV { block: Block::Controls, block_indent: Some(indent), ..st1 }
        } else {
            st1
        };
        (st2, line_block)
    }
}

/// What a line's key and value mean, if anything.
pub open spec fn symbol_kind_of(section: Section, block: Block, key: Seq<char>) -> Option<
    SymbolKind,
> {
    if section == Section::Nodes && block == Block::Direct && key == "name"@ {
        Some(SymbolKind::NodeDefinition)
    } else if section == Section::Nodes && block == Block::Direct && key == "type"@ {
        Some(SymbolKind::NodeTypeValue)
    } else if section == Section::Relationships && block == Block::Direct && key == "type"@ {
        Some(SymbolKind::RelationshipTypeValue)
    } else if section == Section::Relationships && block == Block::Direct && key == "source"@ {
        Some(SymbolKind::NodeReference(Endpoint::Source))
    } else if section == Section::Relationships && block == Block::Direct && key == "target"@ {
        Some(SymbolKind::NodeReference(Endpoint::Target))
    } else if block == Block::Controls && key == "type"@ {
        Some(SymbolKind::ControlTypeValue)
    } else if key == "protocol"@ {
        Some(SymbolKind::ProtocolValue)
    } else {
        None
    }
}

/// Records a symbol for the line, if it carries one.
pub open spec fn record_symbol_spec(st: BuilderV, info: LineInfoV) -> BuilderV {
    match (info.key, info.value, info.value_span) {
        (Some(key), Some(value), Some(span)) => match symbol_kind_of(info.section, info.block, key) {
            Some(kind) => BuilderV {
                symbols: st.symbols.push(SymbolV { kind, text: value, span }),
                ..st
            },
            None => st,
        },
        _ => st,
    }
}

/// Records or extends a node declaration.
pub open spec fn record_node_spec(st: BuilderV, info: LineInfoV) -> BuilderV {
    if info.section != Section::Nodes {
        st
    } else if info.block == Block::Direct && info.is_list_item && info.key == Some("name"@)
        && info.value is Some && info.value_span is Some {
        BuilderV {
            nodes: st.nodes.push(
                NodeEntryV {
                    name: info.value->0,
                    name_span: info.value_span->0,
                    node_type: None,
                    item_line: info.number,
                    last_line: info.number,
                    field_indent: field_indent_of(info.indent, info.is_list_item),
                },
            ),
            ..st
        }
    } else if st.nodes.len() == 0 {
        st
    } else {
        let current = st.nodes.last();
        if info.indent >= current.field_indent {
            let updated = NodeEntryV {
                last_line: info.number,
                node_type: if info.block == Block::Direct && info.key == Some("type"@) {
                    info.value
                } else {
                    current.node_type
                },
                ..current
            };
            BuilderV { nodes: st.nodes.update(st.nodes.len() - 1, updated), ..st }
        } else {
            st
        }
    }
}

/// A relationship entry freshly opened on `info`'s line.
pub open spec fn fresh_relationship(info: LineInfoV) -> RelationshipEntryV {
    RelationshipEntryV {
        source: None,
        source_span: None,
        target: None,
        target_span: None,
        kind: None,
        item_line: info.number,
        last_line: info.number,
        field_indent: field_indent_of(info.indent, info.is_list_item),
    }
}

/// Records or extends a relationship declaration.
pub open spec fn record_relationship_spec(st: BuilderV, info: LineInfoV) -> BuilderV {
    if info.section != Section::Relationships || info.block != Block::Direct {
        st
    } else {
        let rels = if info.is_list_item {
            st.relationships.push(fresh_relationship(info))
        } else {
            st.relationships
        };
        if rels.len() == 0 {
            BuilderV { relationships: rels, ..st }
        } else {
            let current = rels.last();
            if field_indent_of(info.indent, info.is_list_item) < current.field_indent {
                BuilderV { relationships: rels, ..st }
            } else {
                let updated = if info.key == Some("source"@) {
                    RelationshipEntryV {
                        last_line: info.number,
                        source: info.value,
                        source_span: info.value_span,
                        ..current
                    }
                } else if info.key == Some("target"@) {
                    RelationshipEntryV {
                        last_line: info.number,
                        target: info.value,
                        target_span: info.value_span,
                        ..current
                    }
                } else if info.key == Some("type"@) {
                    RelationshipEntryV { last_line: info.number, kind: info.value, ..current }
                } else {
                    RelationshipEntryV { last_line: info.number, ..current }
                };
                BuilderV { relationships: rels.update(rels.len() - 1, updated), ..st }
            }
        }
    }
}

/// Whether a trimmed line opens a sequence entry, and how many characters of
/// marker (`- ` or a lone `-`) precede its body.
pub open spec fn list_marker(trimmed: Seq<char>) -> (bool, nat) {
    if trimmed.len() >= 2 && trimmed[0] == '-' && trimmed[1] == ' ' {
        (true, 2)
    } else if trimmed.len() == 1 && trimmed[0] == '-' {
        (true, 1)
    } else {
        (false, 0)
    }
}

/// A span on line `number` of `raw` covering the byte range `r`.
pub open spec fn span_of_range(number: u32, raw: Seq<char>, r: (int, int)) -> Span {
    Span {
        line: number,
        start: byte_to_utf16_spec(raw, r.0),
        end: byte_to_utf16_spec(raw, r.1),
    }
}

/// The information about a non-blank line, given the state before it, with
/// the state after scoping.
pub open spec fn line_info_spec(st: BuilderV, number: u32, raw: Seq<char>) -> (BuilderV, LineInfoV) {
    let content = strip_comment_spec(raw);
    let lw = leading_ws(content);
    let indent = clamp_usize(leading_spaces(content) as int);
    let trimmed = content.skip(lw as int);
    if trimmed.len() == 0 {
        (
            st,
            LineInfoV {
                number,
                indent,
                section: st.section,
                block: st.block,
                is_list_item: false,
                key: None,
                key_span: None,
                value: None,
                value_span: None,
            },
        )
    } else {
        let (is_list_item, marker) = list_marker(trimmed);
        let body_start = lw + marker;
        let body = content.skip(body_start as int);
        let body_offset = utf8_len(content.take(body_start as int));
        let kv = split_key_value_spec(body);
        let (st2, block) = update_scope_spec(st, indent, is_list_item, kv.key);
        (
            st2,
            LineInfoV {
                number,
                indent,
                section: st2.section,
                block,
                is_list_item,
                key: kv.key,
                key_span: match kv.key_range {
                    Some(r) => Some(span_of_range(number, raw, (body_offset + r.0, body_offset + r.1))),
                    None => None,
                },
                value: kv.value,
                value_span: match kv.value_range {
                    Some(r) => Some(span_of_range(number, raw, (body_offset + r.0, body_offset + r.1))),
                    None => None,
                },
            },
        )
    }
}

/// Consumes one line.
pub open spec fn push_spec(st: BuilderV, number: u32, raw: Seq<char>) -> BuilderV {
    let (st2, info) = line_info_spec(st, number, raw);
    let st3 = BuilderV { raw_lines: st2.raw_lines.push(raw), ..st2 };
    let blank = trim_empty(raw);
    let st4 = if blank {
        st3
    } else {
        record_relationship_spec(record_node_spec(record_symbol_spec(st3, info), info), info)
    };
    BuilderV { lines: st4.lines.push(info), ..st4 }
}

/// Whether a line holds nothing but whitespace and comment.
pub open spec fn trim_empty(raw: Seq<char>) -> bool {
    let content = strip_comment_spec(raw);
    leading_ws(content) >= content.len()
}

/// The state after the first `n` lines.
pub open spec fn scan_prefix(lines: Seq<Seq<char>>, n: nat) -> BuilderV
    decreases n,
{
    if n == 0 || n > lines.len() {
        builder_start()
    } else {
        push_spec(scan_prefix(lines, (n - 1) as nat), clamp_u32(n - 1), lines[n - 1])
    }
}

/// The index of a whole document.
pub open spec fn index_spec(source: Seq<char>) -> IndexV {
    let lines = split_lines(source);
    let st = scan_prefix(lines, lines.len());
    IndexV {
        lines: st.lines,
        raw_lines: st.raw_lines,
        symbols: st.symbols,
        nodes: st.nodes,
        relationships: st.relationships,
    }
}


// ---------------------------------------------------------------------------
// The scan, executed.
// ---------------------------------------------------------------------------

pub proof fn lemma_comment_start(s: Seq<char>, from: int)
    requires
        0 <= from <= s.len(),
    ensures
        from <= comment_start_from(s, from) <= s.len(),
    decreases s.len() - from,
{
    if from < s.len() && !(s[from] == '#' && (from == 0 || is_white_space(s[from - 1]))) {
        lemma_comment_start(s, from + 1);
    }
}

pub proof fn lemma_separator(s: Seq<char>, from: int)
    requires
        0 <= from <= s.len(),
    ensures
        from <= separator_from(s, from) <= s.len(),
    decreases s.len() - from,
{
    if from < s.len() && !(s[from] == ':' && (from + 1 == s.len() || s[from + 1] == ' ' || s[from
        + 1] == '\t')) {
        lemma_separator(s, from + 1);
    }
}

/// Where the trailing comment of `cs` begins.
fn comment_start(cs: &[char]) -> (i: usize)
    ensures
        i == comment_start_from(cs@, 0),
        i <= cs.len(),
{
    proof {
        lemma_comment_start(cs@, 0);
    }
    let mut previous_was_space = true;
    let mut i: usize = 0;
    while i < cs.len()
        invariant
            i <= cs.len(),
            comment_start_from(cs@, i as int) == comment_start_from(cs@, 0),
            previous_was_space == (i == 0 || is_white_space(cs@[i - 1])),
        decreases cs.len() - i,
    {
        if cs[i] == '#' && previous_was_space {
            return i;
        }
        previous_was_space = crate::chars::is_whitespace(cs[i]);
        i = i + 1;
    }
    i
}

/// Removes a trailing `#` comment from a line. A `#` only begins a comment at
/// the start of the line or after whitespace, so `standard: ISO27001#A.12`
/// keeps its hash.
pub fn strip_comment(line: &str) -> (r: &str)
    ensures
        r@ == strip_comment_spec(line@),
{
    let cs = chars_of(line);
    let i = comment_start(cs.as_slice());
    line.substring_char(0, i)
}

/// Where the `key: value` separator of `body` sits, or `body.len()`.
fn find_separator(body: &[char]) -> (i: usize)
    ensures
        i == separator_from(body@, 0),
        i <= body.len(),
{
    proof {
        lemma_separator(body@, 0);
    }
    let mut i: usize = 0;
    while i < body.len()
        invariant
            i <= body.len(),
            separator_from(body@, i as int) == separator_from(body@, 0),
        decreases body.len() - i,
    {
        if body[i] == ':' && (i + 1 == body.len() || body[i + 1] == ' ' || body[i + 1] == '\t') {
            return i;
        }
        i = i + 1;
    }
    i
}

/// A line's key and value, as byte ranges into the line body.
struct KeyValue {
    key: Option<Vec<char>>,
    key_range: Option<(u128, u128)>,
    value: Option<Vec<char>>,
    value_range: Option<(u128, u128)>,
}

spec fn opt_chars_view(o: Option<Vec<char>>) -> Option<Seq<char>> {
    match o {
        Some(v) => Some(v@),
        None => None,
    }
}

spec fn opt_range_view(o: Option<(u128, u128)>) -> Option<(int, int)> {
    match o {
        Some(r) => Some((r.0 as int, r.1 as int)),
        None => None,
    }
}

/// Splits `body` at its first `key:` separator.
fn split_key_value(body: &[char]) -> (kv: KeyValue)
    ensures
        opt_chars_view(kv.key) == split_key_value_spec(body@).key,
        kv.key_range matches Some(r) ==> r.0 <= r.1 <= 8 * body.len() + 8,
        kv.value_range matches Some(r) ==> r.0 <= r.1 <= 8 * body.len() + 8,
        opt_range_view(kv.key_range) == split_key_value_spec(body@).key_range,
        opt_chars_view(kv.value) == split_key_value_spec(body@).value,
        opt_range_view(kv.value_range) == split_key_value_spec(body@).value_range,
{
    let colon = find_separator(body);
    if colon >= body.len() {
        return KeyValue { key: None, key_range: None, value: None, value_range: None };
    }
    let key_raw = sub_chars(body, 0, colon);
    let kt = trailing_ws_count(key_raw.as_slice());
    proof {
        lemma_trailing_ws_bound(key_raw@);
        lemma_leading_ws_bound(key_raw@);
    }
    let key = sub_chars(key_raw.as_slice(), 0, key_raw.len() - kt);
    let kl = leading_ws_count(key_raw.as_slice());
    let key_start = utf8_prefix_len(key_raw.as_slice(), kl);
    let key_bytes = utf8_prefix_len(key.as_slice(), key.len());
    let after = sub_chars(body, colon + 1, body.len());
    proof {
        assert(after@ =~= body@.skip(colon + 1));
        assert(key_raw@ =~= body@.take(colon as int));
        assert(key.len() == 0 ==> key@ =~= Seq::<char>::empty());
        assert(key@.take(key@.len() as int) =~= key@);
    }
    let lw = leading_ws_count(after.as_slice());
    proof {
        lemma_leading_ws_bound(after@);
    }
    let trimmed_start = sub_chars(after.as_slice(), lw, after.len());
    let tw = trailing_ws_count(trimmed_start.as_slice());
    proof {
        lemma_trailing_ws_bound(trimmed_start@);
        assert(trimmed_start@ =~= after@.skip(lw as int));
    }
    let value = sub_chars(trimmed_start.as_slice(), 0, trimmed_start.len() - tw);
    let colon_byte = utf8_prefix_len(body, colon);
    let lw_bytes = utf8_prefix_len(after.as_slice(), lw);
    let value_bytes = utf8_prefix_len(value.as_slice(), value.len());
    proof {
        assert(value@.take(value@.len() as int) =~= value@);
    }
    let offset = colon_byte + 1 + lw_bytes;
    let has_key = key.len() != 0;
    let has_value = value.len() != 0;
    proof {
        assert(!has_value ==> value@ =~= Seq::<char>::empty());
    }
    KeyValue {
        key: if has_key {
            Some(key)
        } else {
            None
        },
        key_range: if has_key {
            Some((key_start, key_start + key_bytes))
        } else {
            None
        },
        value: if has_value {
            Some(value)
        } else {
            None
        },
        value_range: if has_value {
            Some((offset, offset + value_bytes))
        } else {
            None
        },
    }
}

/// Classifies a top-level key.
fn section_from_key(key: &[char]) -> (s: Section)
    ensures
        s == section_of_key(key@),
{
    if is_word(key, "nodes") {
        Section::Nodes
    } else if is_word(key, "relationships") {
        Section::Relationships
    } else if is_word(key, "metadata") {
        Section::Metadata
    } else if is_word(key, "name") || is_word(key, "version") || is_word(key, "description") {
        Section::Root
    } else {
        Section::Unknown
    }
}


/// A copy of an optional string.
pub fn clone_opt_string(o: &Option<String>) -> (r: Option<String>)
    ensures
        r == *o,
{
    match o {
        Some(s) => Some(s.clone()),
        None => None,
    }
}

/// An owned string of the given characters, if any.
fn opt_string(o: &Option<Vec<char>>) -> (r: Option<String>)
    ensures
        opt_view(r) == opt_chars_view(*o),
{
    match o {
        Some(v) => Some(string_from_chars(v.as_slice())),
        None => None,
    }
}

/// Incremental state for a single pass over the document's lines.
struct Builder {
    lines: Vec<LineInfo>,
    raw_lines: Vec<String>,
    symbols: Vec<Symbol>,
    nodes: Vec<NodeEntry>,
    relationships: Vec<RelationshipEntry>,
    section: Section,
    block: Block,
    block_indent: Option<usize>,
}

impl View for Builder {
    type V = BuilderV;

    closed spec fn view(&self) -> BuilderV {
        BuilderV {
            lines: lines_view(self.lines@),
            raw_lines: strings_view(self.raw_lines@),
            symbols: symbols_view(self.symbols@),
            nodes: nodes_view(self.nodes@),
            relationships: rels_view(self.relationships@),
            section: self.section,
            block: self.block,
            block_indent: self.block_indent,
        }
    }
}

impl Builder {
    fn new() -> (b: Self)
        ensures
            b@ == builder_start(),
    {
        let b = Builder {
            lines: Vec::new(),
            raw_lines: Vec::new(),
            symbols: Vec::new(),
            nodes: Vec::new(),
            relationships: Vec::new(),
            section: Section::Root,
            block: Block::Direct,
            block_indent: None,
        };
        assert(b@ =~= builder_start()) by {
            assert(lines_view(b.lines@) =~= Seq::<LineInfoV>::empty());
            assert(strings_view(b.raw_lines@) =~= Seq::<Seq<char>>::empty());
            assert(symbols_view(b.symbols@) =~= Seq::<SymbolV>::empty());
            assert(nodes_view(b.nodes@) =~= Seq::<NodeEntryV>::empty());
            assert(rels_view(b.relationships@) =~= Seq::<RelationshipEntryV>::empty());
        }
        b
    }

    /// Updates section and block state, returning the block the current line
    /// sits in.
    fn update_scope(&mut self, indent: usize, is_list_item: bool, key: &Option<Vec<char>>) -> (b:
        Block)
        ensures
            (final(self)@, b) == update_scope_spec(old(self)@, indent, is_list_item, opt_chars_view(*key)),
    {
        if indent == 0 && !is_list_item {
            if let Some(k) = key {
                self.section = section_from_key(k.as_slice());
                self.block = Block::Direct;
                self.block_indent = None;
                return Block::Direct;
            }
            return self.block;
        }
        let closed = match self.block_indent {
            Some(open_at) => indent < open_at || (indent == open_at && !is_list_item),
            None => false,
        };
        if closed {
            self.block = Block::Direct;
            self.block_indent = None;
        }
        let block_of_this_line = self.block;
        if self.block == Block::Direct && (self.section == Section::Nodes || self.section
            == Section::Relationships) {
            if opt_is_word(key, "interfaces") {
                self.block = Block::Interfaces;
                self.block_indent = Some(indent);
            } else if opt_is_word(key, "controls") {
                self.block = Block::Controls;
                self.block_indent = Some(indent);
            }
        }
        block_of_this_line
    }

    /// Records a symbol for the line, if it carries one.
    fn record_symbol(&mut self, info: &LineInfo, key: &Option<Vec<char>>)
        requires
            opt_chars_view(*key) == opt_view(info.key),
        ensures
            final(self)@ == record_symbol_spec(old(self)@, info@),
    {
        let (k, span) = match (key, &info.value, info.value_span) {
            (Some(k), Some(_), Some(span)) => (k, span),
            _ => {
                return;
            },
        };
        let ks = k.as_slice();
        let section = info.section;
        let block = info.block;
        let kind = if section == Section::Nodes && block == Block::Direct && is_word(ks, "name") {
            SymbolKind::NodeDefinition
        } else if section == Section::Nodes && block == Block::Direct && is_word(ks, "type") {
            SymbolKind::NodeTypeValue
        } else if section == Section::Relationships && block == Block::Direct && is_word(
            ks,
            "type",
        ) {
            SymbolKind::RelationshipTypeValue
        } else if section == Section::Relationships && block == Block::Direct && is_word(
            ks,
            "source",
        ) {
            SymbolKind::NodeReference(Endpoint::Source)
        } else if section == Section::Relationships && block == Block::Direct && is_word(
            ks,
            "target",
        ) {
            SymbolKind::NodeReference(Endpoint::Target)
        } else if block == Block::Controls && is_word(ks, "type") {
            SymbolKind::ControlTypeValue
        } else if is_word(ks, "protocol") {
            SymbolKind::ProtocolValue
        } else {
            return;
        };
        let text = match &info.value {
            Some(v) => v.clone(),
            None => {
                return;
            },
        };
        let ghost old_symbols = self.symbols@;
        self.symbols.push(Symbol { kind, text, span });
        proof {
            assert(symbols_view(self.symbols@) =~= symbols_view(old_symbols).push(
                SymbolV { kind, text: info@.value->0, span },
            ));
        }
    }

    /// Records or extends a node declaration.
    fn record_node(&mut self, info: &LineInfo, key: &Option<Vec<char>>)
        requires
            opt_chars_view(*key) == opt_view(info.key),
        ensures
            final(self)@ == record_node_spec(old(self)@, info@),
    {
        if info.section != Section::Nodes {
            return;
        }
        if info.block == Block::Direct && info.is_list_item && opt_is_word(key, "name") {
            if let (Some(name), Some(span)) = (&info.value, info.value_span) {
                let ghost old_nodes = self.nodes@;
                let entry = NodeEntry {
                    name: name.clone(),
                    name_span: span,
                    node_type: None,
                    item_line: info.number,
                    last_line: info.number,
                    field_indent: info.field_indent(),
                };
                self.nodes.push(entry);
                proof {
                    assert(nodes_view(self.nodes@) =~= nodes_view(old_nodes).push(entry@));
                }
                return;
            }
        }
        let n = self.nodes.len();
        if n == 0 {
            return;
        }
        if info.indent >= self.nodes[n - 1].field_indent {
            let ghost old_nodes = self.nodes@;
            let mut current = self.nodes.pop().unwrap();
            current.last_line = info.number;
            if info.block == Block::Direct && opt_is_word(key, "type") {
                current.node_type = clone_opt_string(&info.value);
            }
            self.nodes.push(current);
            proof {
                assert(nodes_view(self.nodes@) =~= nodes_view(old_nodes).update(
                    n - 1,
                    current@,
                ));
            }
        }
    }

    /// Records or extends a relationship declaration.
    fn record_relationship(&mut self, info: &LineInfo, key: &Option<Vec<char>>)
        requires
            opt_chars_view(*key) == opt_view(info.key),
        ensures
            final(self)@ == record_relationship_spec(old(self)@, info@),
    {
        if info.section != Section::Relationships || info.block != Block::Direct {
            return;
        }
        let ghost old_rels = self.relationships@;
        if info.is_list_item {
            let fresh = RelationshipEntry {
                source: None,
                source_span: None,
                target: None,
                target_span: None,
                kind: None,
                item_line: info.number,
                last_line: info.number,
                field_indent: info.field_indent(),
            };
            self.relationships.push(fresh);
            proof {
                assert(rels_view(self.relationships@) =~= rels_view(old_rels).push(
                    fresh_relationship(info@),
                ));
            }
        }
        let ghost rels = self.relationships@;
        let n = self.relationships.len();
        if n == 0 {
            return;
        }
        if info.field_indent() < self.relationships[n - 1].field_indent {
            return;
        }
        let mut current = self.relationships.pop().unwrap();
        current.last_line = info.number;
        if opt_is_word(key, "source") {
            current.source = clone_opt_string(&info.value);
            current.source_span = info.value_span;
        } else if opt_is_word(key, "target") {
            current.target = clone_opt_string(&info.value);
            current.target_span = info.value_span;
        } else if opt_is_word(key, "type") {
            current.kind = clone_opt_string(&info.value);
        }
        self.relationships.push(current);
        proof {
            assert(rels_view(self.relationships@) =~= rels_view(rels).update(n - 1, current@));
        }
    }

    /// Reads one line's key, value and indentation and updates the scope.
    fn scan_line(&mut self, number: u32, raw: &[char]) -> (res: (LineInfo, Option<Vec<char>>, bool))
        ensures
            (final(self)@, res.0@) == line_info_spec(old(self)@, number, raw@),
            opt_chars_view(res.1) == res.0@.key,
            res.2 == trim_empty(raw@),
    {
        let cut = comment_start(raw);
        let content = sub_chars(raw, 0, cut);
        let lw = leading_ws_count(content.as_slice());
        proof {
            lemma_leading_ws_bound(content@);
            assert(content@ =~= strip_comment_spec(raw@));
        }
        let indent = leading_spaces_count(content.as_slice());
        proof {
            lemma_leading_spaces_bound(content@);
        }
        if lw >= content.len() {
            let info = LineInfo {
                number,
                indent,
                section: self.section,
                block: self.block,
                is_list_item: false,
                key: None,
                key_span: None,
                value: None,
                value_span: None,
            };
            return (info, None, true);
        }
        let trimmed_len = content.len() - lw;
        let (is_list_item, marker): (bool, usize) = if trimmed_len >= 2 && content[lw] == '-'
            && content[lw + 1] == ' ' {
            (true, 2)
        } else if trimmed_len == 1 && content[lw] == '-' {
            (true, 1)
        } else {
            (false, 0)
        };
        let body_start = lw + marker;
        let body = sub_chars(content.as_slice(), body_start, content.len());
        let body_offset = utf8_prefix_len(content.as_slice(), body_start);
        let kv = split_key_value(body.as_slice());
        proof {
            assert(body@ =~= content@.skip(body_start as int));
            let trimmed = content@.skip(lw as int);
            assert(list_marker(trimmed) == (is_list_item, marker as nat));
        }
        let block = self.update_scope(indent, is_list_item, &kv.key);
        let key_span = range_span(number, raw, body_offset, kv.key_range);
        let value_span = range_span(number, raw, body_offset, kv.value_range);
        let key = opt_string(&kv.key);
        let value = opt_string(&kv.value);
        let info = LineInfo {
            number,
            indent,
            section: self.section,
            block,
            is_list_item,
            key,
            key_span,
            value,
            value_span,
        };
        (info, kv.key, false)
    }

    /// Consumes one line.
    fn push(&mut self, number: u32, raw: &[char])
        ensures
            final(self)@ == push_spec(old(self)@, number, raw@),
    {
        let ghost st0 = self@;
        let (info, key, blank) = self.scan_line(number, raw);
        let ghost st2 = self@;
        let ghost old_raw = self.raw_lines@;
        self.raw_lines.push(string_from_chars(raw));
        proof {
            assert(strings_view(self.raw_lines@) =~= strings_view(old_raw).push(raw@));
            assert(self@ == BuilderV { raw_lines: st2.raw_lines.push(raw@), ..st2 });
        }
        if !blank {
            self.record_symbol(&info, &key);
            self.record_node(&info, &key);
            self.record_relationship(&info, &key);
        }
        let ghost old_lines = self.lines@;
        self.lines.push(info);
        proof {
            assert(lines_view(self.lines@) =~= lines_view(old_lines).push(info@));
        }
    }
}

/// The span of an optional byte range of a line body that starts at
/// `body_offset` bytes into `raw`.
fn range_span(number: u32, raw: &[char], body_offset: u128, r: Option<(u128, u128)>) -> (s:
    Option<Span>)
    requires
        body_offset <= 4 * raw.len(),
        r matches Some(p) ==> p.0 <= p.1 <= 8 * raw.len() + 8,
    ensures
        s == match opt_range_view(r) {
            Some(p) => Some(
                span_of_range(number, raw@, (body_offset + p.0, body_offset + p.1)),
            ),
            None => None,
        },
{
    match r {
        Some((a, b)) => Some(
            Span::new(
                number,
                crate::text::byte_to_utf16_of(raw, body_offset + a),
                crate::text::byte_to_utf16_of(raw, body_offset + b),
            ),
        ),
        None => None,
    }
}


/// The predicate `relationship_between` searches by.
pub open spec fn connects(e: RelationshipEntryV, source: Seq<char>, target: Seq<char>) -> bool {
    e.source == Some(source) && e.target == Some(target)
}

/// The predicate `references_to` filters by.
pub open spec fn refers_to(s: SymbolV, name: Seq<char>) -> bool {
    s.kind is NodeReference && s.text == name
}

/// Relationships from `source` to `target`.
pub open spec fn connects_pred(source: Seq<char>, target: Seq<char>) -> spec_fn(
    RelationshipEntryV,
) -> bool {
    |e: RelationshipEntryV| connects(e, source, target)
}

/// Symbols under `position`.
pub open spec fn under_pred(position: Position) -> spec_fn(SymbolV) -> bool {
    |s: SymbolV| s.span.spec_contains(position)
}

/// Nodes called `name`.
pub open spec fn named_pred(name: Seq<char>) -> spec_fn(NodeEntryV) -> bool {
    |n: NodeEntryV| n.name == name
}

/// References to the node called `name`.
pub open spec fn refers_pred(name: Seq<char>) -> spec_fn(SymbolV) -> bool {
    |s: SymbolV| refers_to(s, name)
}

impl DocumentIndex {
    /// Scans `source` and builds the index. Never fails.
    pub fn build(source: &str) -> (index: Self)
        ensures
            index@ == index_spec(source@),
    {
        let cs = chars_of(source);
        let lines = lines_of(cs.as_slice());
        let ghost spec_lines = split_lines(source@);
        let mut builder = Builder::new();
        let mut i: usize = 0;
        while i < lines.len()
            invariant
                i <= lines.len(),
                lines@.len() == spec_lines.len(),
                spec_lines == split_lines(source@),
                forall|k: int| 0 <= k < lines@.len() ==> #[trigger] lines@[k]@ == spec_lines[k],
                builder@ == scan_prefix(spec_lines, i as nat),
            decreases lines.len() - i,
        {
            let number: u32 = if i > u32::MAX as usize {
                u32::MAX
            } else {
                i as u32
            };
            builder.push(number, lines[i].as_slice());
            i = i + 1;
        }
        builder.finish()
    }

    /// Every line, in order.
    pub fn lines(&self) -> (r: &[LineInfo])
        ensures
            lines_view(r@) == self@.lines,
    {
        self.lines.as_slice()
    }

    /// The information for line `number`, if the document has that line.
    pub fn line(&self, number: u32) -> (r: Option<&LineInfo>)
        ensures
            match r {
                Some(l) => number < self@.lines.len() && l@ == self@.lines[number as int],
                None => number >= self@.lines.len(),
            },
    {
        let i = number as usize;
        if i < self.lines.len() {
            Some(&self.lines[i])
        } else {
            None
        }
    }

    /// The raw text of line `number`, without its terminator.
    pub fn raw_line(&self, number: u32) -> (r: Option<&str>)
        ensures
            match r {
                Some(l) => number < self@.raw_lines.len() && l@ == self@.raw_lines[number as int],
                None => number >= self@.raw_lines.len(),
            },
    {
        let i = number as usize;
        if i < self.raw_lines.len() {
            Some(self.raw_lines[i].as_str())
        } else {
            None
        }
    }

    /// How many lines the document has, saturating at `u32::MAX`.
    pub fn line_count(&self) -> (n: u32)
        ensures
            n == clamp_u32(self@.lines.len() as int),
    {
        if self.lines.len() > u32::MAX as usize {
            u32::MAX
        } else {
            self.lines.len() as u32
        }
    }

    /// Every resolved symbol, in document order.
    pub fn symbols(&self) -> (r: &[Symbol])
        ensures
            symbols_view(r@) == self@.symbols,
    {
        self.symbols.as_slice()
    }

    /// Every node declaration, in document order.
    pub fn nodes(&self) -> (r: &[NodeEntry])
        ensures
            nodes_view(r@) == self@.nodes,
    {
        self.nodes.as_slice()
    }

    /// Every relationship declaration, in document order.
    pub fn relationships(&self) -> (r: &[RelationshipEntry])
        ensures
            rels_view(r@) == self@.relationships,
    {
        self.relationships.as_slice()
    }

    /// The first relationship declared from `source` to `target`.
    pub fn relationship_between(&self, source: &str, target: &str) -> (r: Option<
        &RelationshipEntry,
    >)
        ensures
            ({
                let k = first_match(self@.relationships, connects_pred(source@, target@));
                match r {
                    Some(e) => k < self@.relationships.len() && e@ == self@.relationships[k],
                    None => k == self@.relationships.len(),
                }
            }),
    {
        let ghost p = connects_pred(source@, target@);
        let ghost rels = self@.relationships;
        let mut i: usize = 0;
        while i < self.relationships.len()
            invariant
                i <= self.relationships.len(),
                rels == rels_view(self.relationships@),
                p == connects_pred(source@, target@),
                forall|j: int| 0 <= j < i ==> !p(#[trigger] rels[j]),
            decreases self.relationships.len() - i,
        {
            let e = &self.relationships[i];
            assert(rels[i as int] == e@);
            let matched = match (&e.source, &e.target) {
                (Some(s), Some(t)) => str_eq(s.as_str(), source) && str_eq(t.as_str(), target),
                _ => false,
            };
            if matched {
                proof {
                    lemma_first_match_is(rels, p, i as int);
                }
                return Some(e);
            }
            i = i + 1;
        }
        proof {
            lemma_first_match_is(rels, p, i as int);
        }
        None
    }

    /// The names of every declared node, in document order.
    pub fn node_names(&self) -> (r: Vec<&str>)
        ensures
            r@.len() == self@.nodes.len(),
            forall|i: int| 0 <= i < r@.len() ==> #[trigger] r@[i]@ == self@.nodes[i].name,
    {
        let mut r: Vec<&str> = Vec::new();
        let mut i: usize = 0;
        while i < self.nodes.len()
            invariant
                i <= self.nodes.len(),
                r@.len() == i,
                forall|k: int| 0 <= k < i ==> #[trigger] r@[k]@ == self@.nodes[k].name,
            decreases self.nodes.len() - i,
        {
            r.push(self.nodes[i].name.as_str());
            i = i + 1;
        }
        r
    }

    /// The first symbol whose span contains `position`.
    pub fn symbol_at(&self, position: Position) -> (r: Option<&Symbol>)
        ensures
            ({
                let k = first_match(self@.symbols, under_pred(position));
                match r {
                    Some(s) => k < self@.symbols.len() && s@ == self@.symbols[k],
                    None => k == self@.symbols.len(),
                }
            }),
    {
        let ghost p = under_pred(position);
        let ghost syms = self@.symbols;
        let mut i: usize = 0;
        while i < self.symbols.len()
            invariant
                i <= self.symbols.len(),
                syms == symbols_view(self.symbols@),
                p == under_pred(position),
                forall|j: int| 0 <= j < i ==> !p(#[trigger] syms[j]),
            decreases self.symbols.len() - i,
        {
            assert(syms[i as int] == self.symbols@[i as int]@);
            if self.symbols[i].span.contains(position) {
                proof {
                    lemma_first_match_is(syms, p, i as int);
                }
                return Some(&self.symbols[i]);
            }
            i = i + 1;
        }
        proof {
            lemma_first_match_is(syms, p, i as int);
        }
        None
    }

    /// The first declaration of the node called `name`.
    pub fn node_named(&self, name: &str) -> (r: Option<&NodeEntry>)
        ensures
            ({
                let k = first_match(self@.nodes, named_pred(name@));
                match r {
                    Some(n) => k < self@.nodes.len() && n@ == self@.nodes[k],
                    None => k == self@.nodes.len(),
                }
            }),
    {
        let ghost p = named_pred(name@);
        let ghost nodes = self@.nodes;
        let mut i: usize = 0;
        while i < self.nodes.len()
            invariant
                i <= self.nodes.len(),
                nodes == nodes_view(self.nodes@),
                p == named_pred(name@),
                forall|j: int| 0 <= j < i ==> !p(#[trigger] nodes[j]),
            decreases self.nodes.len() - i,
        {
            assert(nodes[i as int] == self.nodes@[i as int]@);
            if str_eq(self.nodes[i].name.as_str(), name) {
                proof {
                    lemma_first_match_is(nodes, p, i as int);
                }
                return Some(&self.nodes[i]);
            }
            i = i + 1;
        }
        proof {
            lemma_first_match_is(nodes, p, i as int);
        }
        None
    }

    /// Every reference to the node called `name`, in document order.
    pub fn references_to(&self, name: &str) -> (r: Vec<&Symbol>)
        ensures
            r@.map_values(|s: &Symbol| s@) == self@.symbols.filter(refers_pred(name@)),
    {
        let ghost p = refers_pred(name@);
        let ghost syms = self@.symbols;
        let mut r: Vec<&Symbol> = Vec::new();
        let mut i: usize = 0;
        while i < self.symbols.len()
            invariant
                i <= self.symbols.len(),
                syms == symbols_view(self.symbols@),
                p == refers_pred(name@),
                r@.map_values(|s: &Symbol| s@) == syms.take(i as int).filter(p),
            decreases self.symbols.len() - i,
        {
            let s = &self.symbols[i];
            assert(syms[i as int] == s@);
            let is_reference = match s.kind {
                SymbolKind::NodeReference(_) => true,
                _ => false,
            };
            let ghost before = r@;
            if is_reference && str_eq(s.text.as_str(), name) {
                r.push(s);
            }
            proof {
                reveal_with_fuel(Seq::<_>::filter, 1);
                assert(syms.take(i + 1).drop_last() =~= syms.take(i as int));
                assert(r@.map_values(|s: &Symbol| s@) =~= if p(syms[i as int]) {
                    before.map_values(|s: &Symbol| s@).push(syms[i as int])
                } else {
                    before.map_values(|s: &Symbol| s@)
                });
            }
            i = i + 1;
        }
        proof {
            assert(syms.take(i as int) =~= syms);
        }
        r
    }
}

impl Builder {
    /// Produces the finished index.
    fn finish(self) -> (index: DocumentIndex)
        ensures
            index@ == (IndexV {
                lines: self@.lines,
                raw_lines: self@.raw_lines,
                symbols: self@.symbols,
                nodes: self@.nodes,
                relationships: self@.relationships,
            }),
    {
        DocumentIndex {
            lines: self.lines,
            raw_lines: self.raw_lines,
            symbols: self.symbols,
            nodes: self.nodes,
            relationships: self.relationships,
        }
    }
}

/// Whether every position the builder has recorded lies on one of its first
/// `n` lines.
pub open spec fn spans_before(st: BuilderV, n: nat) -> bool {
    &&& forall|i: int| 0 <= i < st.symbols.len() ==> (#[trigger] st.symbols[i]).span.line < n
    &&& forall|i: int| 0 <= i < st.nodes.len() ==> (#[trigger] st.nodes[i]).name_span.line < n
    &&& forall|i: int| 0 <= i < st.relationships.len() ==> {
        let e = #[trigger] st.relationships[i];
        &&& e.item_line < n
        &&& (e.source_span matches Some(sp) ==> sp.line < n)
        &&& (e.target_span matches Some(sp) ==> sp.line < n)
    }
}

/// Consuming line `number` records positions on that line only, and one
/// line of information.
proof fn lemma_push_spans(st: BuilderV, number: u32, raw: Seq<char>, n: nat)
    requires
        spans_before(st, n),
        number < n,
    ensures
        spans_before(push_spec(st, number, raw), n),
        push_spec(st, number, raw).lines.len() == st.lines.len() + 1,
{
    let (st2, info) = line_info_spec(st, number, raw);
    assert(info.number == number);
    assert(info.value_span matches Some(sp) ==> sp.line == number);
    assert(spans_before(st2, n));
    let st3 = BuilderV { raw_lines: st2.raw_lines.push(raw), ..st2 };
    let a = record_symbol_spec(st3, info);
    assert(spans_before(a, n));
    let b = record_node_spec(a, info);
    assert(spans_before(b, n)) by {
        assert forall|i: int| 0 <= i < b.nodes.len() implies (#[trigger] b.nodes[i]).name_span.line < n by {
            if i < a.nodes.len() && b.nodes.len() == a.nodes.len() {
                if i != a.nodes.len() - 1 {
                    assert(b.nodes[i] == a.nodes[i]);
                }
            } else if i < a.nodes.len() {
                assert(b.nodes[i] == a.nodes[i]);
            }
        }
    }
    let c = record_relationship_spec(b, info);
    assert(spans_before(c, n)) by {
        assert forall|i: int| 0 <= i < c.relationships.len() implies {
            let e = #[trigger] c.relationships[i];
            &&& e.item_line < n
            &&& (e.source_span matches Some(sp) ==> sp.line < n)
            &&& (e.target_span matches Some(sp) ==> sp.line < n)
        } by {
            if i < b.relationships.len() && i != c.relationships.len() - 1 {
                assert(c.relationships[i] == b.relationships[i]);
            }
        }
    }
}

/// After the first `n` lines the builder holds `n` lines of information and
/// every position it recorded lies on one of them.
pub proof fn lemma_scan_spans(lines: Seq<Seq<char>>, n: nat)
    requires
        n <= lines.len(),
    ensures
        scan_prefix(lines, n).lines.len() == n,
        spans_before(scan_prefix(lines, n), n),
    decreases n,
{
    if n > 0 {
        lemma_scan_spans(lines, (n - 1) as nat);
        let prev = scan_prefix(lines, (n - 1) as nat);
        let number = clamp_u32(n - 1);
        assert(number <= n - 1);
        assert(spans_before(prev, n));
        lemma_push_spans(prev, number, lines[n - 1], n);
    }
}

/// Whether every position an index records lies on one of its first `n`
/// lines.
pub open spec fn index_spans_before(ix: IndexV, n: nat) -> bool {
    &&& forall|i: int| 0 <= i < ix.symbols.len() ==> (#[trigger] ix.symbols[i]).span.line < n
    &&& forall|i: int| 0 <= i < ix.nodes.len() ==> (#[trigger] ix.nodes[i]).name_span.line < n
    &&& forall|i: int| 0 <= i < ix.relationships.len() ==> {
        let e = #[trigger] ix.relationships[i];
        &&& e.item_line < n
        &&& (e.source_span matches Some(sp) ==> sp.line < n)
        &&& (e.target_span matches Some(sp) ==> sp.line < n)
    }
}

/// Every position a document's index records lies on one of its lines.
pub proof fn lemma_index_spans(source: Seq<char>)
    ensures
        index_spec(source).lines.len() == split_lines(source).len(),
        index_spans_before(index_spec(source), index_spec(source).lines.len()),
{
    let lines = split_lines(source);
    lemma_scan_spans(lines, lines.len());
}

/// Whether symbols stand in strictly increasing line order, each on a line
/// below `n`: at most one symbol per line, in document order.
pub open spec fn symbols_ordered(s: Seq<SymbolV>, n: nat) -> bool {
    &&& forall|i: int, j: int|
        0 <= i < j < s.len() ==> (#[trigger] s[i]).span.line < (#[trigger] s[j]).span.line
    &&& forall|i: int| 0 <= i < s.len() ==> (#[trigger] s[i]).span.line < n
}

/// Whether node entries open on strictly increasing lines, each named on its
/// opening line and ending at or after it, below line `n`.
pub open spec fn nodes_ordered(s: Seq<NodeEntryV>, n: nat) -> bool {
    &&& forall|i: int, j: int|
        0 <= i < j < s.len() ==> (#[trigger] s[i]).item_line < (#[trigger] s[j]).item_line
    &&& forall|i: int|
        0 <= i < s.len() ==> {
            let e = #[trigger] s[i];
            &&& e.name_span.line == e.item_line
            &&& e.item_line <= e.last_line
            &&& e.last_line < n
        }
}

/// Whether relationship entries open on strictly increasing lines, each
/// ending at or after its opening line, below line `n`.
pub open spec fn relationships_ordered(s: Seq<RelationshipEntryV>, n: nat) -> bool {
    &&& forall|i: int, j: int|
        0 <= i < j < s.len() ==> (#[trigger] s[i]).item_line < (#[trigger] s[j]).item_line
    &&& forall|i: int|
        0 <= i < s.len() ==> {
            let e = #[trigger] s[i];
            &&& e.item_line <= e.last_line
            &&& e.last_line < n
        }
}

/// Whether the builder has read the first `n` of `lines`: one line of
/// information for each, numbered by position, and the raw text of each.
pub open spec fn read_in_order(st: BuilderV, lines: Seq<Seq<char>>, n: nat) -> bool {
    &&& st.lines.len() == n
    &&& forall|i: int| 0 <= i < n ==> (#[trigger] st.lines[i]).number == clamp_u32(i)
    &&& st.raw_lines == lines.take(n as int)
}

/// Whether everything the builder recorded stands in line order below `n`.
pub open spec fn recorded_in_order(st: BuilderV, n: nat) -> bool {
    &&& symbols_ordered(st.symbols, n)
    &&& nodes_ordered(st.nodes, n)
    &&& relationships_ordered(st.relationships, n)
}

/// Consuming line `number` after lines `0..number` keeps the declarations in
/// line order.
proof fn lemma_push_in_order(st: BuilderV, number: u32, raw: Seq<char>)
    requires
        recorded_in_order(st, number as nat),
    ensures
        recorded_in_order(push_spec(st, number, raw), number as nat + 1),
{
    let n = number as nat + 1;
    let (st2, info) = line_info_spec(st, number, raw);
    assert(info.number == number);
    assert(info.value_span matches Some(sp) ==> sp.line == number);
    assert(st2.symbols == st.symbols && st2.nodes == st.nodes && st2.relationships == st.relationships);
    let st3 = BuilderV { raw_lines: st2.raw_lines.push(raw), ..st2 };
    if trim_empty(raw) {
        return;
    }
    let a = record_symbol_spec(st3, info);
    assert(symbols_ordered(a.symbols, n)) by {
        if a.symbols.len() > st.symbols.len() {
            assert forall|i: int, j: int| 0 <= i < j < a.symbols.len() implies (#[trigger] a.symbols[i]).span.line
                < (#[trigger] a.symbols[j]).span.line by {
                if j < st.symbols.len() {
                    assert(a.symbols[i] == st.symbols[i] && a.symbols[j] == st.symbols[j]);
                } else {
                    assert(a.symbols[i] == st.symbols[i]);
                }
            }
            assert forall|i: int| 0 <= i < a.symbols.len() implies (#[trigger] a.symbols[i]).span.line < n by {
                if i < st.symbols.len() {
                    assert(a.symbols[i] == st.symbols[i]);
                }
            }
        }
    }
    assert(a.nodes == st.nodes && a.relationships == st.relationships);
    let b = record_node_spec(a, info);
    assert(nodes_ordered(b.nodes, n)) by {
        let k = st.nodes.len() - 1;
        assert forall|i: int, j: int| 0 <= i < j < b.nodes.len() implies (#[trigger] b.nodes[i]).item_line
            < (#[trigger] b.nodes[j]).item_line by {
            if j < st.nodes.len() {
                assert(b.nodes[i].item_line == st.nodes[i].item_line);
                assert(b.nodes[j].item_line == st.nodes[j].item_line);
            } else {
                assert(b.nodes[i] == st.nodes[i]);
            }
        }
        assert forall|i: int| 0 <= i < b.nodes.len() implies {
            let e = #[trigger] b.nodes[i];
            &&& e.name_span.line == e.item_line
            &&& e.item_line <= e.last_line
            &&& e.last_line < n
        } by {
            if i < st.nodes.len() && b.nodes.len() == st.nodes.len() && i != k {
                assert(b.nodes[i] == st.nodes[i]);
            } else if i < st.nodes.len() && b.nodes.len() > st.nodes.len() {
                assert(b.nodes[i] == st.nodes[i]);
            }
        }
    }
    assert(b.symbols == a.symbols && b.relationships == st.relationships);
    let c = record_relationship_spec(b, info);
    assert(relationships_ordered(c.relationships, n)) by {
        let old_rels = st.relationships;
        let rels = if info.section == Section::Relationships && info.block == Block::Direct
            && info.is_list_item {
            old_rels.push(fresh_relationship(info))
        } else {
            old_rels
        };
        assert(relationships_ordered(rels, n)) by {
            if rels.len() > old_rels.len() {
                assert forall|i: int, j: int| 0 <= i < j < rels.len() implies (#[trigger] rels[i]).item_line
                    < (#[trigger] rels[j]).item_line by {
                    assert(rels[i] == old_rels[i]);
                    if j < old_rels.len() {
                        assert(rels[j] == old_rels[j]);
                    }
                }
                assert forall|i: int| 0 <= i < rels.len() implies {
                    let e = #[trigger] rels[i];
                    &&& e.item_line <= e.last_line
                    &&& e.last_line < n
                } by {
                    if i < old_rels.len() {
                        assert(rels[i] == old_rels[i]);
                    }
                }
            }
        }
        if info.section == Section::Relationships && info.block == Block::Direct && rels.len() > 0 {
            let k = rels.len() - 1;
            assert(rels[k].item_line <= number);
            assert forall|i: int, j: int| 0 <= i < j < c.relationships.len() implies (
            #[trigger] c.relationships[i]).item_line < (#[trigger] c.relationships[j]).item_line by {
                assert(c.relationships[i].item_line == rels[i].item_line);
                assert(c.relationships[j].item_line == rels[j].item_line);
            }
            assert forall|i: int| 0 <= i < c.relationships.len() implies {
                let e = #[trigger] c.relationships[i];
                &&& e.item_line <= e.last_line
                &&& e.last_line < n
            } by {
                if i != k {
                    assert(c.relationships[i] == rels[i]);
                }
            }
        }
    }
}

/// After the first `n` lines the builder has read them in order and
/// recorded its declarations in line order, provided no line number has
/// saturated.
pub proof fn lemma_scan_in_order(lines: Seq<Seq<char>>, n: nat)
    requires
        n <= lines.len(),
    ensures
        read_in_order(scan_prefix(lines, n), lines, n),
        n <= u32::MAX as nat + 1 ==> recorded_in_order(scan_prefix(lines, n), n),
    decreases n,
{
    if n == 0 {
        assert(lines.take(0) =~= Seq::<Seq<char>>::empty());
    } else {
        lemma_scan_in_order(lines, (n - 1) as nat);
        let prev = scan_prefix(lines, (n - 1) as nat);
        let number = clamp_u32(n - 1);
        let raw = lines[n - 1];
        let next = scan_prefix(lines, n);
        let (st2, info) = line_info_spec(prev, number, raw);
        assert(info.number == number);
        assert(st2.lines == prev.lines && st2.raw_lines == prev.raw_lines);
        assert(next.lines == prev.lines.push(info)) by {
            if !trim_empty(raw) {
                let st3 = BuilderV { raw_lines: st2.raw_lines.push(raw), ..st2 };
                let a = record_symbol_spec(st3, info);
                let b = record_node_spec(a, info);
                let c = record_relationship_spec(b, info);
                assert(c.lines == prev.lines);
            }
        }
        assert(next.raw_lines == prev.raw_lines.push(raw)) by {
            if !trim_empty(raw) {
                let st3 = BuilderV { raw_lines: st2.raw_lines.push(raw), ..st2 };
                let a = record_symbol_spec(st3, info);
                let b = record_node_spec(a, info);
                let c = record_relationship_spec(b, info);
                assert(c.raw_lines == st3.raw_lines);
            }
        }
        assert(lines.take(n as int) =~= lines.take(n - 1).push(raw));
        assert forall|i: int| 0 <= i < n implies (#[trigger] next.lines[i]).number == clamp_u32(i) by {
            if i < n - 1 {
                assert(next.lines[i] == prev.lines[i]);
            }
        }
        if n <= u32::MAX as nat + 1 {
            assert(number == n - 1);
            lemma_push_in_order(prev, number, raw);
        }
    }
}

/// A document's index is well formed: its `i`th line of information is
/// numbered `i` (saturating at `u32::MAX`), its raw lines are the source's
/// lines, and, for a document of at most `2^32` lines, its symbols (at most
/// one per line), node entries and relationship entries stand in strictly
/// increasing line order, each node named on its opening line, every entry
/// ending at or after it opens and before the line count.
pub proof fn law_index_well_formed(source: Seq<char>)
    ensures
        index_spec(source).lines.len() == split_lines(source).len(),
        forall|i: int|
            0 <= i < index_spec(source).lines.len() ==> (#[trigger] index_spec(source).lines[i]).number
                == clamp_u32(i),
        index_spec(source).raw_lines == split_lines(source),
        split_lines(source).len() <= u32::MAX as nat + 1 ==> {
            let ix = index_spec(source);
            let n = split_lines(source).len();
            &&& symbols_ordered(ix.symbols, n)
            &&& nodes_ordered(ix.nodes, n)
            &&& relationships_ordered(ix.relationships, n)
        },
{
    let lines = split_lines(source);
    lemma_scan_in_order(lines, lines.len());
    assert(lines.take(lines.len() as int) =~= lines);
}

/// A blank or comment-only line changes nothing but the two line lists: its
/// line of information carries the current section and block, its leading
/// spaces, and no list marker, key or value; no symbol or declaration is
/// recorded and the scope stays as it was.
pub proof fn law_blank_line_only_adds_a_line(st: BuilderV, number: u32, raw: Seq<char>)
    requires
        trim_empty(raw),
    ensures
        push_spec(st, number, raw) == (BuilderV {
            lines: st.lines.push(
                LineInfoV {
                    number,
                    indent: clamp_usize(leading_spaces(strip_comment_spec(raw)) as int),
                    section: st.section,
                    block: st.block,
                    is_list_item: false,
                    key: None,
                    key_span: None,
                    value: None,
                    value_span: None,
                },
            ),
            raw_lines: st.raw_lines.push(raw),
            ..st
        }),
{
    let content = strip_comment_spec(raw);
    crate::chars::lemma_leading_ws_bound(content);
    assert(content.skip(leading_ws(content) as int).len() == 0);
}

/// Inside an `interfaces:` or `controls:` block of a node or relationship,
/// a line that is not a top-level key closes the block when it is indented
/// less than the block's key, or as much without a list marker. A closing
/// line sits outside any block and may open a new one with its own key; a
/// line that does not close the block sits in it and leaves the scope as it
/// was.
pub proof fn law_nested_block_scope(
    st: BuilderV,
    indent: usize,
    is_list_item: bool,
    key: Option<Seq<char>>,
    k: usize,
)
    requires
        st.section == Section::Nodes || st.section == Section::Relationships,
        st.block == Block::Interfaces || st.block == Block::Controls,
        st.block_indent == Some(k),
        !(indent == 0 && !is_list_item),
    ensures
        ({
            let (after, line_block) = update_scope_spec(st, indent, is_list_item, key);
            let closes = indent < k || (indent == k && !is_list_item);
            &&& after.section == st.section
            &&& line_block == (if closes {
                Block::Direct
            } else {
                st.block
            })
            &&& !closes ==> after.block == st.block && after.block_indent == st.block_indent
            &&& closes ==> if key == Some("interfaces"@) {
                after.block == Block::Interfaces && after.block_indent == Some(indent)
            } else if key == Some("controls"@) {
                after.block == Block::Controls && after.block_indent == Some(indent)
            } else {
                after.block == Block::Direct && after.block_indent is None
            }
        }),
{
}

} // verus!
