//! Quick-fixes that write the YAML a diagnostic is asking for.
//!
//! Inserting text into an indentation-sensitive format is where a well-meaning
//! code action becomes a nuisance. Two rules keep it honest: new entries adopt
//! the indentation of an existing `controls:` block rather than one invented
//! here, and inserted controls carry `TODO` markers, because the point of a
//! control is the human judgement in its description.
use vstd::prelude::*;

use crate::chars::{chars_of, concat_strs, joined, joined_with, owned, str_eq, string_from_chars, sub_chars};
use crate::diagnostics::{Diagnostic, DiagnosticV};
use crate::index::{lines_view, nodes_view, DocumentIndex, IndexV, LineInfoV, NodeEntry, NodeEntryV};
use crate::navigation::span_le_exec;
use crate::seqs::{first_match, lemma_first_match_is};
use crate::text::{char_index_at_units, char_index_at_units_of, span_le, utf16_len, Span};
use crate::words::{lines_of, split_lines};
use crate::chars::{clamp_u32, utf16_units};

verus! {

/// A single text replacement; an insertion replaces an empty span.
#[derive(Clone, Debug, PartialEq, Eq)]
pub struct TextEdit {
    /// The range replaced.
    pub span: Span,
    /// The text to put there.
    pub new_text: String,
}

/// The model of a [`TextEdit`].
pub struct TextEditV {
    pub span: Span,
    pub new_text: Seq<char>,
}

impl View for TextEdit {
    type V = TextEditV;

    open spec fn view(&self) -> TextEditV {
        TextEditV { span: self.span, new_text: self.new_text@ }
    }
}

/// How an editor should categorise an action.
#[derive(Clone, Copy, Debug, PartialEq, Eq, Structural)]
pub enum ActionKind {
    /// Fixes a specific diagnostic.
    QuickFix,
    /// Acts on the document as a whole.
    Source,
}

/// A workspace command the client asks the server to run.
#[derive(Clone, Debug, PartialEq, Eq)]
pub struct Command {
    /// The command identifier.
    pub id: String,
    /// The human-readable title.
    pub title: String,
}

/// The model of a [`Command`].
pub struct CommandV {
    pub id: Seq<char>,
    pub title: Seq<char>,
}

impl View for Command {
    type V = CommandV;

    open spec fn view(&self) -> CommandV {
        CommandV { id: self.id@, title: self.title@ }
    }
}

/// An offer to change the document.
#[derive(Clone, Debug, PartialEq, Eq)]
pub struct CodeAction {
    /// What the editor shows in the lightbulb menu.
    pub title: String,
    /// How to categorise it.
    pub kind: ActionKind,
    /// The edits to apply.
    pub edits: Vec<TextEdit>,
    /// A command to run instead of, or alongside, the edits.
    pub command: Option<Command>,
    /// The diagnostic code this action resolves, if any.
    pub resolves: Option<String>,
}

/// The model of a [`CodeAction`].
pub struct CodeActionV {
    pub title: Seq<char>,
    pub kind: ActionKind,
    pub edits: Seq<TextEditV>,
    pub command: Option<CommandV>,
    pub resolves: Option<Seq<char>>,
}

impl View for CodeAction {
    type V = CodeActionV;

    open spec fn view(&self) -> CodeActionV {
        CodeActionV {
            title: self.title@,
            kind: self.kind,
            edits: self.edits@.map_values(|e: TextEdit| e@),
            command: match self.command {
                Some(c) => Some(c@),
                None => None,
            },
            resolves: match self.resolves {
                Some(r) => Some(r@),
                None => None,
            },
        }
    }
}

/// The models of a sequence of actions.
pub open spec fn actions_view(v: Seq<CodeAction>) -> Seq<CodeActionV> {
    v.map_values(|a: CodeAction| a@)
}

/// The command identifier for diagram generation.
pub const GENERATE_DIAGRAM: &'static str = "casm.generateDiagram";

/// The command identifier for validating every architecture file in the workspace.
pub const VALIDATE_WORKSPACE: &'static str = "casm.validateWorkspace";

/// A whole-document action that runs a command and edits nothing.
pub open spec fn command_action(title: Seq<char>, id: Seq<char>, command_title: Seq<char>) -> CodeActionV {
    CodeActionV {
        title,
        kind: ActionKind::Source,
        edits: Seq::empty(),
        command: Some(CommandV { id, title: command_title }),
        resolves: None,
    }
}

/// A whole-document action running the command `id`.
fn command_action_exec(title: &str, id: &str, command_title: &str) -> (a: CodeAction)
    ensures
        a@ == command_action(title@, id@, command_title@),
{
    let a = CodeAction {
        title: owned(title),
        kind: ActionKind::Source,
        edits: Vec::new(),
        command: Some(Command { id: owned(id), title: owned(command_title) }),
        resolves: None,
    };
    assert(a@.edits =~= Seq::<TextEditV>::empty());
    a
}

/// The actions that apply to the document as a whole.
pub open spec fn source_actions_spec() -> Seq<CodeActionV> {
    seq![
        command_action(
            "CASIMIR: generate Mermaid diagram"@,
            GENERATE_DIAGRAM@,
            "Generate Mermaid diagram"@,
        ),
        command_action(
            "CASIMIR: validate every architecture in the workspace"@,
            VALIDATE_WORKSPACE@,
            "Validate workspace"@,
        ),
    ]
}

/// The actions that apply to the document as a whole: generating a diagram
/// and validating the workspace.
pub fn source_actions() -> (r: Vec<CodeAction>)
    ensures
        actions_view(r@) == source_actions_spec(),
{
    let mut r: Vec<CodeAction> = Vec::new();
    r.push(
        command_action_exec(
            "CASIMIR: generate Mermaid diagram",
            GENERATE_DIAGRAM,
            "Generate Mermaid diagram",
        ),
    );
    r.push(
        command_action_exec(
            "CASIMIR: validate every architecture in the workspace",
            VALIDATE_WORKSPACE,
            "Validate workspace",
        ),
    );
    assert(actions_view(r@) =~= seq![
        command_action(
            "CASIMIR: generate Mermaid diagram"@,
            GENERATE_DIAGRAM@,
            "Generate Mermaid diagram"@,
        ),
        command_action(
            "CASIMIR: validate every architecture in the workspace"@,
            VALIDATE_WORKSPACE@,
            "Validate workspace"@,
        ),
    ]);
    r
}

/// A control to insert: its type, its standard and its description.
pub type ControlText = (&'static str, &'static str, &'static str);

/// The model of a control to insert.
pub open spec fn control_view(c: (&str, &str, &str)) -> (Seq<char>, Seq<char>, Seq<char>) {
    (c.0@, c.1@, c.2@)
}

/// The controls offered for a service that declares too few.
pub fn security_controls() -> (r: Vec<ControlText>)
    ensures
        r@.map_values(|c: ControlText| control_view(c)) == seq![
            ("security"@, "TODO-AUTHENTICATION"@, "TODO describe how callers of this node are authenticated"@),
            ("security"@, "TODO-AUTHORISATION"@, "TODO describe what a caller must be permitted to do"@),
        ],
{
    let r = vec![
        ("security", "TODO-AUTHENTICATION", "TODO describe how callers of this node are authenticated"),
        ("security", "TODO-AUTHORISATION", "TODO describe what a caller must be permitted to do"),
    ];
    assert(r@.map_values(|c: ControlText| control_view(c)) =~= seq![
        ("security"@, "TODO-AUTHENTICATION"@, "TODO describe how callers of this node are authenticated"@),
        ("security"@, "TODO-AUTHORISATION"@, "TODO describe what a caller must be permitted to do"@),
    ]);
    r
}

/// The controls offered for a datastore that declares none.
pub fn datastore_controls() -> (r: Vec<ControlText>)
    ensures
        r@.map_values(|c: ControlText| control_view(c)) == seq![
            ("security"@, "TODO-ENCRYPTION-AT-REST"@, "TODO describe how this data is encrypted at rest and where the keys live"@),
            ("operational"@, "TODO-BACKUP"@, "TODO describe the backup schedule, retention, and when a restore was last tested"@),
        ],
{
    let r = vec![
        ("security", "TODO-ENCRYPTION-AT-REST", "TODO describe how this data is encrypted at rest and where the keys live"),
        ("operational", "TODO-BACKUP", "TODO describe the backup schedule, retention, and when a restore was last tested"),
    ];
    assert(r@.map_values(|c: ControlText| control_view(c)) =~= seq![
        ("security"@, "TODO-ENCRYPTION-AT-REST"@, "TODO describe how this data is encrypted at rest and where the keys live"@),
        ("operational"@, "TODO-BACKUP"@, "TODO describe the backup schedule, retention, and when a restore was last tested"@),
    ]);
    r
}

/// Whether line `l` lies within node `n`'s item.
pub open spec fn in_node(l: LineInfoV, n: NodeEntryV) -> bool {
    n.item_line <= l.number <= n.last_line
}

/// Nodes whose item covers line `line`.
pub open spec fn covers_pred(line: u32) -> spec_fn(NodeEntryV) -> bool {
    |n: NodeEntryV| n.item_line <= line <= n.last_line
}

/// Finds the node whose item the line of `span` sits on.
pub fn node_at(index: &DocumentIndex, span: Span) -> (r: Option<&NodeEntry>)
    ensures
        ({
            let k = first_match(index@.nodes, covers_pred(span.line));
            match r {
                Some(n) => k < index@.nodes.len() && n@ == index@.nodes[k],
                None => k == index@.nodes.len(),
            }
        }),
{
    let ghost p = covers_pred(span.line);
    let ghost ns = index@.nodes;
    let nodes = index.nodes();
    let mut i: usize = 0;
    while i < nodes.len()
        invariant
            i <= nodes.len(),
            ns == index@.nodes,
            nodes_view(nodes@) == ns,
            p == covers_pred(span.line),
            forall|j: int| 0 <= j < i ==> !p(#[trigger] ns[j]),
        decreases nodes.len() - i,
    {
        assert(ns[i as int] == nodes@[i as int]@);
        if span.line >= nodes[i].item_line && span.line <= nodes[i].last_line {
            proof {
                lemma_first_match_is(ns, p, i as int);
            }
            return Some(&nodes[i]);
        }
        i = i + 1;
    }
    proof {
        lemma_first_match_is(ns, p, i as int);
    }
    None
}

/// Where an existing `controls:` block sits within a node.
#[derive(Clone, Copy, Debug, PartialEq, Eq, Structural)]
pub struct ControlsBlock {
    /// The block's last line.
    pub last_line: u32,
    /// The indent of the block's entries.
    pub entry_indent: usize,
}

/// `n + 2`, saturating.
pub open spec fn sat_add2(n: usize) -> usize {
    if n + 2 > usize::MAX {
        usize::MAX
    } else {
        (n + 2) as usize
    }
}

/// Lines of node `n` that open its `controls:` block.
pub open spec fn header_pred(n: NodeEntryV) -> spec_fn(LineInfoV) -> bool {
    |l: LineInfoV| in_node(l, n) && l.key == Some("controls"@) && l.indent == n.field_indent
}

/// Whether `l` belongs to the block opened by header `h` in node `n`: after
/// the header and deeper than it, or a sequence entry at its indent (an entry
/// may sit flush with its key).
pub open spec fn in_block(l: LineInfoV, n: NodeEntryV, h: LineInfoV) -> bool {
    in_node(l, n) && l.number > h.number && (l.indent > h.indent || (l.indent == h.indent
        && l.is_list_item))
}

/// The indent of the first sequence entry of the block among the first `upto`
/// lines.
pub open spec fn first_entry_indent(lines: Seq<LineInfoV>, n: NodeEntryV, h: LineInfoV, upto: int) -> Option<usize>
    decreases upto,
{
    if upto <= 0 {
        None
    } else {
        match first_entry_indent(lines, n, h, upto - 1) {
            Some(x) => Some(x),
            None => if in_block(lines[upto - 1], n, h) && lines[upto - 1].is_list_item {
                Some(lines[upto - 1].indent)
            } else {
                None
            },
        }
    }
}

/// The number of the last line of the block among the first `upto` lines.
pub open spec fn last_block_line(lines: Seq<LineInfoV>, n: NodeEntryV, h: LineInfoV, upto: int) -> Option<u32>
    decreases upto,
{
    if upto <= 0 {
        None
    } else if in_block(lines[upto - 1], n, h) {
        Some(lines[upto - 1].number)
    } else {
        last_block_line(lines, n, h, upto - 1)
    }
}

/// A node's existing `controls:` block: the author's own entry indentation
/// wins, else two deeper than the header.
pub open spec fn controls_block_spec(ix: IndexV, n: NodeEntryV) -> Option<ControlsBlock> {
    let k = first_match(ix.lines, header_pred(n));
    if k < ix.lines.len() {
        let h = ix.lines[k];
        let len = ix.lines.len() as int;
        Some(
            ControlsBlock {
                last_line: match last_block_line(ix.lines, n, h, len) {
                    Some(l) => l,
                    None => h.number,
                },
                entry_indent: match first_entry_indent(ix.lines, n, h, len) {
                    Some(x) => x,
                    None => sat_add2(h.indent),
                },
            },
        )
    } else {
        None
    }
}

/// Locates a node's existing `controls:` block, if it has one.
pub fn controls_block(index: &DocumentIndex, node: &NodeEntry) -> (r: Option<ControlsBlock>)
    ensures
        r == controls_block_spec(index@, node@),
{
    let ghost n = node@;
    let ghost ls = index@.lines;
    let ghost p = header_pred(n);
    let lines = index.lines();
    let mut k: usize = 0;
    while k < lines.len()
        invariant
            k <= lines.len(),
            ls == index@.lines,
            lines_view(lines@) == ls,
            n == node@,
            p == header_pred(n),
            forall|j: int| 0 <= j < k ==> !p(#[trigger] ls[j]),
        ensures
            k <= lines.len(),
            forall|j: int| 0 <= j < k ==> !p(#[trigger] ls[j]),
            k < lines.len() ==> p(ls[k as int]),
        decreases lines.len() - k,
    {
        let l = &lines[k];
        assert(ls[k as int] == l@);
        let is_header = l.number >= node.item_line && l.number <= node.last_line && l.indent
            == node.field_indent && match &l.key {
            Some(key) => str_eq(key.as_str(), "controls"),
            None => false,
        };
        if is_header {
            break;
        }
        k = k + 1;
    }
    proof {
        if k < lines.len() {
            assert(p(ls[k as int]));
        }
        lemma_first_match_is(ls, p, k as int);
    }
    if k >= lines.len() {
        return None;
    }
    let header = &lines[k];
    let ghost h = ls[k as int];
    assert(h == header@);
    let mut entry: Option<usize> = None;
    let mut last: Option<u32> = None;
    let mut i: usize = 0;
    while i < lines.len()
        invariant
            i <= lines.len(),
            ls == index@.lines,
            lines_view(lines@) == ls,
            n == node@,
            h == header@,
            entry == first_entry_indent(ls, n, h, i as int),
            last == last_block_line(ls, n, h, i as int),
        decreases lines.len() - i,
    {
        let l = &lines[i];
        assert(ls[i as int] == l@);
        let inside = l.number >= node.item_line && l.number <= node.last_line && l.number
            > header.number && (l.indent > header.indent || (l.indent == header.indent
            && l.is_list_item));
        if inside {
            last = Some(l.number);
            if entry.is_none() && l.is_list_item {
                entry = Some(l.indent);
            }
        }
        i = i + 1;
    }
    Some(
        ControlsBlock {
            last_line: match last {
                Some(l) => l,
                None => header.number,
            },
            entry_indent: match entry {
                Some(x) => x,
                None => header.indent.saturating_add(2),
            },
        },
    )
}

/// `n` spaces.
pub open spec fn spaces(n: nat) -> Seq<char> {
    Seq::new(n, |i: int| ' ')
}

/// The YAML for one control entry at indent `entry`.
pub open spec fn control_entry(entry: usize, c: (Seq<char>, Seq<char>, Seq<char>)) -> Seq<char> {
    let field = spaces(sat_add2(entry) as nat);
    "\n"@ + spaces(entry as nat) + "- type: "@ + c.0 + "\n"@ + field + "standard: "@ + c.1 + "\n"@
        + field + "description: "@ + c.2
}

/// The YAML for a list of control entries at indent `entry`.
pub open spec fn control_entries(entry: usize, cs: Seq<(Seq<char>, Seq<char>, Seq<char>)>) -> Seq<char>
    decreases cs.len(),
{
    if cs.len() == 0 {
        Seq::empty()
    } else {
        control_entries(entry, cs.drop_last()) + control_entry(entry, cs.last())
    }
}

/// The anchor line, entry indent and header of the inserted text: after an
/// existing block, or a new `controls:` header at the end of the node.
pub open spec fn insertion_point(ix: IndexV, n: NodeEntryV) -> (u32, usize, bool) {
    match controls_block_spec(ix, n) {
        Some(b) => (b.last_line, b.entry_indent, false),
        None => (n.last_line, sat_add2(n.field_indent), true),
    }
}

/// The text `add_controls` inserts.
pub open spec fn controls_text(ix: IndexV, n: NodeEntryV, cs: Seq<(Seq<char>, Seq<char>, Seq<char>)>) -> Seq<char> {
    let (anchor, entry, needs_header) = insertion_point(ix, n);
    (if needs_header {
        "\n"@ + spaces(n.field_indent as nat) + "controls:"@
    } else {
        Seq::empty()
    }) + control_entries(entry, cs)
}

/// The end of line `line`, in UTF-16 units (0 when there is no such line).
pub open spec fn line_end(ix: IndexV, line: u32) -> u32 {
    if line < ix.raw_lines.len() {
        clamp_u32(utf16_units(ix.raw_lines[line as int]) as int)
    } else {
        0
    }
}

/// The quick-fix appending `cs` to node `n`'s controls.
pub open spec fn add_controls_spec(
    ix: IndexV,
    n: NodeEntryV,
    code: Seq<char>,
    title: Seq<char>,
    cs: Seq<(Seq<char>, Seq<char>, Seq<char>)>,
) -> CodeActionV {
    let (anchor, entry, needs_header) = insertion_point(ix, n);
    let column = line_end(ix, anchor);
    CodeActionV {
        title,
        kind: ActionKind::QuickFix,
        edits: seq![
            TextEditV {
                span: Span { line: anchor, start: column, end: column },
                new_text: controls_text(ix, n, cs),
            },
        ],
        command: None,
        resolves: Some(code),
    }
}

/// Appends the characters of `s` to `v`.
fn push_str(v: &mut Vec<char>, s: &str)
    ensures
        final(v)@ == old(v)@ + s@,
{
    let cs = chars_of(s);
    let mut i: usize = 0;
    while i < cs.len()
        invariant
            i <= cs.len(),
            cs@ == s@,
            v@ == old(v)@ + cs@.take(i as int),
        decreases cs.len() - i,
    {
        v.push(cs[i]);
        i = i + 1;
        assert(v@ =~= old(v)@ + cs@.take(i as int));
    }
    assert(cs@.take(cs.len() as int) =~= cs@);
}

/// Appends `n` spaces to `v`.
fn push_spaces(v: &mut Vec<char>, n: usize)
    ensures
        final(v)@ == old(v)@ + spaces(n as nat),
{
    let mut i: usize = 0;
    while i < n
        invariant
            i <= n,
            v@ == old(v)@ + spaces(i as nat),
        decreases n - i,
    {
        v.push(' ');
        i = i + 1;
        assert(v@ =~= old(v)@ + spaces(i as nat));
    }
}

/// Builds an action that appends `controls` to `node`, after its existing
/// `controls:` block when it has one and under a new header otherwise.
pub fn add_controls(
    index: &DocumentIndex,
    node: &NodeEntry,
    code: &str,
    title: &str,
    controls: &[ControlText],
) -> (a: CodeAction)
    ensures
        a@ == add_controls_spec(
            index@,
            node@,
            code@,
            title@,
            controls@.map_values(|c: ControlText| control_view(c)),
        ),
{
    let ghost cs = controls@.map_values(|c: ControlText| control_view(c));
    let existing = controls_block(index, node);
    let (anchor_line, entry_indent, needs_header) = match existing {
        Some(block) => (block.last_line, block.entry_indent, false),
        None => (node.last_line, node.field_indent.saturating_add(2), true),
    };
    let mut text: Vec<char> = Vec::new();
    if needs_header {
        push_str(&mut text, "\n");
        push_spaces(&mut text, node.field_indent);
        push_str(&mut text, "controls:");
    }
    let ghost head = text@;
    assert(head == if needs_header {
        "\n"@ + spaces(node.field_indent as nat) + "controls:"@
    } else {
        Seq::<char>::empty()
    });
    let field_indent = entry_indent.saturating_add(2);
    let mut i: usize = 0;
    while i < controls.len()
        invariant
            i <= controls.len(),
            cs == controls@.map_values(|c: ControlText| control_view(c)),
            field_indent == sat_add2(entry_indent),
            text@ == head + control_entries(entry_indent, cs.take(i as int)),
        decreases controls.len() - i,
    {
        let (control_type, standard, description) = controls[i];
        let ghost before = text@;
        push_str(&mut text, "\n");
        push_spaces(&mut text, entry_indent);
        push_str(&mut text, "- type: ");
        push_str(&mut text, control_type);
        push_str(&mut text, "\n");
        push_spaces(&mut text, field_indent);
        push_str(&mut text, "standard: ");
        push_str(&mut text, standard);
        push_str(&mut text, "\n");
        push_spaces(&mut text, field_indent);
        push_str(&mut text, "description: ");
        push_str(&mut text, description);
        proof {
            assert(cs.take(i + 1).drop_last() =~= cs.take(i as int));
            assert(cs[i as int] == (control_type@, standard@, description@));
            assert(text@ =~= before + control_entry(entry_indent, cs[i as int]));
        }
        i = i + 1;
    }
    assert(cs.take(controls.len() as int) =~= cs);
    let column = match index.raw_line(anchor_line) {
        Some(line) => utf16_len(line),
        None => 0,
    };
    let mut edits: Vec<TextEdit> = Vec::new();
    edits.push(TextEdit { span: Span::new(anchor_line, column, column), new_text: string_from_chars(text.as_slice()) });
    let a = CodeAction {
        title: owned(title),
        kind: ActionKind::QuickFix,
        edits,
        command: None,
        resolves: Some(owned(code)),
    };
    assert(a@.edits =~= add_controls_spec(index@, node@, code@, title@, cs).edits);
    a
}

/// The quick-fixes `diagnostic` offers: the missing controls for a node that
/// declares too few, and nothing otherwise.
pub open spec fn quick_fixes_spec(ix: IndexV, span: Span, code: Seq<char>) -> Seq<CodeActionV> {
    let k = first_match(ix.nodes, covers_pred(span.line));
    if k >= ix.nodes.len() {
        Seq::empty()
    } else if code == "services-require-security-controls"@ {
        seq![
            add_controls_spec(
                ix,
                ix.nodes[k],
                code,
                "Add the missing security controls"@,
                seq![
                    ("security"@, "TODO-AUTHENTICATION"@, "TODO describe how callers of this node are authenticated"@),
                    ("security"@, "TODO-AUTHORISATION"@, "TODO describe what a caller must be permitted to do"@),
                ],
            ),
        ]
    } else if code == "stateful-nodes-require-controls"@ {
        seq![
            add_controls_spec(
                ix,
                ix.nodes[k],
                code,
                "Add controls for this datastore"@,
                seq![
                    ("security"@, "TODO-ENCRYPTION-AT-REST"@, "TODO describe how this data is encrypted at rest and where the keys live"@),
                    ("operational"@, "TODO-BACKUP"@, "TODO describe the backup schedule, retention, and when a restore was last tested"@),
                ],
            ),
        ]
    } else {
        Seq::empty()
    }
}

/// Builds the quick-fixes available for `diagnostic`.
pub fn quick_fixes(index: &DocumentIndex, diagnostic: &Diagnostic) -> (r: Vec<CodeAction>)
    ensures
        actions_view(r@) == quick_fixes_spec(index@, diagnostic.span, diagnostic.code@),
{
    let node = match node_at(index, diagnostic.span) {
        Some(n) => n,
        None => {
            let r: Vec<CodeAction> = Vec::new();
            assert(actions_view(r@) =~= Seq::<CodeActionV>::empty());
            return r;
        },
    };
    let mut r: Vec<CodeAction> = Vec::new();
    if str_eq(diagnostic.code.as_str(), "services-require-security-controls") {
        let controls = security_controls();
        r.push(add_controls(index, node, diagnostic.code.as_str(), "Add the missing security controls", controls.as_slice()));
    } else if str_eq(diagnostic.code.as_str(), "stateful-nodes-require-controls") {
        let controls = datastore_controls();
        r.push(add_controls(index, node, diagnostic.code.as_str(), "Add controls for this datastore", controls.as_slice()));
    }
    assert(actions_view(r@) =~= quick_fixes_spec(index@, diagnostic.span, diagnostic.code@));
    r
}

/// `a` comes strictly before `b` in document order.
pub open spec fn span_lt(a: Span, b: Span) -> bool {
    !span_le(b, a)
}

/// Edits whose span lies strictly before `span`.
pub open spec fn before_pred(span: Span) -> spec_fn(TextEditV) -> bool {
    |e: TextEditV| span_lt(e.span, span)
}

/// `e` placed into an edit list ordered last-first, after every edit at or
/// past it.
pub open spec fn insert_last_first(sorted: Seq<TextEditV>, e: TextEditV) -> Seq<TextEditV> {
    sorted.insert(first_match(sorted, before_pred(e.span)), e)
}

/// The edits ordered last-first by span, edits at the same span keeping their
/// given order: the order in which applying them leaves earlier spans valid.
pub open spec fn last_first(edits: Seq<TextEditV>) -> Seq<TextEditV>
    decreases edits.len(),
{
    if edits.len() == 0 {
        Seq::empty()
    } else {
        insert_last_first(last_first(edits.drop_last()), edits.last())
    }
}

/// A line with an edit applied: the text before the edit's start, the new
/// text, and the text from the edit's end on.
pub open spec fn edit_line(line: Seq<char>, e: TextEditV) -> Seq<char> {
    line.take(char_index_at_units(line, e.span.start as int) as int) + e.new_text + line.skip(
        char_index_at_units(line, e.span.end as int) as int,
    )
}

/// Lines with an edit applied; an edit on a line past the end changes nothing.
pub open spec fn apply_edit(lines: Seq<Seq<char>>, e: TextEditV) -> Seq<Seq<char>> {
    if e.span.line < lines.len() {
        lines.update(e.span.line as int, edit_line(lines[e.span.line as int], e))
    } else {
        lines
    }
}

/// Lines with the first `n` of `edits` applied, in order.
pub open spec fn apply_upto(lines: Seq<Seq<char>>, edits: Seq<TextEditV>, n: int) -> Seq<Seq<char>>
    decreases n,
{
    if n <= 0 {
        lines
    } else {
        apply_edit(apply_upto(lines, edits, n - 1), edits[n - 1])
    }
}

/// Whether `s` ends with a line break.
pub open spec fn ends_with_newline(s: Seq<char>) -> bool {
    s.len() > 0 && s.last() == '\n'
}

/// The document with `edits` applied last-first, re-joined with `\n` and its
/// trailing line break kept.
pub open spec fn apply_spec(source: Seq<char>, edits: Seq<TextEditV>) -> Seq<char> {
    let ordered = last_first(edits);
    joined_with(apply_upto(split_lines(source), ordered, ordered.len() as int), "\n"@) + if ends_with_newline(source) {
        "\n"@
    } else {
        Seq::empty()
    }
}

/// The edits of `edits` ordered last-first, by reference.
fn order_edits(edits: &[TextEdit]) -> (r: Vec<&TextEdit>)
    ensures
        r@.map_values(|e: &TextEdit| e@) == last_first(edits@.map_values(|e: TextEdit| e@)),
{
    let ghost es = edits@.map_values(|e: TextEdit| e@);
    let mut r: Vec<&TextEdit> = Vec::new();
    let mut i: usize = 0;
    while i < edits.len()
        invariant
            i <= edits.len(),
            es == edits@.map_values(|e: TextEdit| e@),
            r@.map_values(|e: &TextEdit| e@) == last_first(es.take(i as int)),
        decreases edits.len() - i,
    {
        let e = &edits[i];
        let ghost sorted = r@.map_values(|x: &TextEdit| x@);
        let ghost p = before_pred(e.span);
        let mut j: usize = 0;
        while j < r.len()
            invariant
                j <= r.len(),
                sorted == r@.map_values(|x: &TextEdit| x@),
                p == before_pred(e.span),
                forall|k: int| 0 <= k < j ==> !p(#[trigger] sorted[k]),
            ensures
                j <= r.len(),
                forall|k: int| 0 <= k < j ==> !p(#[trigger] sorted[k]),
                j < r.len() ==> p(sorted[j as int]),
            decreases r.len() - j,
        {
            assert(sorted[j as int] == r@[j as int]@);
            if !span_le_exec(e.span, r[j].span) {
                break;
            }
            j = j + 1;
        }
        proof {
            if j < r.len() {
                assert(p(sorted[j as int]));
            }
            lemma_first_match_is(sorted, p, j as int);
            assert(es.take(i + 1).drop_last() =~= es.take(i as int));
            assert(es.take(i + 1).last() == e@);
        }
        r.insert(j, e);
        assert(r@.map_values(|x: &TextEdit| x@) =~= sorted.insert(j as int, e@));
        i = i + 1;
    }
    assert(es.take(edits.len() as int) =~= es);
    r
}

/// The lines joined with `\n`.
fn join_lines(lines: &Vec<Vec<char>>) -> (r: Vec<char>)
    ensures
        r@ == joined_with(lines@.map_values(|l: Vec<char>| l@), "\n"@),
{
    let ghost ls = lines@.map_values(|l: Vec<char>| l@);
    let mut r: Vec<char> = Vec::new();
    let mut i: usize = 0;
    while i < lines.len()
        invariant
            i <= lines.len(),
            ls == lines@.map_values(|l: Vec<char>| l@),
            r@ == joined_with(ls.take(i as int), "\n"@),
        decreases lines.len() - i,
    {
        let ghost before = r@;
        if i > 0 {
            push_str(&mut r, "\n");
        }
        let line = &lines[i];
        let mut k: usize = 0;
        let ghost mid = r@;
        while k < line.len()
            invariant
                k <= line.len(),
                r@ == mid + line@.take(k as int),
            decreases line.len() - k,
        {
            r.push(line[k]);
            k = k + 1;
            assert(r@ =~= mid + line@.take(k as int));
        }
        proof {
            assert(line@.take(line.len() as int) =~= line@);
            assert(ls[i as int] == line@);
            assert(ls.take(i + 1).drop_last() =~= ls.take(i as int));
            if i == 0 {
                assert(r@ =~= ls.take(1)[0]);
            }
        }
        i = i + 1;
    }
    assert(ls.take(lines.len() as int) =~= ls);
    r
}

/// Applies `edits` to `source`, for tests and for clients without an edit
/// engine. Edits are applied last-first so that earlier spans keep their
/// offsets; an edit on a line past the end is skipped.
pub fn apply(source: &str, edits: &[TextEdit]) -> (r: String)
    ensures
        r@ == apply_spec(source@, edits@.map_values(|e: TextEdit| e@)),
{
    let cs = chars_of(source);
    let mut lines = lines_of(cs.as_slice());
    let ghost original = split_lines(source@);
    assert(lines@.map_values(|l: Vec<char>| l@) =~= original);
    let ordered = order_edits(edits);
    let ghost es = ordered@.map_values(|e: &TextEdit| e@);
    let mut i: usize = 0;
    while i < ordered.len()
        invariant
            i <= ordered.len(),
            es == ordered@.map_values(|e: &TextEdit| e@),
            original == split_lines(source@),
            lines@.map_values(|l: Vec<char>| l@) == apply_upto(original, es, i as int),
        decreases ordered.len() - i,
    {
        let e = ordered[i];
        assert(es[i as int] == e@);
        let ghost before = lines@.map_values(|l: Vec<char>| l@);
        let n = e.span.line as usize;
        if n < lines.len() {
            let line = &lines[n];
            assert(before[n as int] == line@);
            let ks = char_index_at_units_of(line.as_slice(), e.span.start);
            let ke = char_index_at_units_of(line.as_slice(), e.span.end);
            let mut edited = sub_chars(line.as_slice(), 0, ks);
            push_str(&mut edited, e.new_text.as_str());
            let tail = sub_chars(line.as_slice(), ke, line.len());
            let mut k: usize = 0;
            let ghost mid = edited@;
            while k < tail.len()
                invariant
                    k <= tail.len(),
                    edited@ == mid + tail@.take(k as int),
                decreases tail.len() - k,
            {
                edited.push(tail[k]);
                k = k + 1;
                assert(edited@ =~= mid + tail@.take(k as int));
            }
            assert(tail@.take(tail.len() as int) =~= tail@);
            assert(edited@ =~= edit_line(before[n as int], e@));
            lines.set(n, edited);
            assert(lines@.map_values(|l: Vec<char>| l@) =~= before.update(n as int, edit_line(before[n as int], e@)));
        }
        i = i + 1;
    }
    let mut out = join_lines(&lines);
    let trailing = cs.len() > 0 && cs[cs.len() - 1] == '\n';
    if trailing {
        push_str(&mut out, "\n");
    } else {
        assert(out@ =~= out@ + Seq::<char>::empty());
    }
    string_from_chars(out.as_slice())
}

/// Whether `s` uses no `\r\n` line ends.
pub open spec fn no_crlf(s: Seq<char>) -> bool {
    forall|i: int| 0 <= i && i + 1 < s.len() ==> !(#[trigger] s[i] == '\r' && s[i + 1] == '\n')
}

/// Joining a list that starts with `a` puts `a` and a separator first.
proof fn lemma_joined_with_prepend(a: Seq<char>, rest: Seq<Seq<char>>, sep: Seq<char>)
    requires
        rest.len() > 0,
    ensures
        joined_with(seq![a] + rest, sep) == a + sep + joined_with(rest, sep),
    decreases rest.len(),
{
    let all = seq![a] + rest;
    if rest.len() == 1 {
        assert(all.drop_last() =~= seq![a]);
        assert(joined_with(all.drop_last(), sep) == a);
        assert(all.last() == rest[0]);
        assert(joined_with(rest, sep) == rest[0]);
        assert(joined_with(all, sep) =~= a + sep + joined_with(rest, sep));
    } else {
        lemma_joined_with_prepend(a, rest.drop_last(), sep);
        assert(all.drop_last() =~= seq![a] + rest.drop_last());
        assert(all.last() == rest.last());
        assert(joined_with(all, sep) =~= a + sep + joined_with(rest, sep));
    }
}

/// A non-empty text has at least one line.
proof fn lemma_split_lines_nonempty(s: Seq<char>)
    requires
        s.len() > 0,
    ensures
        split_lines(s).len() > 0,
{
}

/// Re-joining the lines of a text with `\n`, and restoring its final line
/// break, gives the text back when it uses no `\r\n` line ends.
proof fn lemma_rejoin(s: Seq<char>)
    requires
        no_crlf(s),
    ensures
        joined_with(split_lines(s), "\n"@) + (if ends_with_newline(s) {
            "\n"@
        } else {
            Seq::<char>::empty()
        }) == s,
    decreases s.len(),
{
    reveal_strlit("\n");
    let nl: Seq<char> = "\n"@;
    assert(nl =~= seq!['\n']);
    if s.len() == 0 {
        assert(split_lines(s) =~= Seq::<Seq<char>>::empty());
        assert(joined_with(split_lines(s), nl) + Seq::<char>::empty() =~= s);
    } else {
        let i = crate::words::first_index_of(s, '\n', 0);
        crate::words::lemma_first_index_of(s, '\n', 0);
        if i >= s.len() {
            assert(split_lines(s) == seq![s]);
            assert(s.last() != '\n') by {
                assert(s[s.len() - 1] != '\n');
            }
            assert(joined_with(seq![s], nl) == s);
            assert(s + Seq::<char>::empty() =~= s);
        } else {
            let piece = s.take(i);
            let rest = s.skip(i + 1);
            if piece.len() > 0 && piece.last() == '\r' {
                assert(s[i - 1] == '\r' && s[i] == '\n');
                assert(false);
            }
            assert(split_lines(s) == seq![piece] + split_lines(rest));
            if rest.len() == 0 {
                assert(split_lines(rest) =~= Seq::<Seq<char>>::empty());
                assert(seq![piece] + split_lines(rest) =~= seq![piece]);
                assert(joined_with(seq![piece], nl) == piece);
                assert(i == s.len() - 1);
                assert(ends_with_newline(s));
                assert(piece + nl =~= s);
            } else {
                assert forall|j: int| 0 <= j && j + 1 < rest.len() implies !(#[trigger] rest[j]
                    == '\r' && rest[j + 1] == '\n') by {
                    assert(rest[j] == s[i + 1 + j]);
                    assert(rest[j + 1] == s[i + 1 + j + 1]);
                }
                lemma_rejoin(rest);
                lemma_split_lines_nonempty(rest);
                lemma_joined_with_prepend(piece, split_lines(rest), nl);
                assert(ends_with_newline(s) == ends_with_newline(rest)) by {
                    assert(rest.last() == s.last());
                }
                let tail = if ends_with_newline(s) {
                    nl
                } else {
                    Seq::<char>::empty()
                };
                assert(joined_with(split_lines(rest), nl) + tail == rest);
                assert(piece + nl + rest =~= s);
                assert(piece + nl + joined_with(split_lines(rest), nl) + tail =~= piece + nl + (
                joined_with(split_lines(rest), nl) + tail));
            }
        }
    }
}

/// Applying no edits gives the document back, for every document that does
/// not use `\r\n` line ends (those come back with `\n`).
pub proof fn law_apply_nothing_is_identity(source: Seq<char>)
    requires
        no_crlf(source),
    ensures
        apply_spec(source, Seq::empty()) == source,
{
    assert(last_first(Seq::<TextEditV>::empty()) =~= Seq::<TextEditV>::empty());
    lemma_rejoin(source);
}

/// Every edit of the ordered list is one of the given edits.
proof fn lemma_last_first_from(edits: Seq<TextEditV>, x: TextEditV)
    requires
        last_first(edits).contains(x),
    ensures
        edits.contains(x),
    decreases edits.len(),
{
    if edits.len() > 0 {
        let sorted = last_first(edits.drop_last());
        let e = edits.last();
        let k = first_match(sorted, before_pred(e.span));
        crate::seqs::lemma_first_match(sorted, before_pred(e.span));
        sorted.insert_ensures(k, e);
        let j = choose|j: int| 0 <= j < last_first(edits).len() && last_first(edits)[j] == x;
        if x == e {
            assert(edits[edits.len() - 1] == x);
        } else {
            if j < k {
                assert(sorted[j] == x);
            } else {
                assert(j != k);
                assert(sorted[j - 1] == x);
            }
            lemma_last_first_from(edits.drop_last(), x);
            let m = choose|m: int| 0 <= m < edits.drop_last().len() && edits.drop_last()[m] == x;
            assert(edits[m] == x);
        }
    }
}

/// Lines are untouched by edits all aimed past their end.
proof fn lemma_apply_past_the_end(lines: Seq<Seq<char>>, edits: Seq<TextEditV>, n: int)
    requires
        0 <= n <= edits.len(),
        forall|i: int| 0 <= i < edits.len() ==> #[trigger] edits[i].span.line >= lines.len(),
    ensures
        apply_upto(lines, edits, n) == lines,
    decreases n,
{
    if n > 0 {
        lemma_apply_past_the_end(lines, edits, n - 1);
    }
}

/// Edits aimed at lines past the end of the document change nothing.
pub proof fn law_edits_past_the_end_change_nothing(source: Seq<char>, edits: Seq<TextEditV>)
    requires
        forall|i: int| 0 <= i < edits.len() ==> #[trigger] edits[i].span.line >= split_lines(
            source,
        ).len(),
    ensures
        apply_spec(source, edits) == apply_spec(source, Seq::empty()),
{
    let ordered = last_first(edits);
    let lines = split_lines(source);
    assert forall|i: int| 0 <= i < ordered.len() implies #[trigger] ordered[i].span.line
        >= lines.len() by {
        lemma_last_first_from(edits, ordered[i]);
        let m = choose|m: int| 0 <= m < edits.len() && edits[m] == ordered[i];
        assert(edits[m].span.line >= lines.len());
    }
    lemma_apply_past_the_end(lines, ordered, ordered.len() as int);
    assert(last_first(Seq::<TextEditV>::empty()) =~= Seq::<TextEditV>::empty());
}

/// The ordered edits are the given edits, rearranged.
pub proof fn law_last_first_is_a_rearrangement(edits: Seq<TextEditV>)
    ensures
        last_first(edits).to_multiset() == edits.to_multiset(),
    decreases edits.len(),
{
    broadcast use vstd::seq_lib::to_multiset_insert;
    broadcast use vstd::seq_lib::group_to_multiset_ensures;

    if edits.len() == 0 {
        assert(last_first(edits) =~= edits);
    } else {
        let init = edits.drop_last();
        law_last_first_is_a_rearrangement(init);
        let sorted = last_first(init);
        let e = edits.last();
        let k = first_match(sorted, before_pred(e.span));
        crate::seqs::lemma_first_match(sorted, before_pred(e.span));
        assert(edits =~= init.push(e));
    }
}

/// The ordered edits run last-first: each edit's span is at or after the
/// span of every edit following it.
pub proof fn law_last_first_runs_last_first(edits: Seq<TextEditV>)
    ensures
        forall|i: int, j: int|
            0 <= i < j < last_first(edits).len() ==> span_le(
                #[trigger] last_first(edits)[j].span,
                #[trigger] last_first(edits)[i].span,
            ),
    decreases edits.len(),
{
    if edits.len() > 0 {
        let init = edits.drop_last();
        law_last_first_runs_last_first(init);
        let s = last_first(init);
        let e = edits.last();
        let p = before_pred(e.span);
        let k = first_match(s, p);
        crate::seqs::lemma_first_match(s, p);
        s.insert_ensures(k, e);
        let r = last_first(edits);
        assert(r == s.insert(k, e));
        assert forall|i: int, j: int| 0 <= i < j < r.len() implies span_le(
            #[trigger] r[j].span,
            #[trigger] r[i].span,
        ) by {
            if j < k {
                assert(r[i] == s[i] && r[j] == s[j]);
            } else if j == k {
                assert(r[i] == s[i]);
                assert(!p(s[i]));
            } else if i < k {
                assert(r[i] == s[i] && r[j] == s[j - 1]);
            } else if i == k {
                assert(r[j] == s[j - 1]);
                assert(p(s[k]));
                if j - 1 > k {
                    assert(span_le(s[j - 1].span, s[k].span));
                }
            } else {
                assert(r[i] == s[i - 1] && r[j] == s[j - 1]);
            }
        }
    }
}

/// Whether `span` sits on a line from `start_line` to `end_line`. Line
/// granularity is deliberate: an editor asks for actions at the cursor, and a
/// fix for the node on that line is what the author expects to be offered.
pub open spec fn on_lines(span: Span, start_line: u32, end_line: u32) -> bool {
    start_line <= span.line && span.line <= end_line
}

/// Whether `span` sits on a line from `start_line` to `end_line`.
pub fn overlaps(span: Span, start_line: u32, end_line: u32) -> (b: bool)
    ensures
        b == on_lines(span, start_line, end_line),
{
    span.line >= start_line && span.line <= end_line
}

/// The quick-fixes of every diagnostic on the requested lines, in order.
pub open spec fn fixes_over(ix: IndexV, ds: Seq<DiagnosticV>, start_line: u32, end_line: u32) -> Seq<CodeActionV>
    decreases ds.len(),
{
    if ds.len() == 0 {
        Seq::empty()
    } else {
        fixes_over(ix, ds.drop_last(), start_line, end_line) + if on_lines(ds.last().span, start_line, end_line) {
            quick_fixes_spec(ix, ds.last().span, ds.last().code)
        } else {
            Seq::empty()
        }
    }
}

/// The actions offered for a range of lines: the quick-fixes of every
/// diagnostic there, in order, then the actions on the whole document. The
/// server's own diagnostics are used rather than the client's copy, so a
/// stale or lossy round-trip cannot suppress a fix.
pub fn offered_actions(index: &DocumentIndex, diagnostics: &[Diagnostic], start_line: u32, end_line: u32) -> (r: Vec<CodeAction>)
    ensures
        actions_view(r@) == fixes_over(index@, diagnostics@.map_values(|d: Diagnostic| d@), start_line, end_line)
            + source_actions_spec(),
{
    let ghost ds = diagnostics@.map_values(|d: Diagnostic| d@);
    let mut r: Vec<CodeAction> = Vec::new();
    let mut i: usize = 0;
    while i < diagnostics.len()
        invariant
            i <= diagnostics@.len(),
            ds == diagnostics@.map_values(|d: Diagnostic| d@),
            actions_view(r@) =~= fixes_over(index@, ds.take(i as int), start_line, end_line),
        decreases diagnostics@.len() - i,
    {
        assert(ds.take(i + 1).drop_last() =~= ds.take(i as int));
        assert(ds.take(i + 1).last() == diagnostics@[i as int]@);
        let d = &diagnostics[i];
        if overlaps(d.span, start_line, end_line) {
            let mut fixes = quick_fixes(index, d);
            let ghost before = r@;
            let ghost more = fixes@;
            r.append(&mut fixes);
            assert(actions_view(r@) =~= actions_view(before) + actions_view(more));
        } else {
            assert(actions_view(r@) =~= actions_view(r@) + Seq::<CodeActionV>::empty());
        }
        i = i + 1;
    }
    assert(ds.take(diagnostics@.len() as int) =~= ds);
    let mut whole = source_actions();
    let ghost before = r@;
    let ghost more = whole@;
    r.append(&mut whole);
    assert(actions_view(r@) =~= actions_view(before) + actions_view(more));
    r
}

/// For a node with no `controls:` block, the quick fix is one insertion at
/// the end of the node's last line: a `controls:` header at the node's field
/// indent, then one entry per control, each `- type:`, `standard:` and
/// `description:` two spaces deeper.
pub proof fn law_controls_for_a_node_without_a_block(
    ix: IndexV,
    n: NodeEntryV,
    code: Seq<char>,
    title: Seq<char>,
    cs: Seq<(Seq<char>, Seq<char>, Seq<char>)>,
)
    requires
        controls_block_spec(ix, n) is None,
    ensures
        ({
            let a = add_controls_spec(ix, n, code, title, cs);
            let w = line_end(ix, n.last_line);
            &&& a.kind == ActionKind::QuickFix
            &&& a.resolves == Some(code)
            &&& a.command is None
            &&& a.edits.len() == 1
            &&& a.edits[0].span == (Span { line: n.last_line, start: w, end: w })
            &&& a.edits[0].new_text == "\n"@ + spaces(n.field_indent as nat) + "controls:"@ + control_entries(
                sat_add2(n.field_indent),
                cs,
            )
        }),
{
}

} // verus!
