//! Jumping to declarations, finding references, and outlining a document.
//!
//! Relationships reference nodes by name, so navigation is a lookup, not a
//! guess. It reads the index rather than a resolved architecture, so it works
//! on documents that do not parse.
use vstd::prelude::*;

use crate::chars::owned;
use crate::index::{
    named_pred, refers_pred, under_pred, DocumentIndex, NodeEntryV, SymbolKind, SymbolV,
};
use crate::seqs::first_match;
use crate::text::{span_le, Position, Span};

verus! {

/// A named element of the document, for the editor's outline view.
#[derive(Clone, Debug, PartialEq, Eq)]
pub struct Outline {
    /// The element's name.
    pub name: String,
    /// A short annotation, such as the node's type.
    pub detail: String,
    /// The span of the name itself, for the "reveal" jump.
    pub selection_span: Span,
    /// The first line of the whole element.
    pub start_line: u32,
    /// The last line of the whole element.
    pub end_line: u32,
}

/// The symbol under `position`, if any.
pub open spec fn symbol_under(index: crate::index::IndexV, position: Position) -> Option<SymbolV> {
    let k = first_match(index.symbols, under_pred(position));
    if k < index.symbols.len() {
        Some(index.symbols[k])
    } else {
        None
    }
}

/// The declaration of the node called `name`, if any.
pub open spec fn node_declared(index: crate::index::IndexV, name: Seq<char>) -> Option<NodeEntryV> {
    let k = first_match(index.nodes, named_pred(name));
    if k < index.nodes.len() {
        Some(index.nodes[k])
    } else {
        None
    }
}

/// Whether a symbol names a node: its declaration or a reference to it.
pub open spec fn names_a_node(kind: SymbolKind) -> bool {
    kind is NodeDefinition || kind is NodeReference
}

/// Where go-to-definition from `position` lands.
pub open spec fn definition_spec(index: crate::index::IndexV, position: Position) -> Option<Span> {
    match symbol_under(index, position) {
        Some(symbol) => if names_a_node(symbol.kind) {
            match node_declared(index, symbol.text) {
                Some(node) => Some(node.name_span),
                None => None,
            }
        } else {
            None
        },
        None => None,
    }
}

/// Resolves the declaration of whatever is under `position`: the span of the
/// declaring `name:` value. A cursor on a declaration resolves to itself.
pub fn definition(index: &DocumentIndex, position: Position) -> (r: Option<Span>)
    ensures
        r == definition_spec(index@, position),
{
    let symbol = match index.symbol_at(position) {
        Some(s) => s,
        None => {
            return None;
        },
    };
    match symbol.kind {
        SymbolKind::NodeReference(_) | SymbolKind::NodeDefinition => {
            match index.node_named(symbol.text.as_str()) {
                Some(node) => Some(node.name_span),
                None => None,
            }
        },
        SymbolKind::NodeTypeValue
        | SymbolKind::RelationshipTypeValue
        | SymbolKind::ControlTypeValue
        | SymbolKind::ProtocolValue => None,
    }
}

/// Whether a sequence of spans is in document order.
pub open spec fn spans_sorted(s: Seq<Span>) -> bool {
    forall|i: int, j: int| 0 <= i < j < s.len() ==> span_le(#[trigger] s[i], #[trigger] s[j])
}

/// The mentions `references` collects, before ordering: the declaration when
/// asked for, then every reference in document order.
pub open spec fn mentions(
    index: crate::index::IndexV,
    name: Seq<char>,
    include_declaration: bool,
) -> Seq<Span> {
    let decl = match node_declared(index, name) {
        Some(node) => if include_declaration {
            seq![node.name_span]
        } else {
            Seq::empty()
        },
        None => Seq::empty(),
    };
    decl + index.symbols.filter(refers_pred(name)).map_values(|s: SymbolV| s.span)
}

/// Finds every mention of the node under `position`, in document order,
/// including its declaration when `include_declaration` is set.
pub fn references(index: &DocumentIndex, position: Position, include_declaration: bool) -> (r:
    Vec<Span>)
    ensures
        spans_sorted(r@),
        match symbol_under(index@, position) {
            Some(symbol) => if names_a_node(symbol.kind) {
                r@.to_multiset() == mentions(index@, symbol.text, include_declaration).to_multiset()
            } else {
                r@.len() == 0
            },
            None => r@.len() == 0,
        },
{
    let symbol = match index.symbol_at(position) {
        Some(s) => s,
        None => {
            return Vec::new();
        },
    };
    let is_node = match symbol.kind {
        SymbolKind::NodeDefinition | SymbolKind::NodeReference(_) => true,
        _ => false,
    };
    if !is_node {
        return Vec::new();
    }
    let ghost name = symbol.text@;
    let mut spans: Vec<Span> = Vec::new();
    if include_declaration {
        if let Some(declaration) = index.node_named(symbol.text.as_str()) {
            spans.push(declaration.name_span);
        }
    }
    let ghost decl = spans@;
    let found = index.references_to(symbol.text.as_str());
    let ghost refs = found@.map_values(|s: &crate::index::Symbol| s@);
    let mut i: usize = 0;
    while i < found.len()
        invariant
            i <= found.len(),
            refs == found@.map_values(|s: &crate::index::Symbol| s@),
            spans@ == decl + refs.take(i as int).map_values(|s: SymbolV| s.span),
        decreases found.len() - i,
    {
        spans.push(found[i].span);
        i = i + 1;
        proof {
            assert(refs.take(i as int).map_values(|s: SymbolV| s.span) =~= refs.take(
                (i - 1) as int,
            ).map_values(|s: SymbolV| s.span).push(refs[i - 1].span));
        }
    }
    proof {
        assert(refs.take(i as int) =~= refs);
        assert(spans@ =~= mentions(index@, name, include_declaration));
    }
    let ghost before = spans@;
    sort_spans(&mut spans);
    spans
}

/// Sorts spans into document order (a stable insertion sort).
pub fn sort_spans(v: &mut Vec<Span>)
    ensures
        spans_sorted(final(v)@),
        final(v)@.to_multiset() == old(v)@.to_multiset(),
{
    let ghost original = v@;
    let mut i: usize = 1;
    if v.len() == 0 {
        return;
    }
    while i < v.len()
        invariant
            1 <= i <= v.len(),
            v@.len() == original.len(),
            v@.to_multiset() == original.to_multiset(),
            spans_sorted(v@.take(i as int)),
        decreases v.len() - i,
    {
        let mut j = i;
        assert forall|a: int, b: int| 0 <= a < b < i implies span_le(v@[a], v@[b]) by {
            assert(v@.take(i as int)[a] == v@[a]);
            assert(v@.take(i as int)[b] == v@[b]);
        }
        while j > 0 && !span_le_exec(v[j - 1], v[j])
            invariant
                0 <= j <= i < v.len(),
                v@.len() == original.len(),
                v@.to_multiset() == original.to_multiset(),
                forall|a: int, b: int|
                    0 <= a < b <= i && a != j && b != j ==> span_le(#[trigger] v@[a], #[trigger] v@[b]),
                forall|b: int| j < b <= i ==> span_le(v@[j as int], #[trigger] v@[b]),
            decreases j,
        {
            let a = v[j - 1];
            let b = v[j];
            let ghost before = v@;
            v.set(j - 1, b);
            v.set(j, a);
            proof {
                assert(v@ =~= before.update(j - 1, b).update(j as int, a));
                lemma_swap_multiset(before, j - 1, j as int);
            }
            j = j - 1;
        }
        assert forall|a: int, b: int| 0 <= a < b < i + 1 implies span_le(
            #[trigger] v@.take(i + 1)[a],
            #[trigger] v@.take(i + 1)[b],
        ) by {
            if b == j && a < j {
                assert(span_le(v@[a], v@[j - 1]) || a == j - 1);
            }
        }
        i = i + 1;
    }
    assert(v@.take(v@.len() as int) =~= v@);
}

/// `span_le`, executed.
pub fn span_le_exec(a: Span, b: Span) -> (r: bool)
    ensures
        r == span_le(a, b),
{
    a.line < b.line || (a.line == b.line && a.start < b.start) || (a.line == b.line && a.start
        == b.start && a.end <= b.end)
}

/// Swapping two elements keeps the multiset.
pub proof fn lemma_swap_multiset(s: Seq<Span>, i: int, j: int)
    requires
        0 <= i < s.len(),
        0 <= j < s.len(),
    ensures
        s.update(i, s[j]).update(j, s[i]).to_multiset() == s.to_multiset(),
{
    broadcast use vstd::seq_lib::group_to_multiset_ensures;

    let t = s.update(i, s[j]);
    assert(t.to_multiset() == s.to_multiset().remove(s[i]).insert(s[j]));
    assert(t.update(j, s[i]).to_multiset() == t.to_multiset().remove(t[j]).insert(s[i]));
    if i != j {
        assert(t[j] == s[j]);
    }
}

/// The outline entry of one node.
pub open spec fn outline_entry_ok(o: Outline, node: NodeEntryV) -> bool {
    &&& o.name@ == node.name
    &&& o.detail@ == match node.node_type {
        Some(t) => t,
        None => "node"@,
    }
    &&& o.selection_span == node.name_span
    &&& o.start_line == node.item_line
    &&& o.end_line == node.last_line
}

/// Builds the document outline: one entry per declared node, in document order.
pub fn outline(index: &DocumentIndex) -> (r: Vec<Outline>)
    ensures
        r@.len() == index@.nodes.len(),
        forall|i: int| 0 <= i < r@.len() ==> outline_entry_ok(#[trigger] r@[i], index@.nodes[i]),
{
    let nodes = index.nodes();
    let mut r: Vec<Outline> = Vec::new();
    let mut i: usize = 0;
    while i < nodes.len()
        invariant
            i <= nodes.len(),
            crate::index::nodes_view(nodes@) == index@.nodes,
            r@.len() == i,
            forall|k: int| 0 <= k < i ==> outline_entry_ok(#[trigger] r@[k], index@.nodes[k]),
        decreases nodes.len() - i,
    {
        let node = &nodes[i];
        assert(index@.nodes[i as int] == node@);
        let detail = match &node.node_type {
            Some(t) => t.clone(),
            None => owned("node"),
        };
        r.push(
            Outline {
                name: node.name.clone(),
                detail,
                selection_span: node.name_span,
                start_line: node.item_line,
                end_line: node.last_line,
            },
        );
        i = i + 1;
    }
    r
}

/// A use site and the declaration of one node find the same mentions: what
/// `references` returns depends only on the name under the cursor, and is
/// the declaration (when asked for) followed by every symbol referring to
/// the name, which is what `node_named` and `references_to` give.
pub proof fn law_use_and_declaration_agree(ix: crate::index::IndexV, p: Position, q: Position, include_declaration: bool)
    requires
        symbol_under(ix, p) is Some,
        symbol_under(ix, q) is Some,
        symbol_under(ix, p).unwrap().text == symbol_under(ix, q).unwrap().text,
    ensures
        mentions(ix, symbol_under(ix, p).unwrap().text, include_declaration) == mentions(
            ix,
            symbol_under(ix, q).unwrap().text,
            include_declaration,
        ),
        mentions(ix, symbol_under(ix, p).unwrap().text, include_declaration) == (if include_declaration
            && node_declared(ix, symbol_under(ix, p).unwrap().text) is Some {
            seq![node_declared(ix, symbol_under(ix, p).unwrap().text).unwrap().name_span]
        } else {
            Seq::<Span>::empty()
        }) + ix.symbols.filter(refers_pred(symbol_under(ix, p).unwrap().text)).map_values(|s: SymbolV| s.span),
{
    let name = symbol_under(ix, p).unwrap().text;
    if !(include_declaration && node_declared(ix, name) is Some) {
        assert(mentions(ix, name, include_declaration) =~= Seq::<Span>::empty() + ix.symbols.filter(
            refers_pred(name),
        ).map_values(|s: SymbolV| s.span));
    }
}

} // verus!
