use casm::index::{strip_comment, Block, DocumentIndex, Endpoint, LineInfo, Section, SymbolKind};
use casm::text::{Position, Span};

    const SAMPLE: &str = "\
name: checkout
version: 1.0.0

nodes:
  - name: api
    type: service
    interfaces:
      - name: rest
        protocol: http2
        version: 1.0.0
    controls:
      - type: security
        standard: OIDC
        description: tokens required

  - name: orders-db
    type: database

relationships:
  - source: api
    target: orders-db
    type: sync
    protocol: sql
    latency-budget-ms: 50
";

    fn index() -> DocumentIndex {
        DocumentIndex::build(SAMPLE)
    }

    fn section_of(index: &DocumentIndex, line: u32) -> Section {
        index
            .line(line)
            .map(|info| info.section)
            .expect("line exists")
    }

    fn block_of(index: &DocumentIndex, line: u32) -> Block {
        index
            .line(line)
            .map(|info| info.block)
            .expect("line exists")
    }

    #[test]
    fn building_never_fails_on_arbitrary_input() {
        for source in [
            "",
            "\n\n\n",
            "not yaml at all",
            ":::::",
            "- - - -",
            "\t\ttabs",
        ] {
            let _ = DocumentIndex::build(source);
        }
    }

    #[test]
    fn a_syntactically_broken_document_still_indexes_what_it_can() {
        // The mid-keystroke case: `type:` has no value yet.
        let index = DocumentIndex::build("nodes:\n  - name: api\n    type:\n");
        assert_eq!(index.node_names(), ["api"]);
        assert_eq!(index.line(2).and_then(|l| l.value.clone()), None);
    }

    #[test]
    fn top_level_keys_set_the_section() {
        let index = index();
        assert_eq!(section_of(&index, 0), Section::Root, "name:");
        assert_eq!(section_of(&index, 3), Section::Nodes, "nodes:");
        assert_eq!(section_of(&index, 4), Section::Nodes, "first node item");
        assert_eq!(
            section_of(&index, 18),
            Section::Relationships,
            "relationships:"
        );
        assert_eq!(section_of(&index, 19), Section::Relationships);
    }

    #[test]
    fn nested_blocks_are_tracked() {
        let index = index();
        assert_eq!(block_of(&index, 5), Block::Direct, "type: service");
        assert_eq!(block_of(&index, 7), Block::Interfaces, "- name: rest");
        assert_eq!(block_of(&index, 8), Block::Interfaces, "protocol: http2");
        assert_eq!(block_of(&index, 11), Block::Controls, "- type: security");
        assert_eq!(block_of(&index, 13), Block::Controls, "description:");
    }

    #[test]
    fn a_block_opening_key_sits_outside_the_block_it_opens() {
        // On `    interfaces:` the author is still writing a *node* field, so completion
        // must offer node fields. The block begins on the next line.
        let index = index();
        assert_eq!(
            block_of(&index, 6),
            Block::Direct,
            "the `interfaces:` key line"
        );
        assert_eq!(block_of(&index, 7), Block::Interfaces, "the first entry");
    }

    #[test]
    fn a_block_closes_when_a_sibling_key_appears_at_the_same_indent() {
        // `controls:` sits at the same indent as `interfaces:`; the first must close.
        let index = index();
        assert_eq!(
            block_of(&index, 10),
            Block::Direct,
            "the `controls:` key line itself"
        );
        assert_eq!(
            block_of(&index, 11),
            Block::Controls,
            "and the controls block begins"
        );
    }

    #[test]
    fn a_sequence_indented_flush_with_its_key_stays_inside_the_block() {
        // Valid YAML, and common. Treating these entries as node fields would classify
        // `type: security` as a node type and offer the wrong completions inside them.
        let source = "\
nodes:
  - name: api
    type: service
    controls:
    - type: security
      standard: OIDC
    - type: compliance
      standard: SOC2
";
        let index = DocumentIndex::build(source);
        assert_eq!(
            block_of(&index, 4),
            Block::Controls,
            "first entry, flush with the key"
        );
        assert_eq!(
            block_of(&index, 5),
            Block::Controls,
            "its continuation field"
        );
        assert_eq!(block_of(&index, 6), Block::Controls, "second entry");

        let control_types: Vec<&str> = index
            .symbols()
            .iter()
            .filter(|s| s.kind == SymbolKind::ControlTypeValue)
            .map(|s| s.text.as_str())
            .collect();
        assert_eq!(control_types, ["security", "compliance"]);
    }

    #[test]
    fn a_block_closes_when_the_next_list_item_begins() {
        let index = index();
        assert_eq!(block_of(&index, 15), Block::Direct, "- name: orders-db");
        assert_eq!(block_of(&index, 16), Block::Direct, "type: database");
    }

    #[test]
    fn a_blank_line_inherits_the_surrounding_context() {
        // Completion invoked on an empty line inside `nodes:` must still know that.
        let index = index();
        assert_eq!(section_of(&index, 14), Section::Nodes);
    }

    #[test]
    fn node_declarations_are_collected_with_their_types() {
        let index = index();
        let names: Vec<&str> = index.node_names();
        assert_eq!(names, ["api", "orders-db"]);

        let api = index.node_named("api").expect("api is declared");
        assert_eq!(api.node_type.as_deref(), Some("service"));
        assert_eq!(api.item_line, 4);
        assert_eq!(api.field_indent, 4);
        assert_eq!(
            api.last_line, 13,
            "the item extends through its controls block"
        );
    }

    #[test]
    fn an_interface_name_is_not_mistaken_for_a_node_declaration() {
        // `- name: rest` inside `interfaces:` looks identical to a node declaration
        // except for its block. This is the test that keeps that distinction honest.
        let index = index();
        assert!(
            !index.node_names().contains(&"rest"),
            "{:?}",
            index.node_names()
        );
    }

    #[test]
    fn a_control_type_is_not_mistaken_for_a_node_type() {
        let index = index();
        let control = index
            .symbols()
            .iter()
            .find(|symbol| symbol.text == "security")
            .expect("the control type is indexed");
        assert_eq!(control.kind, SymbolKind::ControlTypeValue);
    }

    #[test]
    fn a_relationship_type_is_distinguished_from_a_node_type() {
        let index = index();
        let node_type = index
            .symbols()
            .iter()
            .find(|s| s.text == "service")
            .unwrap();
        assert_eq!(node_type.kind, SymbolKind::NodeTypeValue);

        let edge_type = index.symbols().iter().find(|s| s.text == "sync").unwrap();
        assert_eq!(edge_type.kind, SymbolKind::RelationshipTypeValue);
    }

    #[test]
    fn relationship_endpoints_are_indexed_as_references() {
        let index = index();
        let source = index
            .symbols()
            .iter()
            .find(|s| s.kind == SymbolKind::NodeReference(Endpoint::Source));
        let target = index
            .symbols()
            .iter()
            .find(|s| s.kind == SymbolKind::NodeReference(Endpoint::Target));

        assert_eq!(source.map(|s| s.text.as_str()), Some("api"));
        assert_eq!(target.map(|s| s.text.as_str()), Some("orders-db"));
    }

    #[test]
    fn protocols_are_indexed_in_both_interfaces_and_relationships() {
        let index = index();
        let protocols: Vec<&str> = index
            .symbols()
            .iter()
            .filter(|s| s.kind == SymbolKind::ProtocolValue)
            .map(|s| s.text.as_str())
            .collect();
        assert_eq!(protocols, ["http2", "sql"]);
    }

    #[test]
    fn a_position_resolves_to_the_symbol_under_it() {
        let index = index();
        // Line 4 is `  - name: api`; the value starts at column 10.
        let symbol = index
            .symbol_at(Position::new(4, 11))
            .expect("api is under the cursor");
        assert_eq!(symbol.kind, SymbolKind::NodeDefinition);
        assert_eq!(symbol.text, "api");
    }

    #[test]
    fn a_position_over_a_key_resolves_to_no_symbol() {
        let index = index();
        // Column 4 on `  - name: api` is inside the key `name`, not the value.
        assert!(index.symbol_at(Position::new(4, 5)).is_none());
    }

    #[test]
    fn a_position_on_a_blank_line_resolves_to_no_symbol() {
        let index = index();
        assert!(index.symbol_at(Position::new(2, 0)).is_none());
    }

    #[test]
    fn references_to_a_node_are_found() {
        let index = index();
        let references = index.references_to("api");
        assert_eq!(references.len(), 1);
        assert_eq!(
            references[0].kind,
            SymbolKind::NodeReference(Endpoint::Source)
        );
    }

    #[test]
    fn field_indent_accounts_for_the_sequence_dash() {
        let item = LineInfo {
            number: 0,
            indent: 2,
            section: Section::Nodes,
            block: Block::Direct,
            is_list_item: true,
            key: None,
            key_span: None,
            value: None,
            value_span: None,
        };
        assert_eq!(
            item.field_indent(),
            4,
            "fields align under the key, not the dash"
        );

        let plain = LineInfo {
            is_list_item: false,
            ..item
        };
        assert_eq!(plain.field_indent(), 2);
    }

    #[test]
    fn comments_are_stripped_only_at_a_word_boundary() {
        assert_eq!(strip_comment("name: api # the gateway"), "name: api ");
        assert_eq!(strip_comment("# whole line"), "");
        assert_eq!(strip_comment("name: api"), "name: api");
    }

    #[test]
    fn a_hash_inside_a_value_is_not_a_comment() {
        // `ISO27001#A.12` is a legitimate standard identifier.
        assert_eq!(
            strip_comment("standard: ISO27001#A.12"),
            "standard: ISO27001#A.12"
        );
    }

    #[test]
    fn a_trailing_comment_does_not_corrupt_the_indexed_value() {
        let index = DocumentIndex::build("nodes:\n  - name: api # public entry\n");
        assert_eq!(
            index.node_names(),
            ["api"],
            "the comment must not be part of the name"
        );
    }

    #[test]
    fn a_colon_inside_a_value_does_not_split_the_line() {
        let index = DocumentIndex::build("nodes:\n  - name: api\n    description: see http://x\n");
        let line = index.line(2).expect("line exists");
        assert_eq!(line.key.as_deref(), Some("description"));
        assert_eq!(line.value.as_deref(), Some("see http://x"));
    }

    #[test]
    fn spans_point_at_the_value_not_the_whole_line() {
        let index = DocumentIndex::build("nodes:\n  - name: api\n");
        let symbol = index.symbols().first().expect("one symbol");
        assert_eq!(symbol.span, Span::new(1, 10, 13));
    }

    #[test]
    fn spans_are_correct_on_lines_containing_multibyte_text() {
        let source = "nodes:\n  - name: api\n    description: café\n  - name: bée\n";
        let index = DocumentIndex::build(source);
        // `bée` is 3 UTF-16 units but 4 bytes; the span must be 3 wide.
        let entry = index.node_named("bée").expect("declared");
        assert_eq!(entry.name_span.width(), 3);
    }

    #[test]
    fn an_unknown_top_level_key_yields_the_unknown_section() {
        let index = DocumentIndex::build("superposition:\n  - branch: ha\n");
        assert_eq!(section_of(&index, 0), Section::Unknown);
        assert_eq!(section_of(&index, 1), Section::Unknown);
    }

    #[test]
    fn relationship_declarations_are_collected_with_all_three_fields() {
        let index = index();
        let edges = index.relationships();

        assert_eq!(edges.len(), 1);
        assert_eq!(edges[0].source.as_deref(), Some("api"));
        assert_eq!(edges[0].target.as_deref(), Some("orders-db"));
        assert_eq!(edges[0].kind.as_deref(), Some("sync"));
        assert_eq!(edges[0].item_line, 19);
    }

    #[test]
    fn a_relationship_is_indexed_whatever_order_its_fields_are_written_in() {
        // Unlike a node, a relationship has no single defining field, so the entry opens
        // at the `- ` rather than at a particular key.
        let source = "relationships:\n  - type: sync\n    target: db\n    source: api\n";
        let index = DocumentIndex::build(source);
        let edge = index.relationships().first().expect("indexed");

        assert_eq!(edge.source.as_deref(), Some("api"));
        assert_eq!(edge.target.as_deref(), Some("db"));
        assert_eq!(edge.kind.as_deref(), Some("sync"));
    }

    #[test]
    fn several_relationships_are_kept_separate() {
        let source = "relationships:\n  - source: a\n    target: b\n    type: sync\n  \
                      - source: b\n    target: c\n    type: async\n";
        let index = DocumentIndex::build(source);
        assert_eq!(index.relationships().len(), 2);
        assert_eq!(index.relationships()[1].source.as_deref(), Some("b"));
    }

    #[test]
    fn a_relationship_is_found_by_its_endpoints() {
        let index = index();
        let found = index.relationship_between("api", "orders-db");
        assert!(found.is_some());
        assert!(
            index.relationship_between("orders-db", "api").is_none(),
            "edges are directed"
        );
    }

    #[test]
    fn a_relationships_controls_block_does_not_create_a_spurious_entry() {
        let source = "relationships:\n  - source: a\n    target: b\n    type: sync\n    \
                      controls:\n      - type: security\n        standard: mTLS\n";
        let index = DocumentIndex::build(source);

        assert_eq!(
            index.relationships().len(),
            1,
            "the control item is not a relationship"
        );
        assert_eq!(
            index.relationships()[0].kind.as_deref(),
            Some("sync"),
            "not 'security'"
        );
    }

    #[test]
    fn a_relationship_anchor_prefers_the_source_then_the_target() {
        let index = index();
        let anchor = index.relationships()[0].anchor_span();
        assert_eq!(anchor.line, 19, "the `source:` line");

        let partial = DocumentIndex::build("relationships:\n  - target: db\n");
        assert_eq!(
            partial.relationships()[0].anchor_span().line,
            1,
            "falls back to target"
        );

        let bare = DocumentIndex::build("relationships:\n  - \n");
        assert_eq!(
            bare.relationships()[0].anchor_span().line,
            1,
            "falls back to the item"
        );
    }

    #[test]
    fn line_and_raw_line_accessors_agree_and_are_bounds_safe() {
        let index = index();
        assert_eq!(index.raw_line(0), Some("name: checkout"));
        assert_eq!(index.line_count(), 24);
        assert!(index.line(9_999).is_none());
        assert!(index.raw_line(9_999).is_none());
    }

#[test]
fn a_tab_is_not_indentation() {
    let index = DocumentIndex::build("\tname: x\n  - name: y\n");
    assert_eq!(index.line(0).unwrap().indent, 0);
    assert_eq!(index.line(1).unwrap().indent, 2);
}

#[test]
fn an_index_numbers_its_lines_and_keeps_declarations_in_line_order() {
    let index = DocumentIndex::build(SAMPLE);
    assert_eq!(index.lines().len(), SAMPLE.lines().count());
    for (i, line) in index.lines().iter().enumerate() {
        assert_eq!(line.number as usize, i);
    }
    for (i, raw) in SAMPLE.lines().enumerate() {
        assert_eq!(index.raw_line(i as u32), Some(raw));
    }
    let symbols = index.symbols();
    for pair in symbols.windows(2) {
        assert!(pair[0].span.line < pair[1].span.line);
    }
    let nodes = index.nodes();
    assert!(!nodes.is_empty());
    for pair in nodes.windows(2) {
        assert!(pair[0].item_line < pair[1].item_line);
    }
    for node in nodes {
        assert_eq!(node.name_span.line, node.item_line);
        assert!(node.item_line <= node.last_line && node.last_line < index.line_count());
    }
    for pair in index.relationships().windows(2) {
        assert!(pair[0].item_line < pair[1].item_line);
    }
    for edge in index.relationships() {
        assert!(edge.item_line <= edge.last_line && edge.last_line < index.line_count());
    }
}

#[test]
fn a_comment_only_line_records_nothing() {
    let with_comment = DocumentIndex::build("nodes:\n  # just a note\n  - name: api\n");
    let line = with_comment.line(1).unwrap();
    assert_eq!(line.key, None);
    assert_eq!(line.value, None);
    assert!(!line.is_list_item);
    assert_eq!(line.section, Section::Nodes);
    assert_eq!(with_comment.symbols().len(), 1);
}
