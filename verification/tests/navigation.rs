use casm::index::DocumentIndex;
use casm::navigation::{definition, outline, references};
use casm::text::Position;

    const DOC: &str = "\
name: checkout
nodes:
  - name: api
    type: service
  - name: orders-db
    type: database
relationships:
  - source: api
    target: orders-db
    type: sync
  - source: api
    target: orders-db
    type: async
";

    fn index() -> DocumentIndex {
        DocumentIndex::build(DOC)
    }

    /// A position one character into the value on `line`.
    fn on_value(index: &DocumentIndex, line: u32) -> Position {
        let span = index
            .line(line)
            .and_then(|info| info.value_span)
            .expect("the line has a value");
        Position::new(line, span.start.saturating_add(1))
    }

    #[test]
    fn an_endpoint_resolves_to_the_node_declaration() {
        let index = index();
        let target = definition(&index, on_value(&index, 7)).expect("api is declared");
        assert_eq!(target.line, 2, "the `- name: api` line");
    }

    #[test]
    fn both_endpoints_resolve_independently() {
        let index = index();
        let source = definition(&index, on_value(&index, 7)).expect("source resolves");
        let target = definition(&index, on_value(&index, 8)).expect("target resolves");
        assert_eq!(source.line, 2, "api");
        assert_eq!(target.line, 4, "orders-db");
    }

    #[test]
    fn a_declaration_resolves_to_itself() {
        // So the editor confirms rather than appearing to do nothing.
        let index = index();
        let target = definition(&index, on_value(&index, 2)).expect("resolves");
        assert_eq!(target.line, 2);
    }

    #[test]
    fn an_unresolvable_endpoint_resolves_to_nothing() {
        let index = DocumentIndex::build("relationships:\n  - source: ghost\n");
        assert!(definition(&index, on_value(&index, 1)).is_none());
    }

    #[test]
    fn an_enum_value_has_no_declaration_to_jump_to() {
        let index = index();
        assert!(
            definition(&index, on_value(&index, 3)).is_none(),
            "`service` is not a node"
        );
        assert!(
            definition(&index, on_value(&index, 9)).is_none(),
            "`sync` is not a node"
        );
    }

    #[test]
    fn references_finds_every_mention() {
        let index = index();
        let found = references(&index, on_value(&index, 2), true);
        // The declaration plus two `source: api` mentions.
        assert_eq!(found.len(), 3, "{found:?}");
        assert_eq!(found[0].line, 2, "results are in document order");
    }

    #[test]
    fn references_can_exclude_the_declaration() {
        let index = index();
        let found = references(&index, on_value(&index, 2), false);
        assert_eq!(found.len(), 2);
        assert!(found.iter().all(|span| span.line != 2));
    }

    #[test]
    fn references_works_from_a_use_site_not_only_the_declaration() {
        let index = index();
        let from_use = references(&index, on_value(&index, 7), true);
        let from_declaration = references(&index, on_value(&index, 2), true);
        assert_eq!(from_use, from_declaration);
    }

    #[test]
    fn references_on_a_non_node_symbol_finds_nothing() {
        let index = index();
        assert!(references(&index, on_value(&index, 3), true).is_empty());
    }

    #[test]
    fn references_on_empty_space_finds_nothing() {
        let index = index();
        assert!(references(&index, Position::new(0, 40), true).is_empty());
    }

    #[test]
    fn the_outline_lists_every_node_with_its_type() {
        let index = index();
        let entries = outline(&index);

        assert_eq!(entries.len(), 2);
        assert_eq!(entries[0].name, "api");
        assert_eq!(entries[0].detail, "service");
        assert_eq!(entries[1].name, "orders-db");
        assert_eq!(entries[1].detail, "database");
    }

    #[test]
    fn an_outline_entry_spans_the_whole_node_item() {
        let index = index();
        let api = &outline(&index)[0];
        assert_eq!(api.start_line, 2);
        assert_eq!(api.end_line, 3, "through its `type:` line");
        assert_eq!(api.selection_span.line, 2, "but the jump lands on the name");
    }

    #[test]
    fn a_node_without_a_type_still_outlines() {
        let index = DocumentIndex::build("nodes:\n  - name: half-written\n");
        let entries = outline(&index);
        assert_eq!(entries.len(), 1);
        assert_eq!(entries[0].detail, "node");
    }

    #[test]
    fn an_empty_document_outlines_to_nothing() {
        assert!(outline(&DocumentIndex::build("")).is_empty());
    }

    #[test]
    fn navigation_never_panics_anywhere_in_the_document() {
        let index = index();
        for line in 0..index.line_count().saturating_add(2) {
            for character in 0..40 {
                let position = Position::new(line, character);
                let _ = definition(&index, position);
                let _ = references(&index, position, true);
            }
        }
    }
