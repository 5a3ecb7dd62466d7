use casm::actions::{
    add_controls, apply, controls_block, node_at, offered_actions, overlaps, quick_fixes,
    security_controls, source_actions, ActionKind, TextEdit, GENERATE_DIAGRAM, VALIDATE_WORKSPACE,
};
use casm::diagnostics::{Diagnostic, Severity};
use casm::index::DocumentIndex;
use casm::text::Span;

const SERVICE: &str = "\
name: x
nodes:
  - name: api
    type: service
";

fn diagnostic_at(line: u32, code: &str) -> Diagnostic {
    Diagnostic {
        span: Span::new(line, 0, 0),
        severity: Severity::Warning,
        code: code.to_owned(),
        message: String::new(),
        related: Vec::new(),
    }
}

fn fix(source: &str, line: u32, code: &str) -> String {
    let index = DocumentIndex::build(source);
    let actions = quick_fixes(&index, &diagnostic_at(line, code));
    assert!(!actions.is_empty(), "no quick-fix offered for '{code}'");
    apply(source, &actions[0].edits)
}

#[test]
fn source_actions_offer_the_workspace_commands() {
    let actions = source_actions();
    let ids: Vec<&str> = actions
        .iter()
        .filter_map(|action| action.command.as_ref())
        .map(|command| command.id.as_str())
        .collect();
    assert!(ids.contains(&GENERATE_DIAGRAM));
    assert!(ids.contains(&VALIDATE_WORKSPACE));
    assert!(actions.iter().all(|action| action.kind == ActionKind::Source));
}

#[test]
fn applying_no_edits_leaves_the_document_untouched() {
    assert_eq!(apply(SERVICE, &[]), SERVICE);
}

#[test]
fn applying_an_out_of_range_edit_is_a_no_op_rather_than_a_panic() {
    let edits = [TextEdit {
        span: Span::new(9_999, 0, 0),
        new_text: "x".to_owned(),
    }];
    assert_eq!(apply(SERVICE, &edits), SERVICE);
}

#[test]
fn several_edits_apply_without_disturbing_each_others_offsets() {
    let edits = [
        TextEdit {
            span: Span::new(0, 0, 0),
            new_text: "# first\n".to_owned(),
        },
        TextEdit {
            span: Span::new(3, 0, 0),
            new_text: "    # note\n".to_owned(),
        },
    ];
    let result = apply(SERVICE, &edits);
    assert!(result.starts_with("# first\nname: x"), "{result}");
    assert!(result.contains("    # note\n    type: service"), "{result}");
}

#[test]
fn a_missing_controls_block_is_added_under_a_header() {
    let fixed = fix(SERVICE, 2, "services-require-security-controls");
    assert_eq!(
        fixed,
        "name: x\nnodes:\n  - name: api\n    type: service\n    controls:\n      - type: security\n        standard: TODO-AUTHENTICATION\n        description: TODO describe how callers of this node are authenticated\n      - type: security\n        standard: TODO-AUTHORISATION\n        description: TODO describe what a caller must be permitted to do\n"
    );
    assert_eq!(fixed.matches("controls:").count(), 1);
}

#[test]
fn appended_controls_adopt_the_authors_indentation() {
    let source = "\
name: x
nodes:
  - name: api
    type: service
    controls:
    - type: security
      standard: OIDC
      description: tokens required
";
    let fixed = fix(source, 2, "services-require-security-controls");
    assert!(
        fixed.contains("\n    - type: security\n      standard: TODO-AUTHENTICATION"),
        "{fixed}"
    );
    assert_eq!(fixed.matches("controls:").count(), 1, "{fixed}");
    assert!(fixed.contains("standard: OIDC"), "{fixed}");
}

#[test]
fn a_fix_on_the_second_node_does_not_disturb_the_first() {
    let source = "\
name: x
nodes:
  - name: api
    type: service
    controls:
      - type: security
        standard: A
        description: first
  - name: orders-db
    type: database
";
    let fixed = fix(source, 8, "stateful-nodes-require-controls");
    assert!(fixed.contains("standard: A"), "{fixed}");
    assert!(
        fixed.ends_with("  - name: orders-db\n    type: database\n    controls:\n      - type: security\n        standard: TODO-ENCRYPTION-AT-REST\n        description: TODO describe how this data is encrypted at rest and where the keys live\n      - type: operational\n        standard: TODO-BACKUP\n        description: TODO describe the backup schedule, retention, and when a restore was last tested\n"),
        "{fixed}"
    );
}

#[test]
fn a_quick_fix_records_the_diagnostic_it_resolves() {
    let index = DocumentIndex::build(SERVICE);
    let actions = quick_fixes(&index, &diagnostic_at(3, "services-require-security-controls"));
    assert_eq!(actions.len(), 1);
    assert_eq!(
        actions[0].resolves.as_deref(),
        Some("services-require-security-controls")
    );
    assert_eq!(actions[0].kind, ActionKind::QuickFix);
    assert_eq!(actions[0].title, "Add the missing security controls");
    assert_eq!(actions[0].edits[0].span, Span::new(3, 17, 17));
}

#[test]
fn a_diagnostic_that_is_not_about_a_node_offers_no_fix() {
    let index = DocumentIndex::build(SERVICE);
    assert!(quick_fixes(&index, &diagnostic_at(9_999, "services-require-security-controls")).is_empty());
    assert!(quick_fixes(&index, &diagnostic_at(0, "services-require-security-controls")).is_empty());
}

#[test]
fn a_diagnostic_with_no_fix_offers_none() {
    let index = DocumentIndex::build(SERVICE);
    for code in ["", "unknown-rule", "syntax", "no-dependency-cycles"] {
        assert!(quick_fixes(&index, &diagnostic_at(2, code)).is_empty(), "{code}");
    }
}

#[test]
fn the_node_under_a_span_is_found_by_its_item_lines() {
    let index = DocumentIndex::build(SERVICE);
    assert_eq!(node_at(&index, Span::new(3, 0, 0)).map(|n| n.name.as_str()), Some("api"));
    assert!(node_at(&index, Span::new(1, 0, 0)).is_none());
}

#[test]
fn an_existing_block_reports_its_last_line_and_entry_indent() {
    let source = "\
name: x
nodes:
  - name: api
    type: service
    controls:
      - type: security
        standard: OIDC
";
    let index = DocumentIndex::build(source);
    let node = node_at(&index, Span::new(2, 0, 0)).unwrap();
    let block = controls_block(&index, node).unwrap();
    assert_eq!(block.last_line, 6);
    assert_eq!(block.entry_indent, 6);
    let none = DocumentIndex::build(SERVICE);
    let node = node_at(&none, Span::new(2, 0, 0)).unwrap();
    assert!(controls_block(&none, node).is_none());
}

#[test]
fn controls_are_written_with_todo_markers() {
    let index = DocumentIndex::build(SERVICE);
    let node = node_at(&index, Span::new(2, 0, 0)).unwrap();
    let action = add_controls(&index, node, "code", "title", &security_controls());
    assert!(action.edits[0].new_text.contains("TODO-AUTHENTICATION"));
    assert!(action.edits[0].new_text.contains("TODO describe"));
    assert!(action.edits[0].new_text.starts_with("\n    controls:"));
}

#[test]
fn an_edit_replaces_the_text_between_its_offsets() {
    let edits = [TextEdit { span: Span::new(0, 6, 7), new_text: "checkout".to_owned() }];
    assert_eq!(apply("name: x\n", &edits), "name: checkout\n");
    // Offsets count UTF-16 units: the emoji is two of them.
    let edits = [TextEdit { span: Span::new(0, 2, 3), new_text: "!".to_owned() }];
    assert_eq!(apply("\u{1F600}ab", &edits), "\u{1F600}!b");
}

#[test]
fn edits_on_one_line_apply_last_first() {
    let edits = [
        TextEdit { span: Span::new(0, 0, 1), new_text: "X".to_owned() },
        TextEdit { span: Span::new(0, 2, 3), new_text: "Y".to_owned() },
    ];
    assert_eq!(apply("abc", &edits), "XbY");
}

#[test]
fn overlap_is_tested_by_line() {
    assert!(overlaps(Span::new(3, 0, 1), 3, 5), "the first line");
    assert!(overlaps(Span::new(4, 0, 1), 3, 5), "a line inside");
    assert!(overlaps(Span::new(5, 0, 1), 3, 5), "the last line");
    assert!(!overlaps(Span::new(2, 0, 1), 3, 5));
    assert!(!overlaps(Span::new(6, 0, 1), 3, 5));
}

#[test]
fn the_fixes_on_the_requested_lines_come_before_the_document_actions() {
    let index = DocumentIndex::build(SERVICE);
    let diagnostics = [diagnostic_at(2, "services-require-security-controls"), diagnostic_at(9, "no-isolated-nodes")];

    let offered = offered_actions(&index, &diagnostics, 2, 2);
    assert_eq!(offered.len(), quick_fixes(&index, &diagnostics[0]).len() + 2);
    assert_eq!(offered[0].kind, ActionKind::QuickFix);
    assert_eq!(offered[offered.len() - 2], source_actions()[0]);
    assert_eq!(offered[offered.len() - 1], source_actions()[1]);

    let elsewhere = offered_actions(&index, &diagnostics, 5, 7);
    assert_eq!(elsewhere, source_actions(), "no diagnostic sits on those lines");
}
