use casm::schema::{
    control_keys, control_types, find, interface_keys, node_keys, node_types, protocols,
    relationship_keys, relationship_types, root_keys,
};

#[test]
fn every_term_is_documented() {
    let tables = [
        root_keys(),
        node_keys(),
        relationship_keys(),
        interface_keys(),
        control_keys(),
        node_types(),
        relationship_types(),
        protocols(),
        control_types(),
    ];
    for table in tables {
        for term in table {
            assert!(!term.label.is_empty());
            assert!(!term.detail.is_empty(), "'{}' has no detail", term.label);
            assert!(
                term.documentation.len() > 10,
                "'{}' has no meaningful documentation",
                term.label
            );
        }
    }
}

#[test]
fn labels_are_unique_within_each_table() {
    let tables = [root_keys(), node_keys(), relationship_keys(), interface_keys(), control_keys()];
    for table in tables {
        let mut labels: Vec<&str> = table.iter().map(|term| term.label).collect();
        let count = labels.len();
        labels.sort_unstable();
        labels.dedup();
        assert_eq!(labels.len(), count, "duplicate label in a key table");
    }
}

#[test]
fn lookup_finds_a_term_by_exact_label() {
    assert_eq!(find(node_types(), "database").map(|t| t.detail), Some("stateful"));
    assert!(find(node_types(), "Database").is_none(), "lookup is case-sensitive");
    assert!(find(node_types(), "data").is_none(), "lookup is not a prefix match");
}

#[test]
fn markdown_rendering_includes_label_detail_and_documentation() {
    let term = find(node_types(), "service").expect("service is documented");
    let markdown = term.to_markdown();
    assert!(markdown.contains("**service**"));
    assert!(markdown.contains("stateless"));
    assert!(markdown.contains("business logic"));
}

#[test]
fn markdown_is_label_then_detail_then_documentation() {
    let term = find(control_types(), "security").expect("documented");
    let markdown = term.to_markdown();
    assert!(markdown.starts_with("**security** — _risk_\n\n"), "{markdown}");
    assert!(markdown.ends_with(term.documentation));
}
