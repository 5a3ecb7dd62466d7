use casm::record::Attributes;
use casm::actions::{GENERATE_DIAGRAM, VALIDATE_WORKSPACE};
use casm::architecture::{Architecture, Node, NodeType};
use casm::commands::{execute_command, workspace_summary};
use casm::diagnostic::NodeId;
use casm::config::ValidatorConfig;
use casm::documents::{DocumentStore, Limits};
use casm::error::{Location, ParseError};

fn store() -> DocumentStore {
    DocumentStore::new(Limits::default(), ValidatorConfig::default())
}

fn broken() -> Result<Architecture, ParseError> {
    Err(ParseError::Syntax {
        path: "/a.yaml".to_owned(),
        location: Location::new(1, 7),
        message: "unexpected end of flow sequence".to_owned(),
        suggestion: None,
    })
}

fn one_node() -> Architecture {
    Architecture {
        name: "demo".to_owned(),
        version: "1.0.0".to_owned(),
        description: None,
        nodes: vec![Node {
            id: NodeId(1),
            name: "api".to_owned(),
            node_type: NodeType::Service,
            description: None,
            interfaces: Vec::new(),
            controls: Vec::new(),
            metadata: Attributes::new(),
        }],
        relationships: Vec::new(),
        conformance: Vec::new(),
        metadata: Attributes::new(),
    }
}

#[test]
fn the_workspace_summary_counts_every_open_document() {
    let mut store = store();
    assert_eq!(
        workspace_summary(&store),
        "checked 0 open document(s): 0 error(s), 0 warning(s)"
    );
    store.upsert("file:///a.yaml", "name: [\n".to_owned(), 1, broken());
    store.upsert("file:///b.yaml", "name: b\n".to_owned(), 1, Ok(one_node()));
    assert_eq!(
        workspace_summary(&store),
        "checked 2 open document(s): 1 error(s), 1 warning(s)"
    );
}

#[test]
fn generating_a_diagram_renders_the_parsed_document() {
    let mut store = store();
    store.upsert("file:///b.yaml", "name: b\n".to_owned(), 1, Ok(one_node()));
    let diagram = execute_command(&store, GENERATE_DIAGRAM, "file:///b.yaml").unwrap();
    assert_eq!(diagram, "flowchart LR\n  %% demo v1.0.0\n  n0[\"api\"]\n");
}

#[test]
fn a_document_that_does_not_parse_or_is_not_open_gets_a_note_instead_of_a_diagram() {
    let mut store = store();
    store.upsert("file:///a.yaml", "name: [\n".to_owned(), 1, broken());
    let note = "%% CASIMIR could not render: the document does not currently parse.\n";
    assert_eq!(execute_command(&store, GENERATE_DIAGRAM, "file:///a.yaml").unwrap(), note);
    assert_eq!(execute_command(&store, GENERATE_DIAGRAM, "file:///nope.yaml").unwrap(), note);
}

#[test]
fn validating_the_workspace_answers_with_the_summary() {
    let store = store();
    assert_eq!(
        execute_command(&store, VALIDATE_WORKSPACE, "").unwrap(),
        "checked 0 open document(s): 0 error(s), 0 warning(s)"
    );
}

#[test]
fn an_unknown_command_is_an_error_naming_it() {
    let store = store();
    assert_eq!(
        execute_command(&store, "casm.explode", ""),
        Err("casm-lsp: unknown command 'casm.explode'".to_owned())
    );
}
