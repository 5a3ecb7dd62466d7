use casm::record::Attributes;
use casm::architecture::{Architecture, Node, NodeType};
use casm::config::ValidatorConfig;
use casm::diagnostic::NodeId;
use casm::documents::{has_drive_letter, percent_decode, uri_to_path, DocumentStore, Limits};
use casm::error::{Location, ParseError};
use casm::architecture::Conformance;
use casm::pattern::{Pattern, Requirement};

#[test]
fn uris_convert_to_paths_for_error_attribution() {
    assert_eq!(uri_to_path("file:///tmp/a.yaml"), "/tmp/a.yaml");
    assert_eq!(uri_to_path("/tmp/a.yaml"), "/tmp/a.yaml");
    assert_eq!(uri_to_path("untitled:Untitled-1"), "untitled:Untitled-1");
}

#[test]
fn a_posix_uri_becomes_its_path() {
    assert_eq!(
        uri_to_path("file:///home/eng/architecture.yaml"),
        "/home/eng/architecture.yaml"
    );
}

#[test]
fn a_windows_uri_loses_the_slash_before_its_drive_letter() {
    assert_eq!(uri_to_path("file:///C:/w/architecture.yaml"), "C:/w/architecture.yaml");
}

#[test]
fn a_leading_slash_survives_when_no_drive_letter_follows() {
    assert_eq!(uri_to_path("file:///srv/a.yaml"), "/srv/a.yaml");
    assert_eq!(uri_to_path("file:///1:/odd"), "/1:/odd");
}

#[test]
fn percent_escapes_are_decoded() {
    assert_eq!(uri_to_path("file:///home/My%20Work/a.yaml"), "/home/My Work/a.yaml");
}

#[test]
fn a_malformed_escape_is_left_alone_rather_than_refused() {
    assert_eq!(uri_to_path("file:///tmp/100%/a.yaml"), "/tmp/100%/a.yaml");
    assert_eq!(uri_to_path("file:///tmp/%zz"), "/tmp/%zz");
    assert_eq!(uri_to_path("file:///tmp/%4"), "/tmp/%4");
}

#[test]
fn decoding_is_total_on_arbitrary_input() {
    for uri in ["", "%", "%%%%", "file://", "not a uri", "%e2%82"] {
        let _ = uri_to_path(uri);
    }
}

#[test]
fn escapes_that_do_not_form_utf8_leave_the_text_unchanged() {
    assert_eq!(percent_decode("%e2%82"), "%e2%82");
    assert_eq!(percent_decode("%e2%82%ac"), "€");
    assert_eq!(percent_decode("a%2Fb%2fc"), "a/b/c");
}

#[test]
fn a_plus_sign_escape_reads_as_one_digit() {
    // `u8::from_str_radix("+7", 16)` is 7.
    assert_eq!(percent_decode("x%+7y").as_bytes(), b"x\x07y");
    assert_eq!(percent_decode("a+b"), "a+b");
}

#[test]
fn drive_letters_are_a_letter_and_a_colon() {
    assert!(has_drive_letter(&['C', ':']));
    assert!(has_drive_letter(&['z', ':', '/']));
    assert!(!has_drive_letter(&['1', ':']));
    assert!(!has_drive_letter(&['C']));
    assert!(!has_drive_letter(&['C', '/']));
}

#[test]
fn default_store_limits_are_a_firm_ceiling() {
    let limits = Limits::default();
    assert_eq!(limits.max_documents, 64);
    assert_eq!(limits.max_total_bytes, 8 * 1024 * 1024);
}


const DOC: &str = "name: x\nnodes:\n  - name: api\n    type: service\n";

fn store() -> DocumentStore {
    DocumentStore::default()
}

/// What parsing a document with one service called `name` gives.
fn service(name: &str) -> Result<Architecture, ParseError> {
    Ok(Architecture {
        name: "x".to_owned(),
        version: "0.1.0".to_owned(),
        description: None,
        nodes: vec![Node {
            id: NodeId(1),
            name: name.to_owned(),
            node_type: NodeType::Service,
            description: None,
            interfaces: Vec::new(),
            controls: Vec::new(),
            metadata: Attributes::new(),
        }],
        relationships: Vec::new(),
        conformance: Vec::new(),
        metadata: Attributes::new(),
    })
}

/// What parsing a malformed document gives.
fn broken() -> Result<Architecture, ParseError> {
    Err(ParseError::Syntax {
        path: "/a.yaml".to_owned(),
        location: Location::new(3, 4),
        message: "did not find expected key".to_owned(),
        suggestion: None,
    })
}

#[test]
fn a_document_is_stored_and_indexed_on_open() {
    let mut store = store();
    store.upsert("file:///a.yaml", DOC.to_owned(), 1, service("api"));
    let document = store.peek("file:///a.yaml").unwrap();
    assert_eq!(document.version, 1);
    assert_eq!(document.index.node_names(), ["api"]);
    assert_eq!(document.size(), DOC.len());
}

#[test]
fn a_change_replaces_the_previous_document() {
    let mut store = store();
    store.upsert("file:///a.yaml", DOC.to_owned(), 1, service("api"));
    let updated = DOC.replace("api", "gateway");
    store.upsert("file:///a.yaml", updated, 2, service("gateway"));
    let document = store.peek("file:///a.yaml").unwrap();
    assert_eq!(document.version, 2);
    assert_eq!(document.index.node_names(), ["gateway"]);
    assert_eq!(store.len(), 1, "an update is not a second document");
}

#[test]
fn closing_a_document_forgets_it() {
    let mut store = store();
    store.upsert("file:///a.yaml", DOC.to_owned(), 1, service("api"));
    assert!(store.close("file:///a.yaml").is_some());
    assert!(store.is_empty());
    assert!(store.close("file:///a.yaml").is_none(), "closing twice is harmless");
}

#[test]
fn the_document_count_limit_is_enforced() {
    let limits = Limits { max_documents: 3, max_total_bytes: usize::MAX };
    let mut store = DocumentStore::new(limits, ValidatorConfig::default());
    for n in 0..10 {
        store.upsert(&format!("file:///{n}.yaml"), DOC.to_owned(), 1, service("api"));
    }
    assert_eq!(store.len(), 3);
}

#[test]
fn the_byte_limit_is_enforced() {
    let limits = Limits { max_documents: usize::MAX, max_total_bytes: 200 };
    let mut store = DocumentStore::new(limits, ValidatorConfig::default());
    for n in 0..10 {
        store.upsert(&format!("file:///{n}.yaml"), DOC.to_owned(), 1, service("api"));
    }
    assert!(store.total_bytes() <= 200, "held {} bytes", store.total_bytes());
}

#[test]
fn eviction_drops_the_least_recently_used_document() {
    let limits = Limits { max_documents: 2, max_total_bytes: usize::MAX };
    let mut store = DocumentStore::new(limits, ValidatorConfig::default());
    store.upsert("file:///old.yaml", DOC.to_owned(), 1, service("api"));
    store.upsert("file:///mid.yaml", DOC.to_owned(), 1, service("api"));
    assert!(store.get("file:///old.yaml").is_some());
    store.upsert("file:///new.yaml", DOC.to_owned(), 1, service("api"));
    assert!(store.peek("file:///old.yaml").is_some(), "recently used, so retained");
    assert!(store.peek("file:///new.yaml").is_some(), "just written");
    assert!(store.peek("file:///mid.yaml").is_none(), "idle, so evicted");
}

#[test]
fn the_document_just_written_is_never_the_eviction_victim() {
    let limits = Limits { max_documents: 1, max_total_bytes: 1 };
    let mut store = DocumentStore::new(limits, ValidatorConfig::default());
    store.upsert("file:///a.yaml", DOC.to_owned(), 1, service("api"));
    assert!(store.peek("file:///a.yaml").is_some());
    assert_eq!(store.len(), 1, "even though it exceeds the byte budget on its own");
}

#[test]
fn peek_does_not_change_the_eviction_order() {
    let limits = Limits { max_documents: 2, max_total_bytes: usize::MAX };
    let mut store = DocumentStore::new(limits, ValidatorConfig::default());
    store.upsert("file:///first.yaml", DOC.to_owned(), 1, service("api"));
    store.upsert("file:///second.yaml", DOC.to_owned(), 1, service("api"));
    assert!(store.peek("file:///first.yaml").is_some(), "peeking must not touch");
    store.upsert("file:///third.yaml", DOC.to_owned(), 1, service("api"));
    assert!(store.peek("file:///first.yaml").is_none(), "peek did not protect it");
}

#[test]
fn eviction_is_deterministic_when_access_times_tie() {
    let choose = || {
        let limits = Limits { max_documents: 2, max_total_bytes: usize::MAX };
        let mut store = DocumentStore::new(limits, ValidatorConfig::default());
        store.upsert("file:///a.yaml", DOC.to_owned(), 1, service("api"));
        store.upsert("file:///b.yaml", DOC.to_owned(), 1, service("api"));
        store.upsert("file:///c.yaml", DOC.to_owned(), 1, service("api"));
        store.uris()
    };
    let mut first = choose();
    first.sort();
    assert_eq!(first, ["file:///b.yaml", "file:///c.yaml"]);
    for _ in 0..8 {
        let mut again = choose();
        again.sort();
        assert_eq!(first, again, "eviction must not depend on anything but the contents");
    }
}

#[test]
fn a_missing_document_is_absent_rather_than_a_panic() {
    let mut store = store();
    assert!(store.get("file:///nope.yaml").is_none());
    assert!(store.peek("file:///nope.yaml").is_none());
}

#[test]
fn the_store_never_panics_on_arbitrary_content() {
    let mut store = store();
    for (n, text) in ["", ":::", "🚀", "nodes:\n  - \n"].into_iter().enumerate() {
        let uri = format!("file:///{n}.yaml");
        store.upsert(&uri, text.to_owned(), 1, broken());
        let _ = store.get(&uri);
    }
    assert_eq!(store.len(), 4);
}

#[test]
fn a_document_is_stored_and_analysed_on_open() {
    let mut store = store();
    let document = store.upsert("file:///a.yaml", DOC.to_owned(), 1, service("api"));
    assert_eq!(document.version, 1);
    assert!(document.architecture().is_some());
    assert_eq!(document.index.node_names(), ["api"]);
}

#[test]
fn diagnostics_are_available_immediately_after_a_change() {
    let mut store = store();
    let document = store.upsert("file:///a.yaml", DOC.to_owned(), 1, service("api"));
    assert!(
        document.diagnostics().iter().any(|d| d.code == "services-require-security-controls"),
        "analysis runs eagerly, so diagnostics never lag the text"
    );
}

#[test]
fn a_change_replaces_the_previous_analysis() {
    let mut store = store();
    store.upsert("file:///a.yaml", DOC.to_owned(), 1, service("api"));
    let updated = DOC.replace("api", "gateway");
    let document = store.upsert("file:///a.yaml", updated, 2, service("gateway"));
    assert_eq!(document.version, 2);
    assert_eq!(document.index.node_names(), ["gateway"]);
    assert_eq!(store.len(), 1, "an update is not a second document");
}

#[test]
fn a_broken_document_is_stored_with_a_syntax_diagnostic_and_no_architecture() {
    let mut store = store();
    let document = store.upsert("file:///a.yaml", "nodes:\n  - name: a\n   type: b\n".into(), 1, broken());
    assert!(document.architecture().is_none());
    assert!(document.diagnostics().iter().any(|d| d.code == "syntax"));
    assert!(!document.index.node_names().is_empty(), "the index still works");
}

#[test]
fn reconfiguring_re_analyses_every_open_document() {
    let mut store = store();
    store.upsert("file:///a.yaml", DOC.to_owned(), 1, service("api"));
    assert!(
        store.peek("file:///a.yaml").is_some_and(|d| !d.diagnostics().is_empty()),
        "the strict default reports something"
    );

    store.reconfigure(ValidatorConfig::new().min_security_controls_per_service(0));

    let document = store.peek("file:///a.yaml").expect("still open");
    assert!(
        !document.diagnostics().iter().any(|d| d.code == "services-require-security-controls"),
        "stale diagnostics survived a settings change"
    );
    assert_eq!(document.version, 1, "the version is preserved across re-analysis");
    assert_eq!(store.config().min_security_controls_per_service, 0);
}

#[test]
fn a_parse_failure_survives_re_analysis_unchanged() {
    let mut store = store();
    store.upsert("file:///a.yaml", "name: [\n".to_owned(), 1, broken());
    let before = store.peek("file:///a.yaml").unwrap().diagnostics().to_vec();
    store.reconfigure(ValidatorConfig::new().allowing("syntax"));
    assert_eq!(store.peek("file:///a.yaml").unwrap().diagnostics(), before.as_slice());
}

#[test]
fn a_store_starts_with_no_patterns() {
    assert!(store().patterns().is_empty());
}

#[test]
fn loading_patterns_replaces_the_library_and_keeps_documents_open() {
    let mut store = store();
    store.upsert("file:///a.yaml", DOC.to_owned(), 1, service("api"));
    let pattern = Pattern {
        name: "secure-web-tier".to_owned(),
        version: "1.0.0".to_owned(),
        description: None,
        requirements: Vec::new(),
        relationships: Vec::new(),
        satisfies: Vec::new(),
        metadata: Attributes::new(),
    };
    store.load_patterns(vec![pattern]);
    assert_eq!(store.patterns().len(), 1);
    assert_eq!(store.patterns()[0].reference(), "secure-web-tier@1.0.0");
    assert!(store.peek("file:///a.yaml").is_some());
}

#[test]
fn a_document_and_the_library_are_retrieved_together() {
    let mut store = store();
    store.upsert("file:///a.yaml", DOC.to_owned(), 1, service("api"));
    let (document, patterns) = store.get_with_patterns("file:///a.yaml").expect("the document is open");
    assert_eq!(document.version, 1);
    assert!(patterns.is_empty());
    assert!(store.get_with_patterns("file:///missing.yaml").is_none());
}

#[test]
fn loading_patterns_re_analyses_every_open_document() {
    const CLAIMING: &str = "\
name: checkout
version: 1.0.0
nodes:
  - name: edge-gateway
    type: gateway
patterns:
  - pattern: secure-web-tier@1.0.0
";
    let gateway = Node {
        id: NodeId(1),
        name: "edge-gateway".to_owned(),
        node_type: NodeType::Gateway,
        description: None,
        interfaces: Vec::new(),
        controls: Vec::new(),
        metadata: Attributes::new(),
    };
    let architecture = Architecture {
        name: "checkout".to_owned(),
        version: "1.0.0".to_owned(),
        description: None,
        nodes: vec![gateway],
        relationships: Vec::new(),
        conformance: vec![Conformance {
            pattern_name: "secure-web-tier".to_owned(),
            pattern_version: "1.0.0".to_owned(),
            bindings: Vec::new(),
        }],
        metadata: Attributes::new(),
    };
    let mut store = store();
    store.upsert("file:///a.yaml", CLAIMING.to_owned(), 1, Ok(architecture));
    assert!(
        store.peek("file:///a.yaml").expect("stored").diagnostics().iter().any(|d| d.code == "patterns-are-satisfied"),
        "unchecked before the library loads"
    );

    let pattern = Pattern {
        name: "secure-web-tier".to_owned(),
        version: "1.0.0".to_owned(),
        description: None,
        requirements: vec![Requirement {
            role: "edge".to_owned(),
            node_type: NodeType::Gateway,
            description: None,
            min_security_controls: 0,
            required_control_types: Vec::new(),
            required_protocols: Vec::new(),
        }],
        relationships: Vec::new(),
        satisfies: Vec::new(),
        metadata: Attributes::new(),
    };
    store.load_patterns(vec![pattern]);
    assert_eq!(store.patterns().len(), 1);
    assert!(
        !store.peek("file:///a.yaml").expect("stored").diagnostics().iter().any(|d| d.code == "patterns-are-satisfied"),
        "satisfied once it loads, without the client touching the file"
    );
}
