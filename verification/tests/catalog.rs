use casm::record::Attributes;
use casm::architecture::{NodeType, RelationshipType};
use casm::catalog::{pattern_files, Library, PatternRef, MAX_LIBRARY_PATTERNS};
use casm::error::ParseError;
use casm::pattern::{Pattern, RequiredRelationship, Requirement};

fn pattern(name: &str, version: &str) -> Pattern {
    Pattern {
        name: name.to_string(),
        version: version.to_string(),
        description: None,
        requirements: Vec::new(),
        relationships: Vec::new(),
        satisfies: Vec::new(),
        metadata: Attributes::new(),
    }
}

fn web_tier() -> Pattern {
    Pattern {
        name: "secure-web-tier".to_string(),
        version: "1.0.0".to_string(),
        description: Some("A gateway fronting an application service.".to_string()),
        requirements: vec![
            Requirement {
                role: "edge".to_string(),
                node_type: NodeType::Gateway,
                description: None,
                min_security_controls: 0,
                required_control_types: Vec::new(),
                required_protocols: Vec::new(),
            },
            Requirement {
                role: "application".to_string(),
                node_type: NodeType::Service,
                description: None,
                min_security_controls: 0,
                required_control_types: Vec::new(),
                required_protocols: Vec::new(),
            },
        ],
        relationships: vec![RequiredRelationship {
            source: "edge".to_string(),
            target: "application".to_string(),
            relationship_type: RelationshipType::Sync,
            description: None,
        }],
        satisfies: Vec::new(),
        metadata: Attributes::new(),
    }
}

fn names(files: &[&str]) -> Vec<String> {
    files.iter().map(|f| f.to_string()).collect()
}

#[test]
fn a_library_loads_every_pattern_file_in_a_directory() {
    let dir = "/tmp/casm-library";
    let files = pattern_files(dir, &names(&["/tmp/casm-library/secure-web-tier.yaml", "/tmp/casm-library/other.yaml"])).unwrap();
    assert_eq!(files, names(&["/tmp/casm-library/other.yaml", "/tmp/casm-library/secure-web-tier.yaml"]));

    let mut library = Library::new();
    library.insert(pattern("other", "2.0.0"), files[0].clone()).unwrap();
    library.insert(web_tier(), files[1].clone()).unwrap();

    assert_eq!(library.len(), 2);
    let reference = PatternRef::new("secure-web-tier", "1.0.0");
    assert!(library.get(&reference).is_some());
    assert!(library.source_of(&reference).unwrap().ends_with("secure-web-tier.yaml"));
}

#[test]
fn a_library_skips_files_that_are_not_architecture_formats() {
    let files = pattern_files("d", &names(&["d/p.yaml", "d/README.md", "d/notes.txt"])).unwrap();
    assert_eq!(files.len(), 1);
    assert_eq!(files[0], "d/p.yaml");
}

#[test]
fn a_library_refuses_two_definitions_of_the_same_reference() {
    let files = pattern_files("d", &names(&["d/b.yaml", "d/a.yaml"])).unwrap();
    let mut library = Library::new();
    library.insert(pattern("p", "1.0.0"), files[0].clone()).unwrap();
    let error = library.insert(pattern("p", "1.0.0"), files[1].clone()).unwrap_err();
    match error {
        ParseError::DuplicatePattern { path, pattern, first } => {
            assert_eq!(pattern, "p@1.0.0");
            assert!(first.ends_with("a.yaml"));
            assert!(path.ends_with("b.yaml"));
        }
        other => panic!("expected DuplicatePattern, got {other:?}"),
    }
    assert_eq!(library.len(), 1);
}

#[test]
fn two_versions_of_one_pattern_coexist() {
    let mut library = Library::new();
    library.insert(pattern("p", "1.0.0"), "v1.yaml".to_string()).unwrap();
    library.insert(pattern("p", "2.0.0"), "v2.yaml".to_string()).unwrap();
    assert_eq!(library.versions_of("p").len(), 2);
    assert!(library.get(&PatternRef::new("p", "2.0.0")).is_some());
}

#[test]
fn a_wrong_version_is_answered_with_the_versions_that_exist() {
    let mut library = Library::new();
    library.insert(pattern("p", "1.0.0"), "v1.yaml".to_string()).unwrap();

    let hint = library.closest(&PatternRef::new("p", "9.9.9")).unwrap();
    assert!(hint.contains("1.0.0"), "{hint}");
}

#[test]
fn a_misspelt_name_is_answered_with_the_nearest_one() {
    let mut library = Library::new();
    library.insert(pattern("secure-web-tier", "1.0.0"), "v1.yaml".to_string()).unwrap();

    let hint = library.closest(&PatternRef::new("secure-web-teir", "1.0.0")).unwrap();
    assert_eq!(hint, "did you mean `secure-web-tier`?");
}

#[test]
fn an_empty_library_suggests_nothing() {
    let library = Library::new();
    assert!(library.is_empty());
    assert!(library.closest(&PatternRef::new("p", "1.0.0")).is_none());
}

#[test]
fn every_version_is_listed_in_load_order() {
    let mut library = Library::new();
    library.insert(pattern("p", "2.0.0"), "b.yaml".to_string()).unwrap();
    library.insert(pattern("q", "1.0.0"), "c.yaml".to_string()).unwrap();
    library.insert(pattern("p", "1.0.0"), "a.yaml".to_string()).unwrap();

    let hint = library.closest(&PatternRef::new("p", "3.0.0")).unwrap();
    assert_eq!(hint, "'p' is available at version 2.0.0, 1.0.0");
    let versions: Vec<&str> = library.versions_of("p").iter().map(|p| p.version.as_str()).collect();
    assert_eq!(versions, vec!["2.0.0", "1.0.0"]);
    let all: Vec<String> = library.patterns().iter().map(|p| p.reference()).collect();
    assert_eq!(all, vec!["p@2.0.0", "q@1.0.0", "p@1.0.0"]);
}

#[test]
fn a_reference_resolves_only_with_both_name_and_version() {
    let mut library = Library::new();
    library.insert(web_tier(), "w.yaml".to_string()).unwrap();
    assert!(library.get(&PatternRef::new("secure-web-tier", "2.0.0")).is_none());
    assert!(library.source_of(&PatternRef::new("other", "1.0.0")).is_none());
    let found = library.get(&PatternRef::new("secure-web-tier", "1.0.0")).unwrap();
    assert_eq!(found.requirements.len(), 2);
    assert_eq!(found.relationships.len(), 1);
    assert_eq!(PatternRef::new("secure-web-tier", "1.0.0").describe(), "secure-web-tier@1.0.0");
    assert!(PatternRef::new("secure-web-tier", "1.0.0").matches(found));
}

#[test]
fn an_inserted_pattern_is_then_found_and_earlier_ones_keep_resolving() {
    let mut library = Library::new();
    library.insert(pattern("a", "1.0.0"), "a.yaml".to_string()).unwrap();
    library.insert(pattern("b", "1.0.0"), "b.yaml".to_string()).unwrap();
    assert_eq!(library.source_of(&PatternRef::new("b", "1.0.0")), Some("b.yaml"));
    assert_eq!(library.source_of(&PatternRef::new("a", "1.0.0")), Some("a.yaml"));
}

#[test]
fn too_many_pattern_files_are_refused_with_the_count() {
    let many: Vec<String> = (0..=MAX_LIBRARY_PATTERNS).map(|i| format!("d/p{i}.yaml")).collect();
    match pattern_files("d", &many).unwrap_err() {
        ParseError::TooManyPatterns { path, count, limit } => {
            assert_eq!(path, "d");
            assert_eq!(count, MAX_LIBRARY_PATTERNS + 1);
            assert_eq!(limit, MAX_LIBRARY_PATTERNS);
        }
        other => panic!("expected TooManyPatterns, got {other:?}"),
    }
    let mut enough = many;
    enough.push("d/README.md".to_string());
    enough.pop();
    enough.pop();
    assert_eq!(pattern_files("d", &enough).unwrap().len(), MAX_LIBRARY_PATTERNS);
}

#[test]
fn pattern_files_come_out_in_code_point_order() {
    let files = pattern_files("d", &names(&["d/b.yml", "d/B.JSON", "d/a.toml", "d/ä.yaml"])).unwrap();
    assert_eq!(files, names(&["d/B.JSON", "d/a.toml", "d/b.yml", "d/ä.yaml"]));
}
