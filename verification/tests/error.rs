use casm::error::{Location, ParseError};

#[test]
fn location_clamps_zero_to_one() {
    assert_eq!(Location::new(0, 0), Location { line: 1, column: 1 });
    assert_eq!(Location::new(0, 5).line, 1);
    assert_eq!(Location::new(5, 0).column, 1);
}

#[test]
fn location_preserves_real_positions() {
    assert_eq!(Location::new(14, 5).describe(), "14:5");
}

#[test]
fn syntax_errors_lead_with_path_and_position() {
    let err = ParseError::Syntax {
        path: "architecture.yaml".to_owned(),
        location: Location::new(14, 5),
        message: "unknown variant `srvice`".into(),
        suggestion: Some("did you mean `service`?".into()),
    };
    assert!(err.describe().starts_with("architecture.yaml:14:5:"));
}

#[test]
fn render_appends_the_help_line() {
    let err = ParseError::Syntax {
        path: "a.yaml".to_owned(),
        location: Location::new(1, 1),
        message: "bad".into(),
        suggestion: Some("try `service`".into()),
    };
    assert_eq!(err.render(), "a.yaml:1:1: bad\n  help: try `service`");
}

#[test]
fn render_omits_the_help_line_when_there_is_no_hint() {
    let err = ParseError::Io { path: "a.yaml".to_owned(), message: "not found".into() };
    assert!(!err.render().contains("help:"));
}

#[test]
fn a_syntax_error_reports_where_it_happened() {
    let err = ParseError::Syntax {
        path: "a.yaml".to_owned(),
        location: Location::new(7, 22),
        message: "unexpected character".into(),
        suggestion: None,
    };
    let location = err.location().expect("a syntax error knows its position");
    assert_eq!(location.line, 7);
    assert_eq!(location.column, 22);
}

#[test]
fn accessors_agree_with_the_variant() {
    let err = ParseError::UnresolvedReference {
        path: "a.yaml".to_owned(),
        endpoint: "target",
        reference: "orders-bd".into(),
        suggestion: Some("orders-db".into()),
    };
    assert_eq!(err.path(), Some("a.yaml"));
    assert_eq!(err.location(), None, "reference errors have no single position");
    assert_eq!(err.suggestion(), Some("orders-db"));
}

#[test]
fn every_message_names_its_file_and_numbers_render_in_decimal() {
    let too_large = ParseError::TooLarge { path: "big.yaml".to_owned(), size: 70_000_000, limit: 67_108_864 };
    assert_eq!(
        too_large.describe(),
        "'big.yaml' is 70000000 bytes, exceeding the 67108864-byte parse limit"
    );
    let unknown = ParseError::UnknownFormat { path: "a.txt".to_owned() };
    assert_eq!(
        unknown.describe(),
        "cannot determine the format of 'a.txt': expected a .yaml, .yml, .json, or .toml extension"
    );
    let emit = ParseError::Emit { format: "toml", message: "bad".into() };
    assert_eq!(emit.path(), None);
    assert_eq!(emit.describe(), "cannot serialise architecture to toml: bad");
    let many = ParseError::TooManyPatterns { path: "lib".to_owned(), count: 300, limit: 256 };
    assert_eq!(many.describe(), "'lib' holds 300 pattern files, exceeding the limit of 256");
}
