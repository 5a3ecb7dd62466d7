use casm::error::{Location, ParseError};
use casm::syntax::{
    check_document_size, infer_suggestion, offset_to_location, syntax_error, MAX_DOCUMENT_BYTES,
};

#[test]
fn the_document_ceiling_is_the_value_it_claims_to_be() {
    assert_eq!(MAX_DOCUMENT_BYTES, 67_108_864);
    assert_eq!(MAX_DOCUMENT_BYTES, 64 * 1024 * 1024);
}

#[test]
fn offset_conversion_matches_hand_counted_positions() {
    let source = "abc\ndefgh\nij";
    assert_eq!(offset_to_location(source, 0), Location::new(1, 1));
    assert_eq!(offset_to_location(source, 2), Location::new(1, 3));
    assert_eq!(offset_to_location(source, 4), Location::new(2, 1));
    assert_eq!(offset_to_location(source, 6), Location::new(2, 3));
    assert_eq!(offset_to_location(source, 10), Location::new(3, 1));
}

#[test]
fn offset_conversion_tolerates_an_out_of_range_offset() {
    let source = "abc";
    let _ = offset_to_location(source, 9_999);
}

#[test]
fn suggestion_inference_ignores_unrelated_messages() {
    assert_eq!(infer_suggestion("invalid type: map, expected a string"), None);
    assert_eq!(infer_suggestion(""), None);
}

#[test]
fn suggestion_inference_declines_when_nothing_is_near() {
    let message = "unknown variant `zzzzzzzzzz`, expected one of `service`, `database`";
    assert_eq!(infer_suggestion(message), None);
}

#[test]
fn suggestion_inference_offers_the_nearest_expected_token() {
    let message = "unknown variant `srvice`, expected one of `service`, `database`";
    assert_eq!(
        infer_suggestion(message),
        Some("did you mean `service`?".to_string())
    );
    let field = "unknown field `latncy-budget-ms`, expected `latency-budget-ms` or `protocol`";
    assert_eq!(
        infer_suggestion(field),
        Some("did you mean `latency-budget-ms`?".to_string())
    );
}

#[test]
fn suggestion_inference_needs_an_expected_token() {
    assert_eq!(infer_suggestion("unknown field `nme`"), None);
    assert_eq!(infer_suggestion("unknown field ``, expected `name`"), None);
}

#[test]
fn an_out_of_range_offset_counts_the_whole_source() {
    assert_eq!(offset_to_location("abc", 9_999), Location::new(1, 4));
    assert_eq!(offset_to_location("ab\ncd", 9_999), Location::new(2, 3));
}

#[test]
fn an_offset_inside_a_character_counts_the_whole_source() {
    // "é" is two bytes; offset 1 falls inside it.
    assert_eq!(offset_to_location("é\nxy", 1), Location::new(2, 3));
    // Columns are counted in bytes.
    assert_eq!(offset_to_location("é\nxé", 4), Location::new(2, 2));
    assert_eq!(offset_to_location("aé", 3), Location::new(1, 4));
}

#[test]
fn a_file_at_the_ceiling_is_within_it_and_one_past_is_refused() {
    assert_eq!(check_document_size("a.yaml", MAX_DOCUMENT_BYTES), Ok(()));
    assert_eq!(check_document_size("a.yaml", 0), Ok(()));
    assert_eq!(
        check_document_size("a.yaml", MAX_DOCUMENT_BYTES + 1),
        Err(ParseError::TooLarge {
            path: "a.yaml".to_string(),
            size: MAX_DOCUMENT_BYTES + 1,
            limit: MAX_DOCUMENT_BYTES,
        })
    );
}

#[test]
fn a_syntax_error_carries_its_position_and_inferred_hint() {
    let error = syntax_error(
        "architecture.yaml",
        Location::new(14, 5),
        "unknown variant `srvice`, expected one of `service`, `database`",
    );
    assert_eq!(error.location(), Some(Location::new(14, 5)));
    assert_eq!(error.suggestion(), Some("did you mean `service`?"));
    assert_eq!(error.path(), Some("architecture.yaml"));
    assert_eq!(
        error.describe(),
        "architecture.yaml:14:5: unknown variant `srvice`, expected one of `service`, `database`"
    );
}
