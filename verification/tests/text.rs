use casm::text::{byte_to_utf16, span_of_bytes, utf16_len, utf16_to_byte, Position, Span};

#[test]
fn utf16_length_matches_byte_length_for_ascii() {
    assert_eq!(utf16_len("payment-service"), 15);
    assert_eq!(utf16_len(""), 0);
}

#[test]
fn utf16_length_counts_code_units_not_characters() {
    assert_eq!(utf16_len("café"), 4);
    assert_eq!("café".len(), 5, "the byte length differs, which is the whole point");
    assert_eq!(utf16_len("🚀"), 2);
    assert_eq!(utf16_len("a🚀b"), 4);
}

#[test]
fn byte_offsets_convert_to_utf16_offsets() {
    let line = "  name: café";
    assert_eq!(byte_to_utf16(line, 0), 0);
    assert_eq!(byte_to_utf16(line, 2), 2);
    assert_eq!(byte_to_utf16(line, 8), 8, "start of the value");
    assert_eq!(byte_to_utf16(line, line.len()), 12, "'café' is 4 units, not 5");
}

#[test]
fn conversion_is_total_for_out_of_range_and_split_offsets() {
    let line = "café";
    assert_eq!(byte_to_utf16(line, 9_999), utf16_len(line));
    assert_eq!(byte_to_utf16(line, 4), utf16_len(line));
}

#[test]
fn utf16_offsets_convert_back_to_byte_offsets() {
    let line = "  name: café";
    assert_eq!(utf16_to_byte(line, 0), 0);
    assert_eq!(utf16_to_byte(line, 8), 8);
    assert_eq!(utf16_to_byte(line, 12), line.len(), "past 'é' is the full byte length");
}

#[test]
fn utf16_to_byte_round_trips_with_byte_to_utf16() {
    for line in ["plain ascii", "  café au lait", "a🚀b", ""] {
        for (byte_offset, _) in line.char_indices() {
            let units = byte_to_utf16(line, byte_offset);
            assert_eq!(
                utf16_to_byte(line, units),
                byte_offset,
                "round trip failed at byte {byte_offset} of {line:?}"
            );
        }
    }
}

#[test]
fn utf16_to_byte_clamps_past_the_end_so_slicing_is_always_safe() {
    let line = "short";
    assert_eq!(utf16_to_byte(line, 9_999), line.len());
    assert!(line.get(..utf16_to_byte(line, 9_999)).is_some());
}

#[test]
fn spans_are_built_from_byte_ranges() {
    let line = "  type: service";
    let span = span_of_bytes(3, line, 8, 15);
    assert_eq!(span, Span::new(3, 8, 15));
    assert_eq!(span.width(), 7);
}

#[test]
fn spans_over_multibyte_text_are_narrower_than_their_byte_range() {
    let line = "  desc: café";
    let span = span_of_bytes(0, line, 8, 13);
    assert_eq!(span.width(), 4, "five bytes, four UTF-16 units");
}

#[test]
fn containment_covers_the_span_inclusively_at_both_ends() {
    let span = Span::new(2, 4, 8);
    assert!(span.contains(Position::new(2, 4)), "the first character");
    assert!(span.contains(Position::new(2, 6)));
    assert!(span.contains(Position::new(2, 8)), "a cursor just past the word");
    assert!(!span.contains(Position::new(2, 3)));
    assert!(!span.contains(Position::new(2, 9)));
}

#[test]
fn containment_requires_the_same_line() {
    let span = Span::new(2, 4, 8);
    assert!(!span.contains(Position::new(1, 6)));
    assert!(!span.contains(Position::new(3, 6)));
}

#[test]
fn an_empty_span_is_identified() {
    assert!(Span::line_start(5).is_empty());
    assert!(Span::new(0, 3, 3).is_empty());
    assert!(!Span::new(0, 3, 4).is_empty());
}

#[test]
fn width_saturates_rather_than_underflowing() {
    assert_eq!(Span::new(0, 10, 4).width(), 0);
}

#[test]
fn positions_order_by_line_then_character() {
    assert!(Position::new(1, 5) < Position::new(2, 0));
    assert!(Position::new(1, 5) < Position::new(1, 6));
}

#[test]
fn an_emoji_offset_in_the_middle_of_a_surrogate_pair_rounds_to_the_character_boundary() {
    // "a🚀b": the rocket occupies units 1..3; unit 2 is inside it, so the
    // boundary before the rocket is taken.
    assert_eq!(utf16_to_byte("a🚀b", 2), 1);
    assert_eq!(utf16_to_byte("a🚀b", 3), 5);
    assert_eq!(utf16_to_byte("short", 9_999), 5);
    assert_eq!(byte_to_utf16("a🚀b", 5), 3);
}
