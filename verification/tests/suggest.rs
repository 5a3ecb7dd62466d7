use casm::suggest::{closest, did_you_mean, edit_distance, MAX_NAME_LEN};

    #[test]
    fn distance_is_zero_for_identical_strings() {
        assert_eq!(edit_distance("service", "service"), 0);
    }

    #[test]
    fn distance_is_case_insensitive() {
        assert_eq!(edit_distance("Service", "service"), 0);
    }

    #[test]
    fn distance_counts_single_edits() {
        assert_eq!(edit_distance("srvice", "service"), 1, "one insertion");
        assert_eq!(edit_distance("services", "service"), 1, "one deletion");
        assert_eq!(edit_distance("servace", "service"), 1, "one substitution");
    }

    #[test]
    fn distance_handles_empty_strings() {
        assert_eq!(edit_distance("", ""), 0);
        assert_eq!(edit_distance("", "abc"), 3);
        assert_eq!(edit_distance("abc", ""), 3);
    }

    #[test]
    fn distance_accumulates_edits_rather_than_multiplying_them() {
        // The inner recurrence adds one to a neighbouring cell. Replacing that `+` with
        // `*` survived: for distances of zero and one, `n + 1` and `n * 1` frequently
        // agree, and every existing case was one of those.
        assert_eq!(edit_distance("service", "srvice"), 1);
        assert_eq!(edit_distance("service", "srvic"), 2);
        assert_eq!(edit_distance("kitten", "sitting"), 3);
        assert_eq!(edit_distance("abcdef", "uvwxyz"), 6);
        assert_eq!(edit_distance("", "abcd"), 4);

        // The mutated cell is the leading column of each row, which is the running cost
        // of deleting from the left string. It only shows when the left is *longer* than
        // the right, and every case above had it shorter or equal — so the first version
        // of this test left the mutant alive.
        assert_eq!(edit_distance("abc", "b"), 2);
        assert_eq!(edit_distance("abcd", "x"), 4);
        assert_eq!(edit_distance("service", "a"), 7);
        assert_eq!(edit_distance("ab", "b"), 1);
    }

    #[test]
    fn distance_is_symmetric() {
        assert_eq!(
            edit_distance("kitten", "sitting"),
            edit_distance("sitting", "kitten")
        );
        assert_eq!(
            edit_distance("kitten", "sitting"),
            3,
            "the textbook example"
        );
    }

    #[test]
    fn distance_handles_multibyte_characters_without_panicking() {
        // Char-based, not byte-based: this must not slice through a UTF-8 boundary.
        assert_eq!(edit_distance("café", "cafe"), 1);
        let _ = edit_distance("日本語", "日本");
    }

    #[test]
    fn closest_finds_an_obvious_typo() {
        let candidates = ["orders-db", "payments", "gateway"];
        assert_eq!(closest("orders-bd", &candidates), Some("orders-db"));
    }

    #[test]
    fn the_suggestion_threshold_is_a_strict_comparison() {
        // `closest` refuses an input longer than `MAX_NAME_LEN` with `>`. Replacing it
        // with `>=` refuses one *at* the ceiling too, and with `==` refuses only that one
        // exact length — both survived, because nothing tested the boundary itself.
        let at_ceiling = "a".repeat(MAX_NAME_LEN);
        let candidate = at_ceiling.clone();

        assert_eq!(
            closest(&at_ceiling, &[candidate.as_str()]),
            Some(candidate.as_str()),
            "a name exactly at the ceiling is still worth a suggestion"
        );

        let over = "a".repeat(MAX_NAME_LEN + 1);
        assert_eq!(
            closest(&over, &[candidate.as_str()]),
            None,
            "one character further is refused"
        );
    }

    #[test]
    fn closest_declines_when_nothing_is_near() {
        let candidates = ["orders-db", "payments", "gateway"];
        assert_eq!(
            closest("zzzzzzzzzzzz", &candidates),
            None,
            "a wrong hint is worse than none"
        );
    }

    #[test]
    fn closest_declines_on_a_tie() {
        // `ab` is distance 1 from both; proposing either would be a coin flip.
        assert_eq!(closest("ab", &["abc", "abd"]), None);
    }

    #[test]
    fn closest_handles_an_empty_candidate_set() {
        assert_eq!(closest("anything", &[]), None);
    }

    #[test]
    fn closest_refuses_pathologically_long_input() {
        let huge = "a".repeat(MAX_NAME_LEN + 1);
        assert_eq!(
            closest(&huge, &["api"]),
            None,
            "bounded work, per NASA Rule 4"
        );
    }

    #[test]
    fn closest_accepts_an_exact_match() {
        assert_eq!(closest("api", &["api", "gateway"]), Some("api"));
    }

    #[test]
    fn hint_is_formatted_for_a_terminal() {
        assert_eq!(did_you_mean("service"), "did you mean `service`?");
    }

#[test]
fn distances_obey_the_triangle_inequality() {
    let words = ["kitten", "sitting", "mitten", "", "KITTEN", "orders-db", "orders-bd", "é"];
    for a in words {
        for b in words {
            for c in words {
                assert!(edit_distance(a, c) <= edit_distance(a, b) + edit_distance(b, c), "{a} {b} {c}");
            }
        }
    }
}

#[test]
fn a_distance_is_at_least_the_length_gap() {
    assert_eq!(edit_distance("abc", "abcdef"), 3);
    assert_eq!(edit_distance("", "abcd"), 4);
    assert!(edit_distance("short", "a much longer text") >= 13);
}
