use casm::library::{choose_library, is_pattern_file, library_candidates};

#[test]
fn only_files_in_the_loaded_directory_trigger_a_reload() {
    let directory = "/w/patterns";
    assert!(is_pattern_file("/w/patterns/secure-tier.yaml", Some(directory)));
    assert!(!is_pattern_file("/w/examples/storefront.yaml", Some(directory)));
}

#[test]
fn with_no_library_a_conventional_directory_still_triggers_one() {
    assert!(is_pattern_file("/w/patterns/first.yaml", None));
    assert!(is_pattern_file("/w/.casm/patterns/first.yaml", None));
    assert!(!is_pattern_file("/w/src/main.rs", None));
}

#[test]
fn directory_prefixes_compare_whole_components() {
    assert!(!is_pattern_file("/w/patterns-old/a.yaml", Some("/w/patterns")));
    assert!(is_pattern_file("/w//patterns/./a.yaml", Some("/w/patterns/")));
    assert!(!is_pattern_file("w/patterns/a.yaml", Some("/w/patterns")));
    assert!(!is_pattern_file("./patterns/a.yaml", Some("patterns")));
}

#[test]
fn only_files_directly_inside_a_conventional_directory_count() {
    assert!(!is_pattern_file("/w/patterns/nested/a.yaml", None));
    assert!(!is_pattern_file("/w/my-patterns/a.yaml", None));
    assert!(is_pattern_file("patterns/a.yaml", None));
    assert!(!is_pattern_file("/", None));
    assert!(!is_pattern_file("", None));
}

fn roots(names: &[&str]) -> Vec<String> {
    names.iter().map(|n| (*n).to_owned()).collect()
}

#[test]
fn the_candidates_are_each_roots_conventional_directories_in_order() {
    let r = roots(&["/w", "/v/"]);
    assert_eq!(
        library_candidates(&r, None),
        vec!["/w/patterns", "/w/.casm/patterns", "/v/patterns", "/v/.casm/patterns"]
    );
}

#[test]
fn a_conventional_directory_is_found() {
    let r = roots(&["/tmp/conventional"]);
    let found = choose_library(&r, None, &[true, false]);
    assert_eq!(found.as_deref(), Ok("/tmp/conventional/patterns"));
}

#[test]
fn the_dotted_directory_is_the_fallback() {
    let r = roots(&["/tmp/dotted"]);
    let found = choose_library(&r, None, &[false, true]);
    assert_eq!(found.as_deref(), Ok("/tmp/dotted/.casm/patterns"));
}

#[test]
fn the_first_hit_wins_rather_than_merging() {
    let r = roots(&["/tmp/both"]);
    let found = choose_library(&r, None, &[true, true]);
    assert_eq!(found.as_deref(), Ok("/tmp/both/patterns"));
}

#[test]
fn a_later_root_is_searched_when_the_first_has_no_library() {
    let r = roots(&["/a", "/b"]);
    let found = choose_library(&r, None, &[false, false, false, true]);
    assert_eq!(found.as_deref(), Ok("/b/.casm/patterns"));
}

#[test]
fn a_workspace_with_no_library_says_where_it_looked() {
    let r = roots(&["/tmp/bare"]);
    let note = choose_library(&r, None, &[false, false]).unwrap_err();
    assert!(note.contains("patterns/"), "{note}");
    assert!(note.contains("unchecked"), "{note}");
}

#[test]
fn a_setting_is_resolved_against_the_first_root() {
    let r = roots(&["/tmp/setting", "/tmp/other"]);
    assert_eq!(library_candidates(&r, Some("shapes")), vec!["/tmp/setting/shapes"]);
    let found = choose_library(&r, Some("shapes"), &[true]);
    assert_eq!(found.as_deref(), Ok("/tmp/setting/shapes"));
}

#[test]
fn an_absolute_setting_ignores_the_roots() {
    assert_eq!(library_candidates(&[], Some("/tmp/absolute/shapes")), vec!["/tmp/absolute/shapes"]);
    let r = roots(&["/tmp/elsewhere"]);
    let found = choose_library(&r, Some("/tmp/absolute/shapes"), &[true]);
    assert_eq!(found.as_deref(), Ok("/tmp/absolute/shapes"));
}

#[test]
fn a_setting_pointing_nowhere_does_not_fall_back() {
    let r = roots(&["/tmp/nowhere"]);
    let note = choose_library(&r, Some("does-not-exist"), &[false]).unwrap_err();
    assert!(note.contains("not a directory"), "{note}");
    assert!(note.contains("/tmp/nowhere/does-not-exist"), "{note}");
}

#[test]
fn a_candidate_without_a_probe_counts_as_absent() {
    let r = roots(&["/w"]);
    assert!(choose_library(&r, None, &[]).is_err());
    assert!(choose_library(&r, Some("p"), &[]).is_err());
}
