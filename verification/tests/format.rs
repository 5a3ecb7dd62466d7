use casm::format::Format;

#[test]
fn extensions_are_recognised() {
    let cases = [
        ("a.yaml", Format::Yaml),
        ("a.yml", Format::Yaml),
        ("a.json", Format::Json),
        ("a.toml", Format::Toml),
    ];
    for (path, expected) in cases {
        assert_eq!(Format::from_path(path), Some(expected), "{path}");
    }
}

#[test]
fn extension_matching_is_case_insensitive() {
    assert_eq!(Format::from_path("A.YAML"), Some(Format::Yaml));
    assert_eq!(Format::from_path("A.Json"), Some(Format::Json));
}

#[test]
fn unknown_and_absent_extensions_are_unclassified() {
    assert_eq!(Format::from_path("a.txt"), None);
    assert_eq!(Format::from_path("architecture"), None);
}

#[test]
fn sniff_detects_json_by_its_opening_brace() {
    assert_eq!(Format::sniff("{\"name\": \"x\"}"), Format::Json);
    assert_eq!(Format::sniff("\n\n  {\"name\": \"x\"}"), Format::Json);
}

#[test]
fn every_format_renders_its_own_label() {
    assert_eq!(Format::Yaml.label(), "yaml");
    assert_eq!(Format::Json.label(), "json");
    assert_eq!(Format::Toml.label(), "toml");

    let labels: std::collections::BTreeSet<&str> =
        Format::ALL.iter().map(|format| format.label()).collect();
    assert_eq!(labels.len(), Format::ALL.len(), "labels must be distinct");
}

#[test]
fn a_table_header_needs_both_brackets_to_be_toml() {
    assert_eq!(Format::sniff("[package]\nname = \"x\"\n"), Format::Toml);
    assert_ne!(Format::sniff("[unterminated\n"), Format::Toml);
    assert_ne!(Format::sniff("nodes: []\n"), Format::Toml);
    assert_ne!(Format::sniff("name: x]\n"), Format::Toml);
}

#[test]
fn sniff_detects_toml_by_a_table_header() {
    assert_eq!(Format::sniff("[architecture]\nname = \"x\""), Format::Toml);
}

#[test]
fn sniff_detects_toml_by_bare_assignment() {
    assert_eq!(Format::sniff("name = \"checkout\""), Format::Toml);
}

#[test]
fn sniff_treats_yaml_mappings_as_yaml() {
    assert_eq!(Format::sniff("name: checkout\nversion: 1.0.0"), Format::Yaml);
}

#[test]
fn sniff_is_not_fooled_by_a_yaml_value_containing_equals() {
    assert_eq!(Format::sniff("command: a = b"), Format::Yaml);
}

#[test]
fn sniff_skips_comments_blank_lines_and_document_markers() {
    let source = "# CASIMIR architecture\n\n---\nname: checkout\n";
    assert_eq!(Format::sniff(source), Format::Yaml);
}

#[test]
fn sniff_defaults_to_yaml_on_an_empty_document() {
    assert_eq!(Format::sniff(""), Format::Yaml);
    assert_eq!(Format::sniff("\n\n   \n"), Format::Yaml);
}

#[test]
fn resolve_prefers_the_extension_over_the_contents() {
    assert_eq!(Format::resolve("a.json", "name: checkout"), Format::Json);
}

#[test]
fn resolve_falls_back_to_sniffing_without_an_extension() {
    assert_eq!(Format::resolve("stdin", "{\"name\":\"x\"}"), Format::Json);
}

#[test]
fn a_json_array_line_ending_in_a_comma_is_json() {
    assert_eq!(Format::sniff("[1,\n2]"), Format::Json);
}

#[test]
fn extensions_follow_the_last_dot_of_the_file_name() {
    assert_eq!(Format::from_path("dir.json/arch.yml"), Some(Format::Yaml));
    assert_eq!(Format::from_path(".toml"), None);
    assert_eq!(Format::from_path("a.tar.toml"), Some(Format::Toml));
    assert_eq!(Format::from_path("docs/a.yaml/"), Some(Format::Yaml));
}

#[test]
fn extensions_list_what_each_format_accepts() {
    assert_eq!(Format::Yaml.extensions(), &["yaml", "yml"]);
    assert_eq!(Format::Json.extensions(), &["json"]);
    assert_eq!(Format::Toml.extensions(), &["toml"]);
}

#[test]
fn lowercasing_touches_ascii_letters_only() {
    let lowered = casm::format::to_ascii_lowercase(&['A', 'b', 'Z', '1', 'É']);
    assert_eq!(lowered, vec!['a', 'b', 'z', '1', 'É']);
}
