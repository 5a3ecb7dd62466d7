use casm::config::{ValidatorConfig, DEFAULT_MAX_CRITICAL_PATH_MS, DEFAULT_MIN_SECURITY_CONTROLS};

#[test]
fn defaults_match_the_documented_constants() {
    let config = ValidatorConfig::default();
    assert_eq!(config.max_critical_path_ms, DEFAULT_MAX_CRITICAL_PATH_MS);
    assert_eq!(
        config.min_security_controls_per_service,
        DEFAULT_MIN_SECURITY_CONTROLS
    );
    assert!(config.allow.is_empty());
}

#[test]
fn builders_override_individual_thresholds() {
    let config = ValidatorConfig::new()
        .max_critical_path_ms(250)
        .min_security_controls_per_service(1);
    assert_eq!(config.max_critical_path_ms, 250);
    assert_eq!(config.min_security_controls_per_service, 1);
}

#[test]
fn suppression_is_by_exact_id() {
    let config = ValidatorConfig::new().allowing("no-isolated-nodes");
    assert!(config.is_allowed("no-isolated-nodes"));
    assert!(
        !config.is_allowed("no-isolated"),
        "must not be a prefix match"
    );
    assert!(!config.is_allowed("no-dependency-cycles"));
}

#[test]
fn suppressions_are_deduplicated() {
    let config = ValidatorConfig::new()
        .allowing("a")
        .allowing("a")
        .allowing("b");
    assert_eq!(config.allow, ["a", "b"]);
}

#[test]
fn the_default_values_are_the_stated_opinions() {
    assert_eq!(DEFAULT_MAX_CRITICAL_PATH_MS, 1_000);
    assert_eq!(DEFAULT_MIN_SECURITY_CONTROLS, 2);
    assert_eq!(ValidatorConfig::new(), ValidatorConfig::default());
}

#[test]
fn builders_leave_the_other_settings_alone() {
    let config = ValidatorConfig::new().allowing("x").max_critical_path_ms(7);
    assert_eq!(config.min_security_controls_per_service, DEFAULT_MIN_SECURITY_CONTROLS);
    assert_eq!(config.allow, ["x"]);
    let config = config.min_security_controls_per_service(0);
    assert_eq!(config.max_critical_path_ms, 7);
    assert_eq!(config.allow, ["x"]);
}
