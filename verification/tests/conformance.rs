use casm::record::Attributes;
use casm::catalog::PatternRef;
use casm::diagnostic::{Severity, Subject};
use casm::architecture::{
    Architecture, Conformance, Control, ControlType, Interface, Node, NodeType, Protocol, Relationship,
    RelationshipType,
};
use casm::config::ValidatorConfig;
use casm::conformance::{check_conformance, patterns_are_satisfied, RoleFill, fill_role};
use casm::diagnostic::{Diagnostic, NodeId};
use casm::pattern::{Pattern, RequiredRelationship, Requirement};
use casm::pattern_doc::{from_pattern, into_pattern, PatternDocModel, RequiredRelationshipDocModel, RequirementDocModel};
use casm::error::ParseError;
use casm::rules::PatternsAreSatisfied;
use casm::validator::Validator;
use casm::rules::{check_claim, unavailable, unmet, ClaimCheck};

fn pattern(name: &str, version: &str) -> Pattern {
    Pattern {
        name: name.to_string(),
        version: version.to_string(),
        description: None,
        requirements: Vec::new(),
        relationships: Vec::new(),
        satisfies: Vec::new(),
        metadata: Attributes::new(),
    }
}

fn claim() -> PatternRef {
    PatternRef::new("secure-web-tier", "1.0.0")
}

#[test]
fn check_claim_reports_a_claim_with_no_library_as_a_warning() {
    let finding = match check_claim(&claim(), &[]) {
        ClaimCheck::Unavailable(d) => d,
        ClaimCheck::Available(_) => panic!("nothing was supplied"),
    };
    assert_eq!(finding.severity, Severity::Warning);
    assert_eq!(finding.rule, "patterns-are-satisfied");
    assert_eq!(finding.subject, Subject::Pattern { reference: "secure-web-tier@1.0.0".to_owned() });
    assert_eq!(
        finding.message,
        "claims conformance to 'secure-web-tier@1.0.0', which was not available to check"
    );
    assert!(finding.suggestion.as_deref().is_some_and(|hint| hint.contains("--patterns")));
}

#[test]
fn check_claim_lists_the_supplied_patterns_for_an_absent_version() {
    let supplied = [pattern("event-driven-core", "2.0.0"), pattern("secure-web-tier", "2.0.0")];
    let finding = match check_claim(&claim(), &supplied) {
        ClaimCheck::Unavailable(d) => d,
        ClaimCheck::Available(_) => panic!("the version differs"),
    };
    assert_eq!(
        finding.suggestion.as_deref(),
        Some("the patterns supplied were: event-driven-core@2.0.0, secure-web-tier@2.0.0")
    );
}

#[test]
fn a_claim_is_checked_against_the_first_pattern_it_names() {
    let supplied = [pattern("other", "1.0.0"), pattern("secure-web-tier", "1.0.0"), pattern("secure-web-tier", "1.0.0")];
    assert!(matches!(check_claim(&claim(), &supplied), ClaimCheck::Available(1)));
}

#[test]
fn an_unmet_finding_is_an_error_naming_the_pattern() {
    let finding = unmet("secure-web-tier@1.0.0", "role 'edge' needs 5 security controls; 'gateway' declares 2", true);
    assert_eq!(finding.severity, Severity::Error);
    assert_eq!(finding.subject, Subject::Pattern { reference: "secure-web-tier@1.0.0".to_owned() });
    assert!(finding.message.contains("security control"));
}

#[test]
fn unmet_findings_suggest_an_edit_or_a_decision() {
    let mechanical = unmet("p@1.0.0", "missing control", true);
    assert!(mechanical.suggestion.as_deref().is_some_and(|hint| hint.contains("casm evolve")));
    let ambiguous = unmet("p@1.0.0", "two candidates", false);
    assert!(ambiguous.suggestion.as_deref().is_some_and(|hint| hint.contains("decision")));
}

#[test]
fn an_unavailable_finding_keeps_the_rule_and_subject_it_is_given() {
    let d = unavailable("custom-rule", Subject::Architecture, "x@1.0.0", &[pattern("a", "1.0.0")]);
    assert_eq!(d.rule, "custom-rule");
    assert_eq!(d.subject, Subject::Architecture);
    assert_eq!(d.suggestion.as_deref(), Some("the patterns supplied were: a@1.0.0"));
}

fn node(id: u128, name: &str, node_type: NodeType, security: usize) -> Node {
    Node {
        id: NodeId(id),
        name: name.to_owned(),
        node_type,
        description: None,
        interfaces: Vec::new(),
        controls: (0..security)
            .map(|i| Control {
                control_type: ControlType::Security,
                standard: format!("SEC-{i}"),
                description: "guarded".to_owned(),
                evidence_required: false,
                tags: Vec::new(),
            })
            .collect(),
        metadata: Attributes::new(),
    }
}

/// A gateway with two security controls, fronting one service.
fn web_tier_architecture() -> Architecture {
    Architecture {
        name: "storefront".to_owned(),
        version: "1.0.0".to_owned(),
        description: None,
        nodes: vec![node(1, "edge", NodeType::Gateway, 2), node(2, "orders", NodeType::Service, 0)],
        relationships: vec![Relationship {
            source: NodeId(1),
            target: NodeId(2),
            relationship_type: RelationshipType::Sync,
            protocol: None,
            latency_budget_ms: None,
            controls: Vec::new(),
        }],
        conformance: Vec::new(),
        metadata: Attributes::new(),
    }
}

fn web_tier_pattern(min_controls: usize) -> Pattern {
    let mut p = pattern("secure-web-tier", "1.0.0");
    p.requirements = vec![
        Requirement {
            role: "edge".to_owned(),
            node_type: NodeType::Gateway,
            description: None,
            min_security_controls: min_controls,
            required_control_types: Vec::new(),
            required_protocols: Vec::new(),
        },
        Requirement {
            role: "application".to_owned(),
            node_type: NodeType::Service,
            description: None,
            min_security_controls: 0,
            required_control_types: Vec::new(),
            required_protocols: Vec::new(),
        },
    ];
    p.relationships = vec![RequiredRelationship {
        source: "edge".to_owned(),
        target: "application".to_owned(),
        relationship_type: RelationshipType::Sync,
        description: None,
    }];
    p
}

fn claiming(mut architecture: Architecture) -> Architecture {
    architecture.conformance.push(Conformance {
        pattern_name: "secure-web-tier".to_owned(),
        pattern_version: "1.0.0".to_owned(),
        bindings: Vec::new(),
    });
    architecture
}

fn conformance_findings(architecture: &Architecture, patterns: Vec<Pattern>) -> Vec<Diagnostic> {
    Validator::empty(ValidatorConfig::default())
        .with_rule(Box::new(PatternsAreSatisfied))
        .with_patterns(patterns)
        .validate(architecture)
        .diagnostics
}

#[test]
fn a_satisfied_claim_produces_no_finding() {
    let findings = conformance_findings(&claiming(web_tier_architecture()), vec![web_tier_pattern(2)]);
    assert!(findings.is_empty(), "{findings:?}");
}

#[test]
fn an_unsatisfied_claim_is_an_error_naming_the_pattern() {
    let findings = conformance_findings(&claiming(web_tier_architecture()), vec![web_tier_pattern(5)]);
    assert_eq!(findings.len(), 1, "{findings:?}");
    assert_eq!(findings[0].severity, Severity::Error);
    assert_eq!(findings[0].subject, Subject::Pattern { reference: "secure-web-tier@1.0.0".to_owned() });
    assert!(findings[0].message.contains("security control"), "{findings:?}");
    assert_eq!(findings[0].message, "role 'edge' needs 5 security controls; 'edge' declares 2");
}

#[test]
fn an_architecture_that_claims_nothing_is_never_touched_by_this_rule() {
    let findings = conformance_findings(&web_tier_architecture(), vec![web_tier_pattern(2)]);
    assert!(findings.is_empty(), "{findings:?}");
}

#[test]
fn a_claim_with_no_library_is_a_warning_rather_than_an_error() {
    let findings = conformance_findings(&claiming(web_tier_architecture()), Vec::new());
    assert_eq!(findings.len(), 1, "{findings:?}");
    assert_eq!(findings[0].severity, Severity::Warning);
    assert!(findings[0].suggestion.as_deref().is_some_and(|hint| hint.contains("--patterns")), "{findings:?}");
}

#[test]
fn a_claim_naming_an_absent_version_lists_what_was_supplied() {
    let findings = conformance_findings(&claiming(web_tier_architecture()), vec![pattern("event-driven-core", "2.0.0")]);
    assert_eq!(findings.len(), 1, "{findings:?}");
    assert!(
        findings[0].suggestion.as_deref().is_some_and(|hint| hint.contains("event-driven-core@2.0.0")),
        "{findings:?}"
    );
}

#[test]
fn a_decision_and_an_edit_get_different_suggestions() {
    let mechanical = conformance_findings(&claiming(web_tier_architecture()), vec![web_tier_pattern(5)]);
    assert!(mechanical[0].suggestion.as_deref().is_some_and(|hint| hint.contains("casm evolve")), "{mechanical:?}");

    let mut two_services = web_tier_architecture();
    two_services.nodes.push(node(3, "payments", NodeType::Service, 0));
    let ambiguous = conformance_findings(&claiming(two_services), vec![web_tier_pattern(2)]);
    assert!(ambiguous[0].suggestion.as_deref().is_some_and(|hint| hint.contains("decision")), "{ambiguous:?}");
    assert_eq!(ambiguous[0].message, "role 'application' could be filled by 2 service nodes; bind it explicitly");
}

#[test]
fn a_role_bound_by_hand_settles_the_ambiguity() {
    let mut two_services = web_tier_architecture();
    two_services.nodes.push(node(3, "payments", NodeType::Service, 0));
    let mut claimed = claiming(two_services);
    claimed.conformance[0].bindings.push(("application".to_owned(), NodeId(2)));
    assert!(patterns_are_satisfied(&claimed, &[web_tier_pattern(2)]).is_empty());
    let p = web_tier_pattern(2);
    assert_eq!(fill_role(&claimed, &claimed.conformance[0], &p.requirements[1]), RoleFill::Bound(NodeId(2)));
}

#[test]
fn a_missing_role_and_a_missing_edge_are_edits() {
    let mut architecture = claiming(web_tier_architecture());
    architecture.relationships.clear();
    let unmet_list = check_conformance(&architecture, &architecture.conformance[0], &web_tier_pattern(2));
    assert_eq!(
        unmet_list,
        vec![(
            "pattern requires a sync relationship from 'edge' (role 'edge') to 'orders' (role 'application')".to_owned(),
            true
        )]
    );
    let mut no_gateway = claiming(web_tier_architecture());
    no_gateway.nodes.remove(0);
    no_gateway.relationships.clear();
    let unmet_list = check_conformance(&no_gateway, &no_gateway.conformance[0], &web_tier_pattern(2));
    assert_eq!(unmet_list, vec![("role 'edge' needs a gateway node; none is declared".to_owned(), true)]);
}

#[test]
fn required_control_types_and_protocols_are_checked() {
    let mut p = web_tier_pattern(0);
    p.requirements[0].required_control_types = vec![ControlType::Compliance];
    p.requirements[0].required_protocols = vec![Protocol::Http2];
    let architecture = claiming(web_tier_architecture());
    let unmet_list = check_conformance(&architecture, &architecture.conformance[0], &p);
    assert_eq!(
        unmet_list,
        vec![
            ("role 'edge' needs a compliance control; 'edge' declares none".to_owned(), true),
            ("role 'edge' needs a http2 interface; 'edge' declares none".to_owned(), true),
        ]
    );
    let mut offered = architecture.clone();
    offered.nodes[0].interfaces.push(Interface {
        name: "public".to_owned(),
        protocol: Protocol::Http2,
        version: "1.0.0".to_owned(),
        schema_hash: None,
        description: None,
    });
    let unmet_list = check_conformance(&offered, &offered.conformance[0], &p);
    assert_eq!(unmet_list.len(), 1);
}

fn requirement(role: &str) -> RequirementDocModel {
    RequirementDocModel {
        role: role.to_owned(),
        node_type: NodeType::Service,
        description: None,
        min_security_controls: None,
        requires_controls: Vec::new(),
        requires_protocols: Vec::new(),
    }
}

fn pattern_doc(version: &str) -> PatternDocModel {
    PatternDocModel {
        name: "p".to_owned(),
        version: version.to_owned(),
        description: None,
        requirements: vec![requirement("application")],
        relationships: Vec::new(),
        satisfies: Vec::new(),
        metadata: Attributes::new(),
    }
}

#[test]
fn a_relationship_naming_an_undeclared_role_is_rejected_with_a_hint() {
    let mut doc = pattern_doc("0.1.0");
    doc.requirements.push(requirement("database"));
    doc.relationships.push(RequiredRelationshipDocModel {
        source: "aplication".to_owned(),
        target: "application".to_owned(),
        relationship_type: RelationshipType::Sync,
        description: None,
    });
    match into_pattern(&doc, "secure-web-tier.yaml").unwrap_err() {
        ParseError::Semantic { message, suggestion, .. } => {
            assert!(message.contains("aplication"), "{message}");
            assert_eq!(suggestion.as_deref(), Some("did you mean `application`?"));
        }
        other => panic!("expected Semantic, got {other:?}"),
    }
}

#[test]
fn a_non_semver_version_is_rejected() {
    let error = into_pattern(&pattern_doc("1.0"), "secure-web-tier.yaml").unwrap_err();
    assert!(matches!(error, ParseError::Semantic { .. }));
}

#[test]
fn a_pattern_file_parses_into_the_shape_it_describes() {
    let mut doc = pattern_doc("1.0.0");
    doc.name = "secure-web-tier".to_owned();
    doc.requirements[0].min_security_controls = Some(2);
    doc.requirements[0].requires_protocols = vec![Protocol::Http2];
    doc.satisfies = vec!["SOC2-CC6.1".to_owned()];
    let pattern = into_pattern(&doc, "secure-web-tier.yaml").unwrap();
    assert_eq!(pattern.reference(), "secure-web-tier@1.0.0");
    assert_eq!(pattern.requirements.len(), 1);
    assert_eq!(pattern.requirements[0].min_security_controls, 2);
    assert_eq!(pattern.requirements[0].required_protocols, vec![Protocol::Http2]);
    assert_eq!(pattern.satisfies, vec!["SOC2-CC6.1".to_owned()]);
}

#[test]
fn a_role_required_twice_or_unnamed_is_refused() {
    let mut twice = pattern_doc("1.0.0");
    twice.requirements.push(requirement("application"));
    let error = into_pattern(&twice, "p.yaml").unwrap_err();
    assert!(error.describe().contains("required twice"), "{error:?}");
    let mut unnamed = pattern_doc("1.0.0");
    unnamed.requirements.push(requirement(""));
    assert!(into_pattern(&unnamed, "p.yaml").is_err());
}

#[test]
fn semantic_versions_may_carry_pre_release_and_build_parts() {
    assert!(into_pattern(&pattern_doc("1.2.3-rc.1+build.5"), "p.yaml").is_ok());
    assert!(into_pattern(&pattern_doc("01.2.3"), "p.yaml").is_err());
    assert!(into_pattern(&pattern_doc("1.2.3-01"), "p.yaml").is_err());
    assert!(into_pattern(&pattern_doc("1.2"), "p.yaml").is_err());
}

#[test]
fn a_pattern_read_back_from_its_file_form_is_the_same_pattern() {
    let mut doc = pattern_doc("1.0.0");
    doc.name = "secure-web-tier".to_owned();
    doc.requirements.push(requirement("edge"));
    doc.requirements[1].min_security_controls = Some(2);
    doc.requirements[1].requires_controls = vec![ControlType::Security];
    doc.relationships.push(RequiredRelationshipDocModel {
        source: "edge".to_owned(),
        target: "application".to_owned(),
        relationship_type: RelationshipType::Sync,
        description: Some("front door".to_owned()),
    });
    doc.metadata.insert("owner", "platform");
    let original = into_pattern(&doc, "p.yaml").unwrap();
    let written = from_pattern(&original);
    assert_eq!(written.requirements[0].min_security_controls, None);
    assert_eq!(written.requirements[1].min_security_controls, Some(2));
    assert_eq!(into_pattern(&written, "p.yaml").unwrap(), original);
}
