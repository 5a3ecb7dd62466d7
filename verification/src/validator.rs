//! Running a set of rules over an architecture and collecting their
//! findings.
//!
//! The dependency graph is built once per run and shared, so adding a rule
//! costs one traversal, not one graph construction. Rules execute in a fixed
//! order and each emits findings in the architecture's declaration order, so
//! two runs over the same input produce identical reports.
use vstd::prelude::*;

use crate::architecture::{Architecture, ArchitectureV};
use crate::config::{ConfigV, ValidatorConfig, DEFAULT_MAX_CRITICAL_PATH_MS, DEFAULT_MIN_SECURITY_CONTROLS};
use crate::diagnostic::{DiagnosticV, Report};
use crate::graph::{dependency_edges, node_ids, DependencyGraph, GraphV};
use crate::rules::{
    all_from, lemma_findings_carry_rule_ids,
    BoundaryCrossingsRequireControls, CriticalPathWithinBudget, NoDependencyCycles, NoIsolatedNodes,
    NoPubliclyExposedDatastores, Rule, RuleContext, RuleContextV, ServicesRequireSecurityControls,
    StatefulNodesRequireControls, SyncTargetsShouldDeclareInterfaces, PatternsAreSatisfied,
};
use crate::pattern::{Pattern, PatternV};

verus! {

/// The context every rule sees when validating `architecture` under
/// `config`: the architecture, its dependency graph, and the thresholds.
pub open spec fn context_of(architecture: ArchitectureV, config: ConfigV, patterns: Seq<PatternV>) -> RuleContextV {
    RuleContextV {
        architecture,
        graph: GraphV {
            nodes: node_ids(architecture.nodes),
            edges: dependency_edges(node_ids(architecture.nodes), architecture.relationships),
        },
        config,
        patterns,
    }
}

/// The findings of `rules` run in order against `context`, skipping every
/// rule whose identifier the configuration suppresses.
pub open spec fn run_rules(rules: Seq<Box<dyn Rule>>, context: RuleContextV) -> Seq<DiagnosticV>
    decreases rules.len(),
{
    if rules.len() == 0 {
        Seq::empty()
    } else {
        let rule = rules.last();
        run_rules(rules.drop_last(), context) + if context.config.allow.contains(rule.rule_id()) {
            Seq::empty()
        } else {
            rule.findings(context)
        }
    }
}

/// The complete built-in rule library, in execution order: findings that
/// explain others come first, so a reader meets the root cause before its
/// consequences.
pub fn built_in() -> (rules: Vec<Box<dyn Rule>>)
    ensures
        rules@.len() == 9,
{
    vec![
        Box::new(NoDependencyCycles),
        Box::new(NoPubliclyExposedDatastores),
        Box::new(CriticalPathWithinBudget),
        Box::new(ServicesRequireSecurityControls),
        Box::new(StatefulNodesRequireControls),
        Box::new(BoundaryCrossingsRequireControls),
        Box::new(NoIsolatedNodes),
        Box::new(SyncTargetsShouldDeclareInterfaces),
        Box::new(PatternsAreSatisfied),
    ]
}

/// Runs a set of rules over an architecture and collects their findings: the
/// built-in library, when it was asked for, then every rule added to it.
pub struct Validator {
    config: ValidatorConfig,
    built_in: bool,
    rules: Vec<Box<dyn Rule>>,
    patterns: Vec<Pattern>,
}

/// The model of a [`Validator`]: its thresholds, whether it runs the built-in
/// rule library, and the rules added after it, in execution order.
pub struct ValidatorV {
    pub config: ConfigV,
    pub built_in: bool,
    pub rules: Seq<Box<dyn Rule>>,
    pub patterns: Seq<PatternV>,
}

impl View for Validator {
    type V = ValidatorV;

    closed spec fn view(&self) -> ValidatorV {
        ValidatorV {
            config: self.config@,
            built_in: self.built_in,
            rules: self.rules@,
            patterns: self.patterns@.map_values(|p: Pattern| p@),
        }
    }
}

/// The identifiers of the built-in rule library, in execution order.
pub open spec fn built_in_ids() -> Seq<Seq<char>> {
    seq![
        NoDependencyCycles.rule_id(),
        NoPubliclyExposedDatastores.rule_id(),
        CriticalPathWithinBudget.rule_id(),
        ServicesRequireSecurityControls.rule_id(),
        StatefulNodesRequireControls.rule_id(),
        BoundaryCrossingsRequireControls.rule_id(),
        NoIsolatedNodes.rule_id(),
        SyncTargetsShouldDeclareInterfaces.rule_id(),
        PatternsAreSatisfied.rule_id(),
    ]
}

/// The identifiers of every rule a validator runs, in execution order.
pub open spec fn validator_ids(v: ValidatorV) -> Seq<Seq<char>> {
    (if v.built_in {
        built_in_ids()
    } else {
        Seq::empty()
    }) + v.rules.map_values(|r: Box<dyn Rule>| r.rule_id())
}

/// What a validator reports against `context`: the built-in library's
/// findings when it runs it, then those of each added rule, suppressed rules
/// contributing nothing.
pub open spec fn validator_findings(v: ValidatorV, context: RuleContextV) -> Seq<DiagnosticV> {
    (if v.built_in {
        built_in_findings(context)
    } else {
        Seq::empty()
    }) + run_rules(v.rules, context)
}

impl Validator {
    /// A validator with the built-in rule library and default thresholds.
    pub fn new() -> (v: Self)
        ensures
            v@.config.max_critical_path_ms == DEFAULT_MAX_CRITICAL_PATH_MS,
            v@.config.min_security_controls_per_service == DEFAULT_MIN_SECURITY_CONTROLS,
            v@.config.allow == Seq::<Seq<char>>::empty(),
            v@.built_in,
            v@.rules == Seq::<Box<dyn Rule>>::empty(),
    {
        Self::with_config(ValidatorConfig::default())
    }

    /// A validator with the built-in rule library and explicit thresholds.
    pub fn with_config(config: ValidatorConfig) -> (v: Self)
        ensures
            v@ == (ValidatorV { config: config@, built_in: true, rules: Seq::empty(), patterns: Seq::empty() }),
    {
        let v = Validator { config, built_in: true, rules: Vec::new(), patterns: Vec::new() };
        assert(v@.rules =~= Seq::<Box<dyn Rule>>::empty());
        assert(v@.patterns =~= Seq::<PatternV>::empty());
        v
    }

    /// A validator with no rules at all, for building a custom set.
    pub fn empty(config: ValidatorConfig) -> (v: Self)
        ensures
            v@ == (ValidatorV { config: config@, built_in: false, rules: Seq::empty(), patterns: Seq::empty() }),
    {
        let v = Validator { config, built_in: false, rules: Vec::new(), patterns: Vec::new() };
        assert(v@.rules =~= Seq::<Box<dyn Rule>>::empty());
        assert(v@.patterns =~= Seq::<PatternV>::empty());
        v
    }

    /// Adds a rule to run after the others.
    pub fn with_rule(self, rule: Box<dyn Rule>) -> (v: Self)
        ensures
            v@.config == self@.config,
            v@.built_in == self@.built_in,
            v@.rules == self@.rules.push(rule),
            v@.patterns == self@.patterns,
    {
        let mut v = self;
        v.rules.push(rule);
        v
    }

    /// Supplies the patterns conformance claims are checked against.
    pub fn with_patterns(self, patterns: Vec<Pattern>) -> (v: Self)
        ensures
            v@ == (ValidatorV { patterns: patterns@.map_values(|p: Pattern| p@), ..self@ }),
    {
        let mut v = self;
        v.patterns = patterns;
        v
    }

    /// The thresholds this validator is configured with.
    pub fn config(&self) -> (c: &ValidatorConfig)
        ensures
            c@ == self@.config,
    {
        &self.config
    }

    /// The identifiers of every rule this validator will run, in execution
    /// order.
    pub fn rule_ids(&self) -> (ids: Vec<&'static str>)
        ensures
            ids@.map_values(|s: &'static str| s@) == validator_ids(self@),
    {
        let mut ids: Vec<&'static str> = Vec::new();
        if self.built_in {
            ids.push(NoDependencyCycles.id());
            ids.push(NoPubliclyExposedDatastores.id());
            ids.push(CriticalPathWithinBudget.id());
            ids.push(ServicesRequireSecurityControls.id());
            ids.push(StatefulNodesRequireControls.id());
            ids.push(BoundaryCrossingsRequireControls.id());
            ids.push(NoIsolatedNodes.id());
            ids.push(SyncTargetsShouldDeclareInterfaces.id());
            ids.push(PatternsAreSatisfied.id());
        }
        let ghost head = ids@.map_values(|s: &'static str| s@);
        assert(head =~= if self.built_in { built_in_ids() } else { Seq::<Seq<char>>::empty() });
        let ghost n = ids@.len();
        let mut i: usize = 0;
        while i < self.rules.len()
            invariant
                i <= self.rules@.len(),
                n == head.len(),
                ids@.len() == n + i,
                forall|j: int| 0 <= j < n ==> (#[trigger] ids@[j])@ == head[j],
                forall|j: int| 0 <= j < i ==> (#[trigger] ids@[n + j])@ == self.rules@[j].rule_id(),
            decreases self.rules@.len() - i,
        {
            ids.push(self.rules[i].id());
            i = i + 1;
        }
        let ghost got = ids@.map_values(|s: &'static str| s@);
        let ghost want = validator_ids(self@);
        assert(got.len() == want.len());
        assert forall|j: int| 0 <= j < got.len() implies #[trigger] got[j] == want[j] by {
            if j >= n {
                assert(ids@[n + (j - n)] == ids@[j]);
            }
        }
        assert(got =~= want);
        ids
    }

    /// Validates `architecture`, returning every finding of every rule that
    /// is not suppressed, in rule order. A suppressed rule is skipped rather
    /// than run and filtered, so silencing an expensive rule saves its work.
    pub fn validate(&self, architecture: &Architecture) -> (report: Report)
        requires
            architecture@.nodes.len() < u32::MAX,
            architecture@.relationships.len() < u32::MAX,
        ensures
            report@ == validator_findings(self@, context_of(architecture@, self@.config, self@.patterns)),
    {
        let graph = DependencyGraph::build(architecture);
        let context = RuleContext {
            architecture,
            graph: &graph,
            config: &self.config,
            patterns: self.patterns.as_slice(),
        };
        let ghost ctx = context_of(architecture@, self@.config, self@.patterns);
        assert(context@ == ctx);
        let mut report = Report::new();
        if self.built_in {
            run_built_in(&context, &mut report);
        }
        let ghost head = report@;
        assert(head =~= if self.built_in { built_in_findings(ctx) } else { Seq::<DiagnosticV>::empty() });
        let mut i: usize = 0;
        while i < self.rules.len()
            invariant
                i <= self.rules@.len(),
                context@ == ctx,
                ctx.config == self.config@,
                report@ == head + run_rules(self.rules@.take(i as int), ctx),
            decreases self.rules@.len() - i,
        {
            assert(self.rules@.take(i + 1).drop_last() =~= self.rules@.take(i as int));
            let rule = &self.rules[i];
            if !self.config.is_allowed(rule.id()) {
                rule.check(&context, &mut report);
                assert(report@ =~= head + run_rules(self.rules@.take(i + 1), ctx));
            } else {
                assert(report@ =~= head + run_rules(self.rules@.take(i + 1), ctx));
            }
            i = i + 1;
        }
        assert(self.rules@.take(i as int) =~= self.rules@);
        report
    }
}

impl Default for Validator {
    fn default() -> (v: Self)
        ensures
            v@.config.max_critical_path_ms == DEFAULT_MAX_CRITICAL_PATH_MS,
            v@.config.min_security_controls_per_service == DEFAULT_MIN_SECURITY_CONTROLS,
            v@.config.allow == Seq::<Seq<char>>::empty(),
            v@.built_in,
            v@.rules == Seq::<Box<dyn Rule>>::empty(),
    {
        Self::new()
    }
}

/// A rule's findings against `context`, or none when the configuration
/// suppresses it.
pub open spec fn unless_allowed<R: Rule>(rule: R, context: RuleContextV) -> Seq<DiagnosticV> {
    if context.config.allow.contains(rule.rule_id()) {
        Seq::empty()
    } else {
        rule.findings(context)
    }
}

/// The findings of the built-in rule library, in its execution order.
pub open spec fn built_in_findings(context: RuleContextV) -> Seq<DiagnosticV> {
    unless_allowed(NoDependencyCycles, context) + unless_allowed(NoPubliclyExposedDatastores, context)
        + unless_allowed(CriticalPathWithinBudget, context) + unless_allowed(
        ServicesRequireSecurityControls,
        context,
    ) + unless_allowed(StatefulNodesRequireControls, context) + unless_allowed(
        BoundaryCrossingsRequireControls,
        context,
    ) + unless_allowed(NoIsolatedNodes, context) + unless_allowed(
        SyncTargetsShouldDeclareInterfaces,
        context,
    ) + unless_allowed(PatternsAreSatisfied, context)
}

/// Runs one rule unless the configuration suppresses it.
fn run_one<R: Rule>(rule: &R, context: &RuleContext<'_>, report: &mut Report)
    ensures
        final(report)@ == old(report)@ + unless_allowed(*rule, context@),
{
    if !context.config.is_allowed(rule.id()) {
        rule.check(context, report);
    } else {
        assert(report@ =~= old(report)@ + Seq::<DiagnosticV>::empty());
    }
}

/// Runs the built-in rule library against `context`, in its execution order.
fn run_built_in(context: &RuleContext<'_>, report: &mut Report)
    ensures
        final(report)@ == old(report)@ + built_in_findings(context@),
{
    let ghost start = report@;
    run_one(&NoDependencyCycles, context, report);
    run_one(&NoPubliclyExposedDatastores, context, report);
    run_one(&CriticalPathWithinBudget, context, report);
    run_one(&ServicesRequireSecurityControls, context, report);
    run_one(&StatefulNodesRequireControls, context, report);
    run_one(&BoundaryCrossingsRequireControls, context, report);
    run_one(&NoIsolatedNodes, context, report);
    run_one(&SyncTargetsShouldDeclareInterfaces, context, report);
    run_one(&PatternsAreSatisfied, context, report);
    assert(report@ =~= start + built_in_findings(context@));
}

/// Validates `architecture` with the built-in rule library under `config`,
/// the rules running in the library's execution order.
pub fn validate_with_built_in(config: &ValidatorConfig, architecture: &Architecture, patterns: &[Pattern]) -> (report: Report)
    requires
        architecture@.nodes.len() < u32::MAX,
        architecture@.relationships.len() < u32::MAX,
    ensures
        report@ == built_in_findings(context_of(architecture@, config@, patterns@.map_values(|p: Pattern| p@))),
{
    let graph = DependencyGraph::build(architecture);
    let context = RuleContext { architecture, graph: &graph, config, patterns };
    assert(context@ == context_of(architecture@, config@, patterns@.map_values(|p: Pattern| p@)));
    let mut report = Report::new();
    run_built_in(&context, &mut report);
    assert(report@ =~= built_in_findings(context@));
    report
}

/// Whether no finding of `ds` carries the identifier `id`.
pub open spec fn none_from(ds: Seq<DiagnosticV>, id: Seq<char>) -> bool {
    forall|i: int| 0 <= i < ds.len() ==> (#[trigger] ds[i]).rule != id
}

proof fn lemma_none_from_concat(a: Seq<DiagnosticV>, b: Seq<DiagnosticV>, id: Seq<char>)
    requires
        none_from(a, id),
        none_from(b, id),
    ensures
        none_from(a + b, id),
{
    assert forall|i: int| 0 <= i < (a + b).len() implies (#[trigger] (a + b)[i]).rule != id by {
        if i < a.len() {
            assert((a + b)[i] == a[i]);
        } else {
            assert((a + b)[i] == b[i - a.len()]);
        }
    }
}

/// A built-in rule suppressed under `id` contributes nothing, and any other
/// contributes only findings carrying its own identifier.
proof fn lemma_part_none_from<R: Rule>(rule: R, context: RuleContextV, id: Seq<char>)
    requires
        context.config.allow.contains(id),
        all_from(rule.findings(context), rule.rule_id()),
    ensures
        none_from(unless_allowed(rule, context), id),
{
}

/// A rule the configuration suppresses never appears: nothing the built-in
/// library reports carries its identifier.
pub proof fn law_suppressed_rules_do_not_appear(context: RuleContextV, id: Seq<char>)
    requires
        context.config.allow.contains(id),
    ensures
        none_from(built_in_findings(context), id),
{
    lemma_findings_carry_rule_ids(context);
    let a = unless_allowed(NoDependencyCycles, context);
    let b = unless_allowed(NoPubliclyExposedDatastores, context);
    let c = unless_allowed(CriticalPathWithinBudget, context);
    let d = unless_allowed(ServicesRequireSecurityControls, context);
    let e = unless_allowed(StatefulNodesRequireControls, context);
    let f = unless_allowed(BoundaryCrossingsRequireControls, context);
    let g = unless_allowed(NoIsolatedNodes, context);
    let h = unless_allowed(SyncTargetsShouldDeclareInterfaces, context);
    let i = unless_allowed(PatternsAreSatisfied, context);
    lemma_part_none_from(NoDependencyCycles, context, id);
    lemma_part_none_from(NoPubliclyExposedDatastores, context, id);
    lemma_part_none_from(CriticalPathWithinBudget, context, id);
    lemma_part_none_from(ServicesRequireSecurityControls, context, id);
    lemma_part_none_from(StatefulNodesRequireControls, context, id);
    lemma_part_none_from(BoundaryCrossingsRequireControls, context, id);
    lemma_part_none_from(NoIsolatedNodes, context, id);
    lemma_part_none_from(SyncTargetsShouldDeclareInterfaces, context, id);
    lemma_part_none_from(PatternsAreSatisfied, context, id);
    lemma_none_from_concat(a, b, id);
    lemma_none_from_concat(a + b, c, id);
    lemma_none_from_concat(a + b + c, d, id);
    lemma_none_from_concat(a + b + c + d, e, id);
    lemma_none_from_concat(a + b + c + d + e, f, id);
    lemma_none_from_concat(a + b + c + d + e + f, g, id);
    lemma_none_from_concat(a + b + c + d + e + f + g, h, id);
    lemma_none_from_concat(a + b + c + d + e + f + g + h, i, id);
}

} // verus!
