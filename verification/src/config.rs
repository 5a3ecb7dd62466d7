//! The thresholds a validation run is parameterised by.
//!
//! Every default encodes a judgement, stated where it is defined, so a team that
//! disagrees knows exactly what it is overriding.
use vstd::prelude::*;

use crate::chars::{owned, str_eq};

verus! {

/// The default end-to-end latency ceiling, in milliseconds: the threshold
/// beyond which an interaction stops feeling responsive.
pub const DEFAULT_MAX_CRITICAL_PATH_MS: u64 = 1_000;

/// The default number of security controls required per service. Two, not
/// one: a single control is almost always "we have TLS".
pub const DEFAULT_MIN_SECURITY_CONTROLS: usize = 2;

/// Thresholds and toggles for a validation run.
#[derive(Clone, Debug, PartialEq, Eq)]
pub struct ValidatorConfig {
    /// The end-to-end latency ceiling for the critical path, in milliseconds.
    pub max_critical_path_ms: u64,
    /// How many `type: security` controls each service and gateway must
    /// declare; `0` disables the rule.
    pub min_security_controls_per_service: usize,
    /// Rule identifiers suppressed for this run, each at most once.
    pub allow: Vec<String>,
}

/// The model of a [`ValidatorConfig`].
pub struct ConfigV {
    pub max_critical_path_ms: u64,
    pub min_security_controls_per_service: usize,
    pub allow: Seq<Seq<char>>,
}

impl View for ValidatorConfig {
    type V = ConfigV;

    open spec fn view(&self) -> ConfigV {
        ConfigV {
            max_critical_path_ms: self.max_critical_path_ms,
            min_security_controls_per_service: self.min_security_controls_per_service,
            allow: self.allow@.map_values(|s: String| s@),
        }
    }
}

/// The suppression list after suppressing `id`: unchanged if it is already
/// there, otherwise `id` appended.
pub open spec fn allow_with(allow: Seq<Seq<char>>, id: Seq<char>) -> Seq<Seq<char>> {
    if allow.contains(id) {
        allow
    } else {
        allow.push(id)
    }
}

impl Default for ValidatorConfig {
    fn default() -> (c: Self)
        ensures
            c@.max_critical_path_ms == DEFAULT_MAX_CRITICAL_PATH_MS,
            c@.min_security_controls_per_service == DEFAULT_MIN_SECURITY_CONTROLS,
            c@.allow == Seq::<Seq<char>>::empty(),
    {
        let c = ValidatorConfig {
            max_critical_path_ms: DEFAULT_MAX_CRITICAL_PATH_MS,
            min_security_controls_per_service: DEFAULT_MIN_SECURITY_CONTROLS,
            allow: Vec::new(),
        };
        assert(c@.allow =~= Seq::<Seq<char>>::empty());
        c
    }
}

impl ValidatorConfig {
    /// A configuration with every threshold at its default.
    pub fn new() -> (c: Self)
        ensures
            c@.max_critical_path_ms == DEFAULT_MAX_CRITICAL_PATH_MS,
            c@.min_security_controls_per_service == DEFAULT_MIN_SECURITY_CONTROLS,
            c@.allow == Seq::<Seq<char>>::empty(),
    {
        ValidatorConfig::default()
    }

    /// Sets the critical-path latency ceiling.
    pub fn max_critical_path_ms(self, ceiling: u64) -> (c: Self)
        ensures
            c@.max_critical_path_ms == ceiling,
            c@.min_security_controls_per_service == self@.min_security_controls_per_service,
            c@.allow == self@.allow,
    {
        let mut c = self;
        c.max_critical_path_ms = ceiling;
        c
    }

    /// Sets how many security controls each service must declare.
    pub fn min_security_controls_per_service(self, minimum: usize) -> (c: Self)
        ensures
            c@.max_critical_path_ms == self@.max_critical_path_ms,
            c@.min_security_controls_per_service == minimum,
            c@.allow == self@.allow,
    {
        let mut c = self;
        c.min_security_controls_per_service = minimum;
        c
    }

    /// Suppresses a rule by its identifier; suppressing it twice is the same
    /// as suppressing it once.
    pub fn allowing(self, rule_id: &str) -> (c: Self)
        ensures
            c@.max_critical_path_ms == self@.max_critical_path_ms,
            c@.min_security_controls_per_service == self@.min_security_controls_per_service,
            c@.allow == allow_with(self@.allow, rule_id@),
    {
        let mut c = self;
        if !c.is_allowed(rule_id) {
            let ghost before = c@.allow;
            c.allow.push(owned(rule_id));
            assert(c@.allow =~= before.push(rule_id@));
        }
        c
    }

    /// Whether `rule_id` has been suppressed: by exact identifier, never by
    /// prefix.
    pub fn is_allowed(&self, rule_id: &str) -> (b: bool)
        ensures
            b == self@.allow.contains(rule_id@),
    {
        let ghost ids = self@.allow;
        let mut i: usize = 0;
        while i < self.allow.len()
            invariant
                i <= self.allow.len(),
                ids == self@.allow,
                forall|j: int| 0 <= j < i ==> ids[j] != rule_id@,
            decreases self.allow.len() - i,
        {
            assert(ids[i as int] == self.allow@[i as int]@);
            if str_eq(self.allow[i].as_str(), rule_id) {
                assert(ids[i as int] == rule_id@);
                return true;
            }
            i = i + 1;
        }
        false
    }
}

/// Suppressing a rule twice is the same as suppressing it once.
pub proof fn law_allowing_is_idempotent(allow: Seq<Seq<char>>, id: Seq<char>)
    ensures
        allow_with(allow_with(allow, id), id) == allow_with(allow, id),
{
    if !allow.contains(id) {
        assert(allow.push(id)[allow.len() as int] == id);
    }
}

/// Suppressing a rule keeps every identifier in the list at most once.
pub proof fn law_allowing_keeps_identifiers_unique(allow: Seq<Seq<char>>, id: Seq<char>)
    requires
        allow.no_duplicates(),
    ensures
        allow_with(allow, id).no_duplicates(),
{
    if !allow.contains(id) {
        let a = allow.push(id);
        assert forall|i: int, j: int| 0 <= i < a.len() && 0 <= j < a.len() && i != j implies a[i]
            != a[j] by {
            if i == allow.len() {
                assert(a[j] == allow[j]);
                if allow[j] == id {
                    assert(allow.contains(id));
                }
            } else if j == allow.len() {
                assert(a[i] == allow[i]);
                if allow[i] == id {
                    assert(allow.contains(id));
                }
            }
        }
    }
}

/// After suppressing `id`, exactly the previously suppressed rules and `id`
/// itself are suppressed: suppression is by exact identifier.
pub proof fn law_allowing_suppresses_exactly(allow: Seq<Seq<char>>, id: Seq<char>, other: Seq<char>)
    ensures
        allow_with(allow, id).contains(other) <==> (allow.contains(other) || other == id),
{
    if !allow.contains(id) {
        let a = allow.push(id);
        if allow.contains(other) {
            let k = choose|k: int| 0 <= k < allow.len() && allow[k] == other;
            assert(a[k] == other);
        }
        if other == id {
            assert(a[allow.len() as int] == id);
        }
        if a.contains(other) {
            let k = choose|k: int| 0 <= k < a.len() && a[k] == other;
            if k < allow.len() {
                assert(allow[k] == other);
            }
        }
    }
}

} // verus!
