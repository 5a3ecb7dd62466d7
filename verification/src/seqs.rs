//! Searching sequences: the first element satisfying a predicate.
use vstd::prelude::*;

verus! {

/// The index of the first element at or after `from` satisfying `p`, or
/// `s.len()` when none does.
pub open spec fn first_match_from<A>(s: Seq<A>, p: spec_fn(A) -> bool, from: int) -> int
    decreases s.len() - from,
{
    if from < 0 || from >= s.len() {
        s.len() as int
    } else if p(s[from]) {
        from
    } else {
        first_match_from(s, p, from + 1)
    }
}

/// The index of the first element satisfying `p`, or `s.len()`.
pub open spec fn first_match<A>(s: Seq<A>, p: spec_fn(A) -> bool) -> int {
    first_match_from(s, p, 0)
}

pub proof fn lemma_first_match_from<A>(s: Seq<A>, p: spec_fn(A) -> bool, from: int)
    requires
        0 <= from <= s.len(),
    ensures
        from <= first_match_from(s, p, from) <= s.len(),
        first_match_from(s, p, from) < s.len() ==> p(s[first_match_from(s, p, from)]),
        forall|j: int| from <= j < first_match_from(s, p, from) ==> !p(#[trigger] s[j]),
    decreases s.len() - from,
{
    if from < s.len() && !p(s[from]) {
        lemma_first_match_from(s, p, from + 1);
    }
}

/// Characterises `first_match`.
pub proof fn lemma_first_match<A>(s: Seq<A>, p: spec_fn(A) -> bool)
    ensures
        0 <= first_match(s, p) <= s.len(),
        first_match(s, p) < s.len() ==> p(s[first_match(s, p)]),
        forall|j: int| 0 <= j < first_match(s, p) ==> !p(#[trigger] s[j]),
{
    lemma_first_match_from(s, p, 0);
}

/// If `k` satisfies `p` and nothing before it does, `k` is the first match.
pub proof fn lemma_first_match_is<A>(s: Seq<A>, p: spec_fn(A) -> bool, k: int)
    requires
        0 <= k <= s.len(),
        k < s.len() ==> p(s[k]),
        forall|j: int| 0 <= j < k ==> !p(#[trigger] s[j]),
    ensures
        first_match(s, p) == k,
{
    lemma_first_match(s, p);
    let f = first_match(s, p);
    if f < k {
        assert(!p(s[f]));
    }
    if k < f {
        assert(!p(s[k]));
    }
}

} // verus!
