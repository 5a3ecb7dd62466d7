//! Deterministic orderings of node identifiers and of groups of them: each
//! group in ascending identifier order, groups in lexicographic order.
use vstd::prelude::*;

use vstd::relations::{sorted_by, total_ordering};

use crate::chars::chars_of;
use crate::diagnostic::NodeId;
use crate::graph::raw_ids;

verus! {

/// Identifiers in ascending order.
pub open spec fn id_order() -> spec_fn(u128, u128) -> bool {
    |a: u128, b: u128| a <= b
}

/// Lexicographic order on identifier sequences: a proper prefix comes first.
pub open spec fn lex_le(a: Seq<u128>, b: Seq<u128>) -> bool
    decreases a.len(),
{
    if a.len() == 0 {
        true
    } else if b.len() == 0 {
        false
    } else if a[0] != b[0] {
        a[0] < b[0]
    } else {
        lex_le(a.drop_first(), b.drop_first())
    }
}

/// [`lex_le`] as a relation.
pub open spec fn lex_order() -> spec_fn(Seq<u128>, Seq<u128>) -> bool {
    |a: Seq<u128>, b: Seq<u128>| lex_le(a, b)
}

proof fn lemma_lex_reflexive(a: Seq<u128>)
    ensures
        lex_le(a, a),
    decreases a.len(),
{
    if a.len() > 0 {
        lemma_lex_reflexive(a.drop_first());
    }
}

proof fn lemma_lex_antisymmetric(a: Seq<u128>, b: Seq<u128>)
    requires
        lex_le(a, b),
        lex_le(b, a),
    ensures
        a == b,
    decreases a.len(),
{
    if a.len() > 0 && b.len() > 0 {
        lemma_lex_antisymmetric(a.drop_first(), b.drop_first());
        assert(a =~= seq![a[0]] + a.drop_first());
        assert(b =~= seq![b[0]] + b.drop_first());
    }
}

proof fn lemma_lex_transitive(a: Seq<u128>, b: Seq<u128>, c: Seq<u128>)
    requires
        lex_le(a, b),
        lex_le(b, c),
    ensures
        lex_le(a, c),
    decreases a.len(),
{
    if a.len() > 0 && b.len() > 0 && c.len() > 0 && a[0] == b[0] && b[0] == c[0] {
        lemma_lex_transitive(a.drop_first(), b.drop_first(), c.drop_first());
    }
}

proof fn lemma_lex_total(a: Seq<u128>, b: Seq<u128>)
    ensures
        lex_le(a, b) || lex_le(b, a),
    decreases a.len(),
{
    if a.len() > 0 && b.len() > 0 && a[0] == b[0] {
        lemma_lex_total(a.drop_first(), b.drop_first());
    }
}

/// Lexicographic order is a total order.
pub proof fn lemma_lex_order_total()
    ensures
        total_ordering(lex_order()),
{
    assert forall|a: Seq<u128>| #[trigger] lex_order()(a, a) by {
        lemma_lex_reflexive(a);
    }
    assert forall|a: Seq<u128>, b: Seq<u128>| #[trigger] lex_order()(a, b) && #[trigger] lex_order()(b, a) implies a == b by {
        lemma_lex_antisymmetric(a, b);
    }
    assert forall|a: Seq<u128>, b: Seq<u128>, c: Seq<u128>| #[trigger] lex_order()(a, b) && #[trigger] lex_order()(b, c) implies lex_order()(a, c) by {
        lemma_lex_transitive(a, b, c);
    }
    assert forall|a: Seq<u128>, b: Seq<u128>| #[trigger] lex_order()(a, b) || #[trigger] lex_order()(b, a) by {
        lemma_lex_total(a, b);
    }
}

/// Ascending identifier order is a total order.
pub proof fn lemma_id_order_total()
    ensures
        total_ordering(id_order()),
{
}

/// Whether `a` comes no later than `b` in lexicographic order of their
/// identifiers.
pub fn lex_less_eq(a: &Vec<NodeId>, b: &Vec<NodeId>) -> (r: bool)
    ensures
        r == lex_le(raw_ids(a@), raw_ids(b@)),
{
    let ghost x = raw_ids(a@);
    let ghost y = raw_ids(b@);
    assert(x.skip(0) =~= x);
    assert(y.skip(0) =~= y);
    let mut i: usize = 0;
    while i < a.len() && i < b.len()
        invariant
            i <= a@.len(),
            i <= b@.len(),
            x == raw_ids(a@),
            y == raw_ids(b@),
            lex_le(x, y) == lex_le(x.skip(i as int), y.skip(i as int)),
        decreases a@.len() - i,
    {
        assert(x.skip(i as int)[0] == a@[i as int].0);
        assert(y.skip(i as int)[0] == b@[i as int].0);
        if a[i].0 != b[i].0 {
            return a[i].0 < b[i].0;
        }
        assert(x.skip(i as int).drop_first() =~= x.skip(i + 1));
        assert(y.skip(i as int).drop_first() =~= y.skip(i + 1));
        i = i + 1;
    }
    i == a.len()
}

/// The identifiers of `v`, in ascending order.
pub fn sort_node_ids(v: &Vec<NodeId>) -> (r: Vec<NodeId>)
    ensures
        raw_ids(r@) == raw_ids(v@).sort_by(id_order()),
{
    let ghost all = raw_ids(v@);
    let mut r: Vec<NodeId> = Vec::new();
    assert(raw_ids(r@) =~= all.take(0));
    let mut i: usize = 0;
    while i < v.len()
        invariant
            i <= v@.len(),
            all == raw_ids(v@),
            sorted_by(raw_ids(r@), id_order()),
            raw_ids(r@).to_multiset() == all.take(i as int).to_multiset(),
            r@.len() == i,
        decreases v@.len() - i,
    {
        let x = v[i];
        let mut p: usize = 0;
        while p < r.len() && r[p].0 <= x.0
            invariant
                p <= r@.len(),
                forall|q: int| 0 <= q < p ==> r@[q].0 <= x.0,
            decreases r@.len() - p,
        {
            p = p + 1;
        }
        let ghost before = raw_ids(r@);
        proof {
            assert forall|q: int| 0 <= q < before.len() implies #[trigger] before[q] == r@[q].0 by {}
        }
        r.insert(p, x);
        proof {
            broadcast use vstd::seq_lib::group_to_multiset_ensures;

            let after = raw_ids(r@);
            assert(after =~= before.insert(p as int, x.0));
            assert(all.take(i + 1) =~= all.take(i as int).push(x.0));
            assert forall|a: int, b: int| 0 <= a < b < after.len() implies #[trigger] id_order()(after[a], after[b]) by {
                if b < p {
                } else if a < p && b == p {
                } else if a == p {
                    assert(after[b] == before[b - 1]);
                    if p < before.len() {
                        assert(id_order()(before[p as int], before[b - 1]) || p == b - 1);
                    }
                } else {
                    assert(after[b] == before[b - 1]);
                    if a < p {
                        assert(id_order()(before[a], before[b - 1]));
                    } else {
                        assert(id_order()(before[a - 1], before[b - 1]));
                    }
                }
            }
        }
        i = i + 1;
    }
    proof {
        assert(all.take(i as int) =~= all);
        all.lemma_sort_by_ensures(id_order());
        vstd::seq_lib::lemma_sorted_unique(raw_ids(r@), all.sort_by(id_order()), id_order());
    }
    r
}

/// The identifier groups of `groups`, one sequence per group.
pub open spec fn group_ids(groups: Seq<Vec<NodeId>>) -> Seq<Seq<u128>> {
    groups.map_values(|g: Vec<NodeId>| raw_ids(g@))
}

/// Inserts `g` into `groups`, which is in lexicographic order, keeping that
/// order.
pub fn insert_group(groups: &mut Vec<Vec<NodeId>>, g: Vec<NodeId>)
    requires
        sorted_by(group_ids(old(groups)@), lex_order()),
    ensures
        sorted_by(group_ids(final(groups)@), lex_order()),
        group_ids(final(groups)@).to_multiset() == group_ids(old(groups)@).to_multiset().insert(raw_ids(g@)),
{
    proof {
        lemma_lex_order_total();
    }
    let ghost x = raw_ids(g@);
    let ghost before = group_ids(groups@);
    let mut p: usize = 0;
    while p < groups.len() && !lex_less_eq(&g, &groups[p])
        invariant
            p <= groups@.len(),
            before == group_ids(groups@),
            x == raw_ids(g@),
            forall|q: int| 0 <= q < p ==> !lex_le(x, #[trigger] before[q]),
        decreases groups@.len() - p,
    {
        p = p + 1;
    }
    groups.insert(p, g);
    proof {
        broadcast use vstd::seq_lib::group_to_multiset_ensures;

        let after = group_ids(groups@);
        assert(after =~= before.insert(p as int, x));
        assert forall|a: int, b: int| 0 <= a < b < after.len() implies #[trigger] lex_order()(after[a], after[b]) by {
            if b < p {
                assert(lex_order()(before[a], before[b]));
            } else if a < p && b == p {
                lemma_lex_total(x, before[a]);
            } else if a == p {
                assert(after[b] == before[b - 1]);
                assert(lex_le(x, before[p as int]));
                if p < b - 1 {
                    assert(lex_order()(before[p as int], before[b - 1]));
                    lemma_lex_transitive(x, before[p as int], before[b - 1]);
                }
            } else {
                assert(after[b] == before[b - 1]);
                if a < p {
                    assert(lex_order()(before[a], before[b - 1]));
                } else {
                    assert(lex_order()(before[a - 1], before[b - 1]));
                }
            }
        }
    }
}

/// The code points of a text.
pub open spec fn codes(s: Seq<char>) -> Seq<u128> {
    s.map_values(|c: char| (c as u32) as u128)
}

/// The texts of `v`.
pub open spec fn texts(v: Seq<String>) -> Seq<Seq<char>> {
    v.map_values(|s: String| s@)
}

/// The code points of each text of `v`.
pub open spec fn text_codes(v: Seq<String>) -> Seq<Seq<u128>> {
    v.map_values(|s: String| codes(s@))
}

/// Whether `a` comes no later than `b` in code-point order.
pub fn text_less_eq(a: &str, b: &str) -> (r: bool)
    ensures
        r == lex_le(codes(a@), codes(b@)),
{
    let xs = chars_of(a);
    let ys = chars_of(b);
    let ghost x = codes(a@);
    let ghost y = codes(b@);
    assert(x.skip(0) =~= x);
    assert(y.skip(0) =~= y);
    let mut i: usize = 0;
    while i < xs.len() && i < ys.len()
        invariant
            i <= xs@.len(),
            i <= ys@.len(),
            xs@ == a@,
            ys@ == b@,
            x == codes(a@),
            y == codes(b@),
            lex_le(x, y) == lex_le(x.skip(i as int), y.skip(i as int)),
        decreases xs@.len() - i,
    {
        assert(x.skip(i as int)[0] == (xs@[i as int] as u32) as u128);
        assert(y.skip(i as int)[0] == (ys@[i as int] as u32) as u128);
        let c = xs[i] as u32;
        let d = ys[i] as u32;
        if c != d {
            return c < d;
        }
        assert(x.skip(i as int).drop_first() =~= x.skip(i + 1));
        assert(y.skip(i as int).drop_first() =~= y.skip(i + 1));
        i = i + 1;
    }
    i == xs.len()
}

/// Inserts `t` into `v`, which is in code-point order, keeping that order.
pub fn insert_text(v: &mut Vec<String>, t: String)
    requires
        sorted_by(text_codes(old(v)@), lex_order()),
    ensures
        sorted_by(text_codes(final(v)@), lex_order()),
        final(v)@.len() == old(v)@.len() + 1,
        texts(final(v)@).to_multiset() == texts(old(v)@).to_multiset().insert(t@),
{
    proof {
        lemma_lex_order_total();
    }
    let ghost x = codes(t@);
    let ghost before = text_codes(v@);
    let ghost words = texts(v@);
    let mut p: usize = 0;
    while p < v.len() && !text_less_eq(t.as_str(), v[p].as_str())
        invariant
            p <= v@.len(),
            before == text_codes(v@),
            x == codes(t@),
            forall|q: int| 0 <= q < p ==> !lex_le(x, #[trigger] before[q]),
        decreases v@.len() - p,
    {
        p = p + 1;
    }
    v.insert(p, t);
    proof {
        broadcast use vstd::seq_lib::group_to_multiset_ensures;

        let after = text_codes(v@);
        assert(after =~= before.insert(p as int, x));
        assert(texts(v@) =~= words.insert(p as int, t@));
        assert forall|a: int, b: int| 0 <= a < b < after.len() implies #[trigger] lex_order()(after[a], after[b]) by {
            if b < p {
                assert(lex_order()(before[a], before[b]));
            } else if a < p && b == p {
                lemma_lex_total(x, before[a]);
            } else if a == p {
                assert(after[b] == before[b - 1]);
                assert(lex_le(x, before[p as int]));
                if p < b - 1 {
                    assert(lex_order()(before[p as int], before[b - 1]));
                    lemma_lex_transitive(x, before[p as int], before[b - 1]);
                }
            } else {
                assert(after[b] == before[b - 1]);
                if a < p {
                    assert(lex_order()(before[a], before[b - 1]));
                } else {
                    assert(lex_order()(before[a - 1], before[b - 1]));
                }
            }
        }
    }
}

} // verus!
