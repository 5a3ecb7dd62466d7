//! Graph-theoretic analysis of an architecture's blocking dependency
//! structure.
//!
//! Only edges that can form a dependency cycle (`sync`, `depends-on`,
//! `composed`, `quantum-entangled`) are analysed; a publish/subscribe loop
//! between two services is an ordinary topology, not a circular dependency.
//! The graph itself is a `petgraph` graph; strongly connected components come
//! from Tarjan's algorithm and the critical path is a longest-path walk over a
//! topological order.
use vstd::prelude::*;

use petgraph::graph::{DiGraph, Graph, NodeIndex};
use petgraph::visit::EdgeRef;
use petgraph::{Directed, Direction};

use vstd::multiset::Multiset;

use crate::architecture::{blocking, Architecture, NodeV, RelationshipType, RelationshipV};
use crate::diagnostic::NodeId;
use crate::sorting::{group_ids, id_order, insert_group, lemma_id_order_total, lemma_lex_order_total, lex_order, sort_node_ids};
use vstd::relations::sorted_by;

verus! {

#[verifier::external_type_specification]
#[verifier::external_body]
#[verifier::reject_recursive_types(N)]
#[verifier::reject_recursive_types(E)]
#[verifier::reject_recursive_types(Ty)]
#[verifier::reject_recursive_types(Ix)]
pub struct ExGraph<N, E, Ty, Ix>(Graph<N, E, Ty, Ix>);

#[verifier::external_type_specification]
#[verifier::external_body]
pub struct ExDirected(Directed);

/// The node weights of a dependency graph, by node index: the raw
/// identifiers of the nodes.
pub uninterp spec fn graph_nodes(g: DiGraph<NodeId, u64>) -> Seq<u128>;

/// The edges of a dependency graph, in the order they were added: source
/// index, target index, latency budget.
pub uninterp spec fn graph_edges(g: DiGraph<NodeId, u64>) -> Seq<(usize, usize, u64)>;

/// `petgraph`'s `Graph::new`: a directed graph with no nodes and no edges.
#[verifier::external_body]
fn graph_new() -> (g: DiGraph<NodeId, u64>)
    ensures
        graph_nodes(g) == Seq::<u128>::empty(),
        graph_edges(g) == Seq::<(usize, usize, u64)>::empty(),
{
    DiGraph::new()
}

/// `petgraph`'s `Graph::add_node`: the node is appended, so its index is the
/// previous node count. It panics at the index type's limit, which the
/// precondition rules out.
#[verifier::external_body]
fn graph_add_node(g: &mut DiGraph<NodeId, u64>, id: NodeId) -> (i: usize)
    requires
        graph_nodes(*old(g)).len() < u32::MAX,
    ensures
        graph_nodes(*final(g)) == graph_nodes(*old(g)).push(id.0),
        graph_edges(*final(g)) == graph_edges(*old(g)),
        i == graph_nodes(*old(g)).len(),
{
    g.add_node(id).index()
}

/// `petgraph`'s `Graph::add_edge`: the edge is appended. It panics when an
/// endpoint does not exist or at the index type's limit, which the
/// precondition rules out.
#[verifier::external_body]
fn graph_add_edge(g: &mut DiGraph<NodeId, u64>, a: usize, b: usize, weight: u64)
    requires
        a < graph_nodes(*old(g)).len(),
        b < graph_nodes(*old(g)).len(),
        graph_edges(*old(g)).len() < u32::MAX,
    ensures
        graph_nodes(*final(g)) == graph_nodes(*old(g)),
        graph_edges(*final(g)) == graph_edges(*old(g)).push((a, b, weight)),
{
    g.add_edge(NodeIndex::new(a), NodeIndex::new(b), weight);
}

/// The edges leaving node `u`, as target and budget.
pub open spec fn edges_from(edges: Seq<(usize, usize, u64)>, u: usize) -> Multiset<(usize, u64)> {
    edges.filter(leaving(u)).map_values(target_and_budget()).to_multiset()
}

/// Whether an edge leaves `u`.
pub open spec fn leaving(u: usize) -> spec_fn((usize, usize, u64)) -> bool {
    |e: (usize, usize, u64)| e.0 == u
}

/// An edge's target and budget.
pub open spec fn target_and_budget() -> spec_fn((usize, usize, u64)) -> (usize, u64) {
    |e: (usize, usize, u64)| (e.1, e.2)
}

/// `petgraph`'s `Graph::edges_directed` with `Outgoing`: every edge leaving
/// `u`, each as its target's index and its weight, in an order the contract
/// leaves open.
#[verifier::external_body]
fn graph_edges_from(g: &DiGraph<NodeId, u64>, u: usize) -> (r: Vec<(usize, u64)>)
    requires
        u < graph_nodes(*g).len(),
    ensures
        r@.to_multiset() == edges_from(graph_edges(*g), u),
{
    g.edges_directed(NodeIndex::new(u), Direction::Outgoing).map(|e| (e.target().index(), *e.weight())).collect()
}

/// Whether some edge runs into `u` (`incoming`) or out of it.
pub open spec fn touches(edges: Seq<(usize, usize, u64)>, u: usize, incoming: bool) -> bool {
    exists|i: int|
        #![trigger edges[i]]
        0 <= i < edges.len() && (if incoming {
            edges[i].1
        } else {
            edges[i].0
        }) == u
}

/// `petgraph`'s `Graph::neighbors_directed`, asked for a first element:
/// whether some edge runs into `u` (`Incoming`) or out of it (`Outgoing`).
#[verifier::external_body]
fn graph_has_neighbor(g: &DiGraph<NodeId, u64>, u: usize, incoming: bool) -> (b: bool)
    requires
        u < graph_nodes(*g).len(),
    ensures
        b == touches(graph_edges(*g), u, incoming),
{
    let direction = if incoming {
        Direction::Incoming
    } else {
        Direction::Outgoing
    };
    g.neighbors_directed(NodeIndex::new(u), direction).next().is_some()
}

/// Consecutive edges `i` and `i + 1` of a walk meet at a node.
pub open spec fn joins(edges: Seq<(usize, usize, u64)>, w: Seq<int>, i: int) -> bool {
    edges[w[i]].1 == edges[w[i + 1]].0
}

/// `w` is a walk: a sequence of edge indices, each edge starting where the
/// previous one ends.
pub open spec fn is_walk(edges: Seq<(usize, usize, u64)>, w: Seq<int>) -> bool {
    &&& forall|i: int| 0 <= i < w.len() ==> 0 <= #[trigger] w[i] < edges.len()
    &&& forall|i: int| 0 <= i < w.len() - 1 ==> #[trigger] joins(edges, w, i)
}

/// The total latency budget of a walk.
pub open spec fn walk_cost(edges: Seq<(usize, usize, u64)>, w: Seq<int>) -> nat
    decreases w.len(),
{
    if w.len() == 0 {
        0
    } else {
        (walk_cost(edges, w.drop_last()) + edges[w.last()].2) as nat
    }
}

/// An amount, saturated at `u64::MAX`.
pub open spec fn capped(x: int) -> u64 {
    if x > u64::MAX {
        u64::MAX
    } else {
        x as u64
    }
}

/// The graph holds a cycle: a non-empty walk that ends where it starts
/// (a self-loop is one).
pub open spec fn has_cycle(edges: Seq<(usize, usize, u64)>) -> bool {
    exists|w: Seq<int>|
        #![trigger is_walk(edges, w)]
        is_walk(edges, w) && w.len() > 0 && edges[w[0]].0 == edges[w.last()].1
}

/// `a` reaches `b`: they are the same node, or a non-empty walk leads from
/// `a` to `b`.
pub open spec fn reaches(edges: Seq<(usize, usize, u64)>, a: int, b: int) -> bool {
    a == b || exists|w: Seq<int>|
        #![trigger is_walk(edges, w)]
        is_walk(edges, w) && w.len() > 0 && edges[w[0]].0 == a && edges[w.last()].1 == b
}

/// `a` and `b` depend on each other, directly or transitively.
pub open spec fn mutually_reachable(edges: Seq<(usize, usize, u64)>, a: int, b: int) -> bool {
    reaches(edges, a, b) && reaches(edges, b, a)
}

/// `v` occurs in `order`.
pub open spec fn listed(order: Seq<usize>, v: int) -> bool {
    exists|i: int| 0 <= i < order.len() && #[trigger] order[i] == v
}

/// `order` lists each of the `n` nodes once, and every edge runs from an
/// earlier node to a later one.
pub open spec fn topological(n: nat, edges: Seq<(usize, usize, u64)>, order: Seq<usize>) -> bool {
    &&& order.len() == n
    &&& forall|i: int| 0 <= i < order.len() ==> #[trigger] order[i] < n
    &&& forall|i: int, j: int| 0 <= i < order.len() && 0 <= j < order.len() && i != j ==> #[trigger] order[i] != #[trigger] order[j]
    &&& forall|v: int| 0 <= v < n ==> #[trigger] listed(order, v)
    &&& forall|e: int, i: int, j: int|
        #![trigger edges[e], order[i], order[j]]
        0 <= e < edges.len() && 0 <= i < order.len() && 0 <= j < order.len() && order[i] == edges[e].0 && order[j] == edges[e].1 ==> i < j
}

/// `petgraph::algo::toposort`: on success the nodes in topological order,
/// each before its successors; an error when the graph holds a cycle
/// (self-loops included). Which of the possible orders comes back is left
/// open.
#[verifier::external_body]
fn graph_toposort(g: &DiGraph<NodeId, u64>) -> (r: Option<Vec<usize>>)
    ensures
        match r {
            Some(order) => topological(graph_nodes(*g).len(), graph_edges(*g), order@),
            None => has_cycle(graph_edges(*g)),
        },
{
    match petgraph::algo::toposort(g, None) {
        Ok(order) => Some(order.iter().map(|i| i.index()).collect()),
        Err(_) => None,
    }
}

/// `c` is the greatest budget, saturated, of any walk through the graph
/// (the empty walk counts, with budget 0).
pub open spec fn is_critical_path(edges: Seq<(usize, usize, u64)>, c: u64) -> bool {
    &&& forall|w: Seq<int>| #[trigger] is_walk(edges, w) ==> capped(walk_cost(edges, w) as int) <= c
    &&& exists|w: Seq<int>| #[trigger] is_walk(edges, w) && capped(walk_cost(edges, w) as int) == c
}

/// Every edge joins two of the `n` nodes.
pub open spec fn edges_within(n: nat, edges: Seq<(usize, usize, u64)>) -> bool {
    forall|i: int| 0 <= i < edges.len() ==> #[trigger] edges[i].0 < n && edges[i].1 < n
}

/// Edge `e` leaving `u` is among the edges the graph reports out of `u`.
proof fn lemma_edge_out(edges: Seq<(usize, usize, u64)>, u: usize, e: int)
    requires
        0 <= e < edges.len(),
        edges[e].0 == u,
    ensures
        edges_from(edges, u).contains((edges[e].1, edges[e].2)),
{
    broadcast use vstd::seq_lib::group_to_multiset_ensures;

    let pred = leaving(u);
    let f = edges.filter(pred);
    edges.lemma_filter_contains(pred, e);
    let i = choose|i: int| 0 <= i < f.len() && f[i] == edges[e];
    let m = f.map_values(target_and_budget());
    assert(m[i] == (edges[e].1, edges[e].2));
    assert(m.contains((edges[e].1, edges[e].2)));
}

/// Whatever the graph reports out of `u` is an edge leaving `u`.
proof fn lemma_edge_out_rev(edges: Seq<(usize, usize, u64)>, u: usize, t: usize, w: u64)
    requires
        edges_from(edges, u).contains((t, w)),
    ensures
        exists|e: int| 0 <= e < edges.len() && #[trigger] edges[e] == (u, t, w),
{
    broadcast use vstd::seq_lib::group_to_multiset_ensures;
    broadcast use vstd::seq_lib::group_filter_ensures;

    let pred = leaving(u);
    let f = edges.filter(pred);
    let m = f.map_values(target_and_budget());
    assert(m.contains((t, w)));
    let i = choose|i: int| 0 <= i < m.len() && m[i] == (t, w);
    assert(pred(f[i]));
    assert(f.contains(f[i]));
    edges.lemma_filter_contains_rev(pred, f[i]);
    assert(f[i] == (u, t, w));
}

/// A non-empty walk without its last edge is still a walk, ending where that
/// edge starts.
proof fn lemma_walk_prefix(edges: Seq<(usize, usize, u64)>, w: Seq<int>)
    requires
        is_walk(edges, w),
        w.len() > 0,
    ensures
        is_walk(edges, w.drop_last()),
        w.len() > 1 ==> edges[w.drop_last().last()].1 == edges[w.last()].0,
{
    let p = w.drop_last();
    assert forall|i: int| 0 <= i < p.len() - 1 implies #[trigger] joins(edges, p, i) by {
        assert(joins(edges, w, i));
    }
    assert forall|i: int| 0 <= i < p.len() implies 0 <= #[trigger] p[i] < edges.len() by {
        assert(p[i] == w[i]);
    }
    if w.len() > 1 {
        assert(joins(edges, w, w.len() - 2));
    }
}

/// Appending an edge that starts where a walk ends gives a walk, whose
/// budget grows by that edge's.
proof fn lemma_walk_extend(edges: Seq<(usize, usize, u64)>, w: Seq<int>, e: int)
    requires
        is_walk(edges, w),
        0 <= e < edges.len(),
        w.len() > 0 ==> edges[w.last()].1 == edges[e].0,
    ensures
        is_walk(edges, w.push(e)),
        walk_cost(edges, w.push(e)) == walk_cost(edges, w) + edges[e].2,
{
    let x = w.push(e);
    assert(x.drop_last() =~= w);
    assert forall|i: int| 0 <= i < x.len() - 1 implies #[trigger] joins(edges, x, i) by {
        if i < w.len() - 1 {
            assert(joins(edges, w, i));
        }
    }
    assert forall|i: int| 0 <= i < x.len() implies 0 <= #[trigger] x[i] < edges.len() by {
        if i < w.len() {
            assert(x[i] == w[i]);
        }
    }
}

/// Saturating a partial sum first does not change a saturated total, and
/// saturation keeps order.
proof fn lemma_capped(a: int, b: int, c: int)
    requires
        0 <= a,
        0 <= b,
    ensures
        capped(a + b) == capped(capped(a) + b),
        a <= c ==> capped(a) <= capped(c),
{
}

/// Along any walk, a topological order places the start before the end.
proof fn lemma_topological_walk(n: nat, edges: Seq<(usize, usize, u64)>, order: Seq<usize>, w: Seq<int>)
    requires
        topological(n, edges, order),
        edges_within(n, edges),
        is_walk(edges, w),
        w.len() > 0,
    ensures
        forall|a: int, b: int|
            #![trigger order[a], order[b]]
            0 <= a < order.len() && 0 <= b < order.len() && order[a] == edges[w[0]].0 && order[b] == edges[w.last()].1 ==> a < b,
    decreases w.len(),
{
    let e = w.last();
    assert(0 <= w[w.len() - 1] < edges.len());
    if w.len() == 1 {
        assert forall|a: int, b: int|
            #![trigger order[a], order[b]]
            0 <= a < order.len() && 0 <= b < order.len() && order[a] == edges[w[0]].0 && order[b] == edges[w.last()].1 implies a < b by {
            assert(edges[e] == edges[w[0]]);
        }
    } else {
        let p = w.drop_last();
        lemma_walk_prefix(edges, w);
        lemma_topological_walk(n, edges, order, p);
        let m = edges[e].0;
        assert(edges[e].0 < n);
        assert(listed(order, m as int));
        let c = choose|c: int| 0 <= c < order.len() && #[trigger] order[c] == m;
        assert(p[0] == w[0]);
        assert forall|a: int, b: int|
            #![trigger order[a], order[b]]
            0 <= a < order.len() && 0 <= b < order.len() && order[a] == edges[w[0]].0 && order[b] == edges[w.last()].1 implies a < b by {
            assert(order[c] == edges[p.last()].1);
            assert(edges[e] == edges[w.last()]);
        }
    }
}

/// A graph with a topological order holds no cycle.
proof fn lemma_topological_acyclic(n: nat, edges: Seq<(usize, usize, u64)>, order: Seq<usize>)
    requires
        topological(n, edges, order),
        edges_within(n, edges),
    ensures
        !has_cycle(edges),
{
    if has_cycle(edges) {
        let w = choose|w: Seq<int>| #[trigger] is_walk(edges, w) && w.len() > 0 && edges[w[0]].0 == edges[w.last()].1;
        lemma_topological_walk(n, edges, order, w);
        let v = edges[w[0]].0;
        assert(0 <= w[0] < edges.len());
        assert(edges[w[0]].0 < n);
        assert(listed(order, v as int));
        let a = choose|a: int| 0 <= a < order.len() && #[trigger] order[a] == v;
        assert(order[a] == edges[w.last()].1);
    }
}

/// Node `u` is among the first `i` of `order`.
spec fn processed(order: Seq<usize>, i: int, u: int) -> bool {
    exists|j: int| 0 <= j < i && #[trigger] order[j] == u
}

/// A non-zero longest-path entry for `v` is the budget of some walk into `v`.
spec fn witnessed(edges: Seq<(usize, usize, u64)>, longest: Seq<u64>, v: int) -> bool {
    longest[v] == 0 || exists|w: Seq<int>|
        #[trigger] is_walk(edges, w) && w.len() > 0 && edges[w.last()].1 == v && capped(walk_cost(edges, w) as int) == longest[v]
}

/// Every walk whose last edge leaves one of the first `i` nodes of `order`
/// is bounded by the entry of the node it reaches.
spec fn bounded_into(edges: Seq<(usize, usize, u64)>, longest: Seq<u64>, order: Seq<usize>, i: int) -> bool {
    forall|w: Seq<int>|
        #[trigger] is_walk(edges, w) && w.len() > 0 && processed(order, i, edges[w.last()].0 as int) ==> capped(walk_cost(edges, w) as int) <= longest[edges[w.last()].1 as int]
}

/// Every walk into one of the first `i` nodes of `order` is bounded by that
/// node's entry.
spec fn settled(edges: Seq<(usize, usize, u64)>, longest: Seq<u64>, order: Seq<usize>, i: int) -> bool {
    forall|w: Seq<int>|
        #[trigger] is_walk(edges, w) && w.len() > 0 && processed(order, i, edges[w.last()].1 as int) ==> capped(walk_cost(edges, w) as int) <= longest[edges[w.last()].1 as int]
}

/// When the `i`-th node of a topological order comes up, every edge into it
/// has already been relaxed, so its entry bounds every walk into it.
proof fn lemma_settle(n: nat, edges: Seq<(usize, usize, u64)>, order: Seq<usize>, i: int, longest: Seq<u64>)
    requires
        topological(n, edges, order),
        edges_within(n, edges),
        0 <= i < order.len(),
        longest.len() == n,
        bounded_into(edges, longest, order, i),
    ensures
        forall|w: Seq<int>|
            #[trigger] is_walk(edges, w) && w.len() > 0 && edges[w.last()].1 == order[i] ==> capped(walk_cost(edges, w) as int) <= longest[order[i] as int],
{
    assert forall|w: Seq<int>|
        #[trigger] is_walk(edges, w) && w.len() > 0 && edges[w.last()].1 == order[i] implies capped(walk_cost(edges, w) as int) <= longest[order[i] as int] by {
        let e = w[w.len() - 1];
        assert(0 <= e < edges.len());
        let u = edges[e].0;
        assert(u < n);
        assert(listed(order, u as int));
        let j = choose|j: int| 0 <= j < order.len() && #[trigger] order[j] == u;
        assert(j < i);
        assert(processed(order, i, u as int));
    }
}

/// Relaxing every edge out of the `i`-th node extends both bounds to the
/// first `i + 1` nodes.
proof fn lemma_relaxed(
    n: nat,
    edges: Seq<(usize, usize, u64)>,
    order: Seq<usize>,
    i: int,
    before: Seq<u64>,
    after: Seq<u64>,
)
    requires
        topological(n, edges, order),
        edges_within(n, edges),
        0 <= i < order.len(),
        before.len() == n,
        after.len() == n,
        bounded_into(edges, before, order, i),
        settled(edges, before, order, i),
        forall|v: int| 0 <= v < n ==> before[v] <= #[trigger] after[v],
        after[order[i] as int] == before[order[i] as int],
        forall|e: int|
            0 <= e < edges.len() && #[trigger] edges[e].0 == order[i] ==> capped(before[order[i] as int] + edges[e].2) <= after[edges[e].1 as int],
    ensures
        bounded_into(edges, after, order, i + 1),
        settled(edges, after, order, i + 1),
{
    let x = order[i];
    lemma_settle(n, edges, order, i, before);
    assert forall|w: Seq<int>|
        #[trigger] is_walk(edges, w) && w.len() > 0 && processed(order, i + 1, edges[w.last()].0 as int) implies capped(walk_cost(edges, w) as int) <= after[edges[w.last()].1 as int] by {
        let e = w[w.len() - 1];
        assert(0 <= e < edges.len());
        let src = edges[e].0;
        let j = choose|j: int| 0 <= j < i + 1 && #[trigger] order[j] == src;
        let t = edges[e].1;
        assert(t < n);
        if j == i {
            let p = w.drop_last();
            lemma_walk_prefix(edges, w);
            let wt = edges[e].2;
            assert(walk_cost(edges, w) == walk_cost(edges, p) + wt);
            assert(capped(before[x as int] + wt) <= after[t as int]);
            if p.len() == 0 {
                assert(walk_cost(edges, p) == 0);
                lemma_capped(wt as int, 0, before[x as int] + wt);
            } else {
                assert(edges[p.last()].1 == x);
                assert(capped(walk_cost(edges, p) as int) <= before[x as int]);
                lemma_capped(walk_cost(edges, p) as int, wt as int, 0);
                lemma_capped(capped(walk_cost(edges, p) as int) + wt, 0, before[x as int] + wt);
            }
        } else {
            assert(processed(order, i, src as int));
            assert(capped(walk_cost(edges, w) as int) <= before[t as int]);
        }
    }
    assert forall|w: Seq<int>|
        #[trigger] is_walk(edges, w) && w.len() > 0 && processed(order, i + 1, edges[w.last()].1 as int) implies capped(walk_cost(edges, w) as int) <= after[edges[w.last()].1 as int] by {
        let e = w[w.len() - 1];
        assert(0 <= e < edges.len());
        let t = edges[e].1;
        assert(t < n);
        let j = choose|j: int| 0 <= j < i + 1 && #[trigger] order[j] == t;
        if j != i {
            assert(processed(order, i, t as int));
        }
    }
}

/// `v` belongs to one of `comps`.
pub open spec fn in_some_component(comps: Seq<Seq<usize>>, v: int) -> bool {
    exists|k: int, j: int| 0 <= k < comps.len() && 0 <= j < comps[k].len() && #[trigger] comps[k][j] == v
}

/// `comps` are the strongly connected components of a graph of `n` nodes:
/// non-empty, together holding every node exactly once, and two nodes share
/// a component exactly when each reaches the other.
pub open spec fn is_scc_partition(n: nat, edges: Seq<(usize, usize, u64)>, comps: Seq<Seq<usize>>) -> bool {
    &&& forall|k: int| 0 <= k < comps.len() ==> #[trigger] comps[k].len() > 0
    &&& forall|k: int, j: int| 0 <= k < comps.len() && 0 <= j < comps[k].len() ==> #[trigger] comps[k][j] < n
    &&& forall|v: int| 0 <= v < n ==> #[trigger] in_some_component(comps, v)
    &&& forall|k1: int, j1: int, k2: int, j2: int|
        #![trigger comps[k1][j1], comps[k2][j2]]
        0 <= k1 < comps.len() && 0 <= j1 < comps[k1].len() && 0 <= k2 < comps.len() && 0 <= j2 < comps[k2].len() ==> {
            &&& (comps[k1][j1] == comps[k2][j2] ==> k1 == k2 && j1 == j2)
            &&& (k1 == k2 <==> mutually_reachable(edges, comps[k1][j1] as int, comps[k2][j2] as int))
        }
}

/// What `petgraph::algo::tarjan_scc` returns for a graph of `node_count`
/// nodes with these edges, in its order: components in post-order, nodes
/// within a component in the order the search met them.
pub uninterp spec fn tarjan_components(node_count: nat, edges: Seq<(usize, usize, u64)>) -> Seq<Seq<usize>>;

/// The node indices of each component.
pub open spec fn component_views(r: Seq<Vec<usize>>) -> Seq<Seq<usize>> {
    r.map_values(|c: Vec<usize>| c@)
}

/// `petgraph::algo::tarjan_scc`: the strongly connected components of the
/// graph, each as node indices. Their order, and the order within each, is
/// named by [`tarjan_components`]; what is stated of them is that they are
/// the strongly connected components.
#[verifier::external_body]
fn graph_components(g: &DiGraph<NodeId, u64>) -> (r: Vec<Vec<usize>>)
    ensures
        component_views(r@) == tarjan_components(graph_nodes(*g).len(), graph_edges(*g)),
        is_scc_partition(graph_nodes(*g).len(), graph_edges(*g), component_views(r@)),
{
    petgraph::algo::tarjan_scc(g).iter().map(|c| c.iter().map(|i| i.index()).collect()).collect()
}

/// The critical path of a graph: `None` when it holds a cycle, otherwise the
/// greatest saturated budget of any walk.
pub open spec fn critical_path_of(edges: Seq<(usize, usize, u64)>) -> Option<u64> {
    if has_cycle(edges) {
        None
    } else {
        Some(choose|c: u64| is_critical_path(edges, c))
    }
}

/// A graph has at most one critical path budget.
pub proof fn lemma_critical_path_unique(edges: Seq<(usize, usize, u64)>, a: u64, b: u64)
    requires
        is_critical_path(edges, a),
        is_critical_path(edges, b),
    ensures
        a == b,
{
    let wa = choose|w: Seq<int>| #[trigger] is_walk(edges, w) && capped(walk_cost(edges, w) as int) == a;
    let wb = choose|w: Seq<int>| #[trigger] is_walk(edges, w) && capped(walk_cost(edges, w) as int) == b;
    assert(capped(walk_cost(edges, wa) as int) <= b);
    assert(capped(walk_cost(edges, wb) as int) <= a);
}

/// The identifier of each node index.
pub open spec fn node_at(nodes: Seq<u128>) -> spec_fn(usize) -> u128 {
    |i: usize| nodes[i as int]
}

/// A component as its identifiers in ascending order.
pub open spec fn group_of(nodes: Seq<u128>, c: Seq<usize>) -> Seq<u128> {
    c.map_values(node_at(nodes)).sort_by(id_order())
}

/// [`group_of`] as a function of the component.
pub open spec fn group_maker(nodes: Seq<u128>) -> spec_fn(Seq<usize>) -> Seq<u128> {
    |c: Seq<usize>| group_of(nodes, c)
}

/// Whether a component holds more than one node.
pub open spec fn is_cyclic_component() -> spec_fn(Seq<usize>) -> bool {
    |c: Seq<usize>| c.len() > 1
}

/// The dependency cycles among `comps`: every component of two or more
/// nodes, as its identifiers in ascending order, the groups in lexicographic
/// order.
pub open spec fn cycle_groups(nodes: Seq<u128>, comps: Seq<Seq<usize>>) -> Seq<Seq<u128>> {
    comps.filter(is_cyclic_component()).map_values(group_maker(nodes)).sort_by(lex_order())
}

/// No two distinct nodes depend on each other.
pub open spec fn free_of_mutual_dependency(n: nat, edges: Seq<(usize, usize, u64)>) -> bool {
    forall|a: int, b: int|
        0 <= a < n && 0 <= b < n && a != b ==> !#[trigger] mutually_reachable(edges, a, b)
}

/// Over a component partition, there is no dependency cycle exactly when
/// every component is a single node.
proof fn lemma_no_cycle_groups(n: nat, edges: Seq<(usize, usize, u64)>, nodes: Seq<u128>, comps: Seq<Seq<usize>>)
    requires
        is_scc_partition(n, edges, comps),
    ensures
        (cycle_groups(nodes, comps).len() == 0) == free_of_mutual_dependency(n, edges),
{
    broadcast use vstd::seq_lib::group_filter_ensures;
    broadcast use vstd::seq_lib::group_to_multiset_ensures;

    let f = comps.filter(is_cyclic_component());
    let m = f.map_values(group_maker(nodes));
    lemma_lex_order_total();
    m.lemma_sort_by_ensures(lex_order());
    assert(m.sort_by(lex_order()).len() == m.len()) by {
        assert(m.sort_by(lex_order()).to_multiset().len() == m.to_multiset().len());
    }
    if f.len() > 0 {
        assert(is_cyclic_component()(f[0]));
        assert(f.contains(f[0]));
        comps.lemma_filter_contains_rev(is_cyclic_component(), f[0]);
        let k = choose|k: int| 0 <= k < comps.len() && comps[k] == f[0];
        assert(comps[k].len() > 1);
        let a = comps[k][0];
        let b = comps[k][1];
        assert(a != b);
        assert(a < n && b < n);
        assert(mutually_reachable(edges, a as int, b as int));
    } else {
        assert forall|a: int, b: int|
            0 <= a < n && 0 <= b < n && a != b implies !#[trigger] mutually_reachable(edges, a, b) by {
            assert(in_some_component(comps, a));
            assert(in_some_component(comps, b));
            let (k1, j1) = choose|k: int, j: int| 0 <= k < comps.len() && 0 <= j < comps[k].len() && #[trigger] comps[k][j] == a;
            let (k2, j2) = choose|k: int, j: int| 0 <= k < comps.len() && 0 <= j < comps[k].len() && #[trigger] comps[k][j] == b;
            if mutually_reachable(edges, a, b) {
                assert(k1 == k2);
                assert(j1 != j2);
                assert(comps[k1].len() > 1);
                comps.lemma_filter_contains(is_cyclic_component(), k1);
            }
        }
    }
}

/// The identifiers of the first `k` nodes with no edge into them
/// (`incoming`) or out of them, in index order.
pub open spec fn unconnected(nodes: Seq<u128>, edges: Seq<(usize, usize, u64)>, incoming: bool, k: nat) -> Seq<u128>
    decreases k,
{
    if k == 0 {
        Seq::empty()
    } else {
        let rest = unconnected(nodes, edges, incoming, (k - 1) as nat);
        if touches(edges, (k - 1) as usize, incoming) {
            rest
        } else {
            rest.push(nodes[k - 1])
        }
    }
}

/// A walk of two or more edges without its first edge is still a walk.
proof fn lemma_walk_suffix(edges: Seq<(usize, usize, u64)>, w: Seq<int>)
    requires
        is_walk(edges, w),
        w.len() > 1,
    ensures
        is_walk(edges, w.skip(1)),
        edges[w[0]].1 == edges[w.skip(1)[0]].0,
        w.skip(1).last() == w.last(),
{
    let s = w.skip(1);
    assert forall|i: int| 0 <= i < s.len() - 1 implies #[trigger] joins(edges, s, i) by {
        assert(joins(edges, w, i + 1));
    }
    assert forall|i: int| 0 <= i < s.len() implies 0 <= #[trigger] s[i] < edges.len() by {
        assert(s[i] == w[i + 1]);
    }
    assert(joins(edges, w, 0));
}

/// Two walks, the second starting where the first ends, make one walk.
proof fn lemma_walk_concat(edges: Seq<(usize, usize, u64)>, p: Seq<int>, q: Seq<int>)
    requires
        is_walk(edges, p),
        is_walk(edges, q),
        p.len() > 0,
        q.len() > 0,
        edges[p.last()].1 == edges[q[0]].0,
    ensures
        is_walk(edges, p + q),
{
    let w = p + q;
    assert forall|i: int| 0 <= i < w.len() - 1 implies #[trigger] joins(edges, w, i) by {
        if i < p.len() - 1 {
            assert(joins(edges, p, i));
        } else if i >= p.len() {
            assert(joins(edges, q, i - p.len()));
        }
    }
    assert forall|i: int| 0 <= i < w.len() implies 0 <= #[trigger] w[i] < edges.len() by {
        if i < p.len() {
            assert(w[i] == p[i]);
        } else {
            assert(w[i] == q[i - p.len()]);
        }
    }
}

/// No edge runs from a node to itself.
pub open spec fn no_self_loops(edges: Seq<(usize, usize, u64)>) -> bool {
    forall|e: int| 0 <= e < edges.len() ==> #[trigger] edges[e].0 != edges[e].1
}

/// Where no relationship runs from a node to itself, the graph has no pair of
/// mutually dependent nodes exactly when it holds no cycle, so
/// [`DependencyGraph::is_acyclic`] holds exactly when
/// [`DependencyGraph::critical_path_ms`] is defined.
pub proof fn law_acyclic_exactly_when_critical_path_defined(g: GraphV)
    requires
        edges_within(g.nodes.len(), g.edges),
        no_self_loops(g.edges),
    ensures
        free_of_mutual_dependency(g.nodes.len(), g.edges) <==> !has_cycle(g.edges),
{
    let edges = g.edges;
    let n = g.nodes.len();
    if has_cycle(edges) {
        let w = choose|w: Seq<int>| #[trigger] is_walk(edges, w) && w.len() > 0 && edges[w[0]].0 == edges[w.last()].1;
        assert(0 <= w[0] < edges.len());
        let a = edges[w[0]].0;
        let b = edges[w[0]].1;
        assert(a != b);
        assert(a < n && b < n);
        assert(w.len() > 1) by {
            if w.len() == 1 {
                assert(w.last() == w[0]);
            }
        }
        let first = seq![w[0]];
        assert(is_walk(edges, first)) by {
            assert forall|i: int| 0 <= i < first.len() implies 0 <= #[trigger] first[i] < edges.len() by {}
        }
        assert(first.last() == w[0]);
        assert(reaches(edges, a as int, b as int));
        lemma_walk_suffix(edges, w);
        assert(reaches(edges, b as int, a as int));
        assert(mutually_reachable(edges, a as int, b as int));
    }
    if !free_of_mutual_dependency(n, edges) {
        let (a, b) = choose|a: int, b: int| 0 <= a < n && 0 <= b < n && a != b && #[trigger] mutually_reachable(edges, a, b);
        let p = choose|w: Seq<int>| #[trigger] is_walk(edges, w) && w.len() > 0 && edges[w[0]].0 == a && edges[w.last()].1 == b;
        let q = choose|w: Seq<int>| #[trigger] is_walk(edges, w) && w.len() > 0 && edges[w[0]].0 == b && edges[w.last()].1 == a;
        lemma_walk_concat(edges, p, q);
        let w = p + q;
        assert(w[0] == p[0]);
        assert(w.last() == q.last());
        assert(is_walk(edges, w) && w.len() > 0 && edges[w[0]].0 == edges[w.last()].1);
    }
}

/// Every dependency cycle group has at least two members.
proof fn lemma_cycle_groups_are_pairs(nodes: Seq<u128>, comps: Seq<Seq<usize>>)
    ensures
        forall|k: int| 0 <= k < cycle_groups(nodes, comps).len() ==> #[trigger] cycle_groups(nodes, comps)[k].len() >= 2,
{
    broadcast use vstd::seq_lib::group_filter_ensures;
    broadcast use vstd::seq_lib::group_to_multiset_ensures;

    let f = comps.filter(is_cyclic_component());
    let m = f.map_values(group_maker(nodes));
    lemma_lex_order_total();
    m.lemma_sort_by_ensures(lex_order());
    let sorted = m.sort_by(lex_order());
    assert forall|k: int| 0 <= k < sorted.len() implies #[trigger] sorted[k].len() >= 2 by {
        assert(sorted.contains(sorted[k]));
        assert(sorted.to_multiset().contains(sorted[k]));
        assert(m.contains(sorted[k]));
        let i = choose|i: int| 0 <= i < m.len() && m[i] == sorted[k];
        assert(is_cyclic_component()(f[i]));
        let c = f[i];
        lemma_id_order_total();
        c.map_values(node_at(nodes)).lemma_sort_by_ensures(id_order());
        assert(group_of(nodes, c).to_multiset().len() == c.map_values(node_at(nodes)).to_multiset().len());
    }
}

/// The index of the last node carrying `id`, if any.
pub open spec fn last_index(ids: Seq<u128>, id: u128) -> Option<usize>
    decreases ids.len(),
{
    if ids.len() == 0 {
        None
    } else if ids.last() == id {
        Some((ids.len() - 1) as usize)
    } else {
        last_index(ids.drop_last(), id)
    }
}

/// The graph edge a relationship contributes: none unless it can form a
/// dependency cycle and both endpoints are nodes of the graph; its weight is
/// the budget, or 0 when none was declared.
pub open spec fn edge_of(ids: Seq<u128>, r: RelationshipV) -> Seq<(usize, usize, u64)> {
    match (last_index(ids, r.source.0), last_index(ids, r.target.0)) {
        (Some(s), Some(t)) => if blocking(r.relationship_type) {
            seq![(s, t, match r.latency_budget_ms {
                Some(b) => b,
                None => 0u64,
            })]
        } else {
            Seq::empty()
        },
        _ => Seq::empty(),
    }
}

/// The edges of the dependency graph of `rels` over nodes `ids`, in order.
pub open spec fn dependency_edges(ids: Seq<u128>, rels: Seq<RelationshipV>) -> Seq<(usize, usize, u64)>
    decreases rels.len(),
{
    if rels.len() == 0 {
        Seq::empty()
    } else {
        dependency_edges(ids, rels.drop_last()) + edge_of(ids, rels.last())
    }
}

/// Every dependency edge joins two nodes of the graph, and there are no more
/// of them than relationships.
proof fn lemma_dependency_edges(ids: Seq<u128>, rels: Seq<RelationshipV>)
    requires
        ids.len() <= usize::MAX,
    ensures
        dependency_edges(ids, rels).len() <= rels.len(),
        forall|i: int| 0 <= i < dependency_edges(ids, rels).len() ==> #[trigger] dependency_edges(ids, rels)[i].0 < ids.len() && dependency_edges(ids, rels)[i].1 < ids.len(),
    decreases rels.len(),
{
    if rels.len() > 0 {
        lemma_dependency_edges(ids, rels.drop_last());
        let r = rels.last();
        lemma_last_index(ids, r.source.0);
        lemma_last_index(ids, r.target.0);
    }
}

/// The last index of `id` holds `id`; where there is none, no element is
/// `id`.
proof fn lemma_last_index(ids: Seq<u128>, id: u128)
    requires
        ids.len() <= usize::MAX,
    ensures
        last_index(ids, id) matches Some(i) ==> i < ids.len() && ids[i as int] == id,
        last_index(ids, id) is None ==> forall|i: int| 0 <= i < ids.len() ==> ids[i] != id,
    decreases ids.len(),
{
    if ids.len() > 0 && ids.last() != id {
        let rest = ids.drop_last();
        lemma_last_index(rest, id);
        assert forall|i: int| 0 <= i < rest.len() implies rest[i] == ids[i] by {}
        if last_index(rest, id) is None {
            assert forall|i: int| 0 <= i < ids.len() implies ids[i] != id by {
                if i < rest.len() {
                    assert(rest[i] == ids[i]);
                }
            }
        }
    }
}

/// The model of a [`DependencyGraph`].
pub struct GraphV {
    pub nodes: Seq<u128>,
    pub edges: Seq<(usize, usize, u64)>,
}

/// A dependency graph derived from an architecture's blocking relationships.
pub struct DependencyGraph {
    graph: DiGraph<NodeId, u64>,
    ids: Vec<NodeId>,
}

impl View for DependencyGraph {
    type V = GraphV;

    closed spec fn view(&self) -> GraphV {
        GraphV { nodes: graph_nodes(self.graph), edges: graph_edges(self.graph) }
    }
}

/// The raw identifiers of a sequence of nodes.
pub open spec fn node_ids(nodes: Seq<NodeV>) -> Seq<u128> {
    nodes.map_values(|n: NodeV| n.id.0)
}

/// The raw identifiers of a sequence of node ids.
pub open spec fn raw_ids(ids: Seq<NodeId>) -> Seq<u128> {
    ids.map_values(|n: NodeId| n.0)
}

impl DependencyGraph {
    #[verifier::type_invariant]
    closed spec fn mirrors(self) -> bool {
        &&& raw_ids(self.ids@) == graph_nodes(self.graph)
        &&& edges_within(graph_nodes(self.graph).len(), graph_edges(self.graph))
    }

    /// Builds the blocking-dependency graph of `architecture`: every node is
    /// included, so an isolated node still appears; only relationships that
    /// can form a cycle become edges, weighted by their latency budget or 0
    /// when none was declared.
    pub fn build(architecture: &Architecture) -> (g: Self)
        requires
            architecture@.nodes.len() < u32::MAX,
            architecture@.relationships.len() < u32::MAX,
        ensures
            g@.nodes == node_ids(architecture@.nodes),
            g@.edges == dependency_edges(node_ids(architecture@.nodes), architecture@.relationships),
            edges_within(g@.nodes.len(), g@.edges),
    {
        let ghost nodes = architecture@.nodes;
        let ghost rels = architecture@.relationships;
        let mut graph = graph_new();
        let mut ids: Vec<NodeId> = Vec::new();
        let mut i: usize = 0;
        while i < architecture.nodes.len()
            invariant
                i <= nodes.len() < u32::MAX,
                nodes == architecture@.nodes,
                raw_ids(ids@) == graph_nodes(graph),
                raw_ids(ids@) == node_ids(nodes.take(i as int)),
                graph_edges(graph) == Seq::<(usize, usize, u64)>::empty(),
            decreases nodes.len() - i,
        {
            let ghost before = ids@;
            let id = architecture.nodes[i].id;
            assert(id == nodes[i as int].id);
            graph_add_node(&mut graph, id);
            ids.push(id);
            assert(raw_ids(ids@) =~= raw_ids(before).push(id.0));
            assert(node_ids(nodes.take(i + 1)) =~= node_ids(nodes.take(i as int)).push(id.0));
            i = i + 1;
        }
        assert(nodes.take(i as int) =~= nodes);
        let ghost all = node_ids(nodes);
        let mut k: usize = 0;
        while k < architecture.relationships.len()
            invariant
                k <= rels.len() < u32::MAX,
                rels == architecture@.relationships,
                all == node_ids(nodes),
                all.len() == nodes.len() < u32::MAX,
                raw_ids(ids@) == all,
                graph_nodes(graph) == all,
                graph_edges(graph) == dependency_edges(all, rels.take(k as int)),
            decreases rels.len() - k,
        {
            let r = &architecture.relationships[k];
            assert(r@ == rels[k as int]);
            proof {
                assert(rels.take(k + 1).drop_last() =~= rels.take(k as int));
                lemma_dependency_edges(all, rels.take(k as int));
            }
            let source = last_index_of(&ids, r.source);
            let target = last_index_of(&ids, r.target);
            proof {
                lemma_last_index(all, r.source.0);
                lemma_last_index(all, r.target.0);
            }
            if let (Some(s), Some(t)) = (source, target) {
                if r.relationship_type.forms_dependency_cycle() {
                    let weight = match r.latency_budget_ms {
                        Some(b) => b,
                        None => 0,
                    };
                    graph_add_edge(&mut graph, s, t, weight);
                }
            }
            k = k + 1;
        }
        assert(rels.take(k as int) =~= rels);
        proof {
            lemma_dependency_edges(all, rels);
        }
        DependencyGraph { graph, ids }
    }

    /// The highest total latency budget along any blocking path: the
    /// architecture's critical path, assuming every hop consumes its whole
    /// budget, saturating at `u64::MAX`. `None` when the graph holds a cycle,
    /// where the longest path is undefined.
    pub fn critical_path_ms(&self) -> (r: Option<u64>)
        ensures
            r is None <==> has_cycle(self@.edges),
            r matches Some(c) ==> is_critical_path(self@.edges, c),
            r == critical_path_of(self@.edges),
    {
        proof {
            use_type_invariant(self);
        }
        let ghost n = self@.nodes.len();
        let ghost edges = self@.edges;
        let order = match graph_toposort(&self.graph) {
            Some(order) => order,
            None => {
                return None;
            },
        };
        proof {
            lemma_topological_acyclic(n, edges, order@);
        }
        let count = self.ids.len();
        assert(raw_ids(self.ids@).len() == self.ids@.len());
        let mut longest: Vec<u64> = Vec::new();
        let mut v: usize = 0;
        while v < count
            invariant
                v <= count,
                longest@.len() == v,
                forall|k: int| 0 <= k < v ==> longest@[k] == 0,
            decreases count - v,
        {
            longest.push(0);
            v = v + 1;
        }
        let mut i: usize = 0;
        while i < order.len()
            invariant
                n == count,
                edges == graph_edges(self.graph),
                n == graph_nodes(self.graph).len(),
                topological(n, edges, order@),
                edges_within(n, edges),
                longest@.len() == n,
                i <= order@.len(),
                bounded_into(edges, longest@, order@, i as int),
                settled(edges, longest@, order@, i as int),
                forall|v: int| 0 <= v < n ==> #[trigger] witnessed(edges, longest@, v),
            decreases order@.len() - i,
        {
            let x = order[i];
            proof {
                lemma_settle(n, edges, order@, i as int, longest@);
            }
            let outs = graph_edges_from(&self.graph, x);
            let ghost before = longest@;
            proof {
                broadcast use vstd::seq_lib::group_to_multiset_ensures;

                assert forall|j: int| 0 <= j < outs@.len() implies (#[trigger] outs@[j]).0 < n by {
                    assert(outs@.contains(outs@[j]));
                    assert(outs@.to_multiset().contains(outs@[j]));
                    lemma_edge_out_rev(edges, x, outs@[j].0, outs@[j].1);
                    let e = choose|e: int| 0 <= e < edges.len() && #[trigger] edges[e] == (x, outs@[j].0, outs@[j].1);
                }
            }
            let mut k: usize = 0;
            while k < outs.len()
                invariant
                    n == count,
                    edges == graph_edges(self.graph),
                    topological(n, edges, order@),
                    edges_within(n, edges),
                    i < order@.len(),
                    x == order@[i as int],
                    x < n,
                    outs@.to_multiset() == edges_from(edges, x),
                    before.len() == n,
                    longest@.len() == n,
                    k <= outs@.len(),
                    forall|v: int| 0 <= v < n ==> before[v] <= #[trigger] longest@[v],
                    longest@[x as int] == before[x as int],
                    forall|j: int| 0 <= j < outs@.len() ==> (#[trigger] outs@[j]).0 < n,
                    forall|v: int| 0 <= v < n ==> #[trigger] witnessed(edges, longest@, v),
                    forall|w: Seq<int>|
                        #[trigger] is_walk(edges, w) && w.len() > 0 && edges[w.last()].1 == x ==> capped(walk_cost(edges, w) as int) <= before[x as int],
                    forall|j: int| 0 <= j < k ==> capped(before[x as int] + #[trigger] outs@[j].1) <= longest@[outs@[j].0 as int],
                decreases outs@.len() - k,
            {
                let (t, weight) = outs[k];
                let ghost e: int;
                proof {
                    broadcast use vstd::seq_lib::group_to_multiset_ensures;

                    assert(outs@.contains(outs@[k as int]));
                    assert(outs@.to_multiset().contains((t, weight)));
                    lemma_edge_out_rev(edges, x, t, weight);
                    e = choose|e: int| 0 <= e < edges.len() && #[trigger] edges[e] == (x, t, weight);
                    assert(t < n);
                    assert(listed(order@, t as int));
                    let a = choose|a: int| 0 <= a < order@.len() && #[trigger] order@[a] == t;
                    assert(i < a);
                }
                let candidate = longest[x].saturating_add(weight);
                assert(candidate == capped(before[x as int] + weight));
                let ghost previous = longest@;
                if candidate > longest[t] {
                    let ghost updated = longest@.update(t as int, candidate);
                    proof {
                        assert forall|v: int| 0 <= v < n implies #[trigger] witnessed(edges, updated, v) by {
                            if v == t {
                                if before[x as int] == 0 {
                                    let w = seq![e];
                                    lemma_walk_extend(edges, Seq::<int>::empty(), e);
                                    assert(Seq::<int>::empty().push(e) =~= w);
                                    assert(is_walk(edges, w) && w.len() > 0 && edges[w.last()].1 == v && capped(walk_cost(edges, w) as int) == updated[v]);
                                } else {
                                    assert(witnessed(edges, longest@, x as int));
                                    let p = choose|p: Seq<int>|
                                        #[trigger] is_walk(edges, p) && p.len() > 0 && edges[p.last()].1 == x && capped(walk_cost(edges, p) as int) == longest@[x as int];
                                    lemma_walk_extend(edges, p, e);
                                    let w = p.push(e);
                                    lemma_capped(walk_cost(edges, p) as int, weight as int, 0);
                                    assert(is_walk(edges, w) && w.len() > 0 && edges[w.last()].1 == v && capped(walk_cost(edges, w) as int) == updated[v]);
                                }
                            } else {
                                assert(witnessed(edges, longest@, v));
                            }
                        }
                    }
                    longest.set(t, candidate);
                    assert(longest@ == updated);
                }
                proof {
                    assert(capped(before[x as int] + weight) <= longest@[t as int]);
                    assert forall|j: int| 0 <= j < k + 1 implies capped(before[x as int] + #[trigger] outs@[j].1) <= longest@[outs@[j].0 as int] by {
                        if j < k {
                            assert(outs@[j].0 < n);
                            assert(capped(before[x as int] + outs@[j].1) <= previous[outs@[j].0 as int]);
                            assert(previous[outs@[j].0 as int] <= longest@[outs@[j].0 as int]);
                        }
                    }
                }
                k = k + 1;
            }
            proof {
                broadcast use vstd::seq_lib::group_to_multiset_ensures;

                assert forall|e: int|
                    0 <= e < edges.len() && #[trigger] edges[e].0 == order@[i as int] implies capped(before[x as int] + edges[e].2) <= longest@[edges[e].1 as int] by {
                    lemma_edge_out(edges, x, e);
                    assert(outs@.to_multiset().contains((edges[e].1, edges[e].2)));
                    assert(outs@.contains((edges[e].1, edges[e].2)));
                    let j = choose|j: int| 0 <= j < outs@.len() && outs@[j] == (edges[e].1, edges[e].2);
                    assert(capped(before[x as int] + outs@[j].1) <= longest@[outs@[j].0 as int]);
                }
                lemma_relaxed(n, edges, order@, i as int, before, longest@);
            }
            i = i + 1;
        }
        let mut best: u64 = 0;
        let mut v: usize = 0;
        while v < count
            invariant
                n == count,
                longest@.len() == n,
                v <= count,
                forall|k: int| 0 <= k < v ==> #[trigger] longest@[k] <= best,
                best == 0 || exists|k: int| 0 <= k < v && #[trigger] longest@[k] == best,
            decreases count - v,
        {
            if longest[v] > best {
                best = longest[v];
            }
            v = v + 1;
        }
        proof {
            assert forall|w: Seq<int>| #[trigger] is_walk(edges, w) implies capped(walk_cost(edges, w) as int) <= best by {
                if w.len() > 0 {
                    let e = w[w.len() - 1];
                    assert(0 <= e < edges.len());
                    let t = edges[e].1;
                    assert(t < n);
                    assert(listed(order@, t as int));
                    let j = choose|j: int| 0 <= j < order@.len() && #[trigger] order@[j] == t;
                    assert(processed(order@, order@.len() as int, t as int));
                    assert(longest@[t as int] <= best);
                }
            }
            if best == 0 {
                let w = Seq::<int>::empty();
                assert(is_walk(edges, w) && capped(walk_cost(edges, w) as int) == best);
            } else {
                let k = choose|k: int| 0 <= k < n && #[trigger] longest@[k] == best;
                assert(witnessed(edges, longest@, k));
            }
            assert(is_critical_path(edges, best));
            let chosen = choose|c: u64| is_critical_path(edges, c);
            lemma_critical_path_unique(edges, chosen, best);
        }
        Some(best)
    }

    /// Every set of nodes that mutually depend on each other: each group has
    /// at least two members and is a genuine cycle, its identifiers in
    /// ascending order, and the groups in lexicographic order, so the output
    /// is deterministic.
    pub fn cycles(&self) -> (r: Vec<Vec<NodeId>>)
        ensures
            group_ids(r@) == cycle_groups(self@.nodes, tarjan_components(self@.nodes.len(), self@.edges)),
            r@.len() == 0 <==> free_of_mutual_dependency(self@.nodes.len(), self@.edges),
            forall|k: int| 0 <= k < r@.len() ==> #[trigger] group_ids(r@)[k].len() >= 2,
    {
        proof {
            use_type_invariant(self);
            lemma_lex_order_total();
            lemma_id_order_total();
        }
        let ghost nodes = self@.nodes;
        let ghost n = nodes.len();
        let ghost edges = self@.edges;
        let comps = graph_components(&self.graph);
        let ghost cv = component_views(comps@);
        let ghost pred = is_cyclic_component();
        let ghost make = group_maker(nodes);
        assert(raw_ids(self.ids@).len() == self.ids@.len());
        let mut groups: Vec<Vec<NodeId>> = Vec::new();
        assert(group_ids(groups@) =~= cv.take(0).filter(pred).map_values(make));
        let mut k: usize = 0;
        while k < comps.len()
            invariant
                k <= comps@.len(),
                cv == component_views(comps@),
                is_scc_partition(n, edges, cv),
                nodes == raw_ids(self.ids@),
                n == self.ids@.len(),
                pred == is_cyclic_component(),
                make == group_maker(nodes),
                sorted_by(group_ids(groups@), lex_order()),
                group_ids(groups@).to_multiset() == cv.take(k as int).filter(pred).map_values(make).to_multiset(),
            decreases comps@.len() - k,
        {
            let ghost c = cv[k as int];
            proof {
                broadcast use vstd::seq_lib::group_to_multiset_ensures;

                assert(cv.take(k + 1) =~= cv.take(k as int).push(c));
                cv.take(k as int).lemma_filter_push(c, pred);
            }
            assert(comps@[k as int]@ == c);
            if comps[k].len() > 1 {
                let mut ids: Vec<NodeId> = Vec::new();
                let mut j: usize = 0;
                while j < comps[k].len()
                    invariant
                        k < comps@.len(),
                        j <= comps@[k as int]@.len(),
                        comps@[k as int]@ == c,
                        cv == component_views(comps@),
                        is_scc_partition(n, edges, cv),
                        nodes == raw_ids(self.ids@),
                        n == self.ids@.len(),
                        raw_ids(ids@) == c.take(j as int).map_values(node_at(nodes)),
                        ids@.len() == j,
                    decreases comps@[k as int]@.len() - j,
                {
                    let index = comps[k][j];
                    assert(cv[k as int][j as int] == index);
                    assert(index < n);
                    let id = self.ids[index];
                    let ghost before = ids@;
                    ids.push(id);
                    proof {
                        assert(nodes[index as int] == id.0);
                        assert(c[j as int] == index);
                        let target = c.take(j + 1).map_values(node_at(nodes));
                        assert forall|q: int| 0 <= q < j + 1 implies #[trigger] raw_ids(ids@)[q] == target[q] by {
                            if q < j {
                                assert(raw_ids(before)[q] == c.take(j as int).map_values(node_at(nodes))[q]);
                                assert(ids@[q] == before[q]);
                            }
                        }
                        assert(raw_ids(ids@) =~= target);
                    }
                    j = j + 1;
                }
                assert(c.take(j as int) =~= c);
                let sorted = sort_node_ids(&ids);
                assert(raw_ids(sorted@) == make(c));
                let ghost old_groups = group_ids(groups@);
                insert_group(&mut groups, sorted);
                proof {
                    broadcast use vstd::seq_lib::group_to_multiset_ensures;

                    let prev = cv.take(k as int).filter(pred);
                    assert(prev.push(c).map_values(make) =~= prev.map_values(make).push(make(c)));
                }
            } else {
                proof {
                    assert(!pred(c));
                }
            }
            k = k + 1;
        }
        proof {
            let all = cv.filter(pred).map_values(make);
            assert(cv.take(k as int) =~= cv);
            all.lemma_sort_by_ensures(lex_order());
            vstd::seq_lib::lemma_sorted_unique(group_ids(groups@), all.sort_by(lex_order()), lex_order());
            lemma_no_cycle_groups(n, edges, nodes, cv);
            assert(group_ids(groups@).len() == groups@.len());
            lemma_cycle_groups_are_pairs(nodes, cv);
        }
        groups
    }

    /// Whether the blocking dependency structure has no dependency cycle:
    /// no two distinct nodes depend on each other (a relationship from a node
    /// to itself forms no group, and so no cycle here).
    pub fn is_acyclic(&self) -> (b: bool)
        ensures
            b == free_of_mutual_dependency(self@.nodes.len(), self@.edges),
    {
        let groups = self.cycles();
        groups.len() == 0
    }

    /// The nodes nothing depends on, the entry points of the architecture,
    /// in ascending identifier order.
    pub fn roots(&self) -> (r: Vec<NodeId>)
        ensures
            raw_ids(r@) == unconnected(self@.nodes, self@.edges, true, self@.nodes.len()).sort_by(id_order()),
    {
        self.unlinked(true)
    }

    /// The nodes that depend on nothing, the leaves of the architecture, in
    /// ascending identifier order.
    pub fn leaves(&self) -> (r: Vec<NodeId>)
        ensures
            raw_ids(r@) == unconnected(self@.nodes, self@.edges, false, self@.nodes.len()).sort_by(id_order()),
    {
        self.unlinked(false)
    }

    /// The nodes with no edge into them (`incoming`) or out of them, in
    /// ascending identifier order.
    fn unlinked(&self, incoming: bool) -> (r: Vec<NodeId>)
        ensures
            raw_ids(r@) == unconnected(self@.nodes, self@.edges, incoming, self@.nodes.len()).sort_by(id_order()),
    {
        proof {
            use_type_invariant(self);
        }
        let ghost nodes = self@.nodes;
        assert(raw_ids(self.ids@).len() == self.ids@.len());
        let mut found: Vec<NodeId> = Vec::new();
        assert(raw_ids(found@) =~= unconnected(nodes, self@.edges, incoming, 0));
        let mut i: usize = 0;
        while i < self.ids.len()
            invariant
                i <= self.ids@.len(),
                nodes == raw_ids(self.ids@),
                nodes == self@.nodes,
                raw_ids(found@) == unconnected(nodes, self@.edges, incoming, i as nat),
            decreases self.ids@.len() - i,
        {
            if !graph_has_neighbor(&self.graph, i, incoming) {
                let ghost before = found@;
                found.push(self.ids[i]);
                assert(raw_ids(found@) =~= raw_ids(before).push(nodes[i as int]));
            }
            i = i + 1;
        }
        sort_node_ids(&found)
    }

    /// Whether `id` is a node of the graph.
    pub fn contains(&self, id: NodeId) -> (b: bool)
        ensures
            b == self@.nodes.contains(id.0),
    {
        proof {
            use_type_invariant(self);
        }
        let mut i: usize = 0;
        while i < self.ids.len()
            invariant
                i <= self.ids.len(),
                raw_ids(self.ids@) == self@.nodes,
                forall|j: int| 0 <= j < i ==> self@.nodes[j] != id.0,
            decreases self.ids.len() - i,
        {
            assert(self@.nodes[i as int] == self.ids@[i as int].0);
            if self.ids[i].0 == id.0 {
                return true;
            }
            i = i + 1;
        }
        false
    }
}

/// The index of the last node carrying `id`.
fn last_index_of(ids: &Vec<NodeId>, id: NodeId) -> (r: Option<usize>)
    ensures
        r == last_index(raw_ids(ids@), id.0),
{
    let ghost all = raw_ids(ids@);
    let mut n = ids.len();
    assert(all.take(n as int) =~= all);
    while n > 0
        invariant
            n <= ids.len(),
            all == raw_ids(ids@),
            last_index(all, id.0) == last_index(all.take(n as int), id.0),
        decreases n,
    {
        assert(all.take(n as int).drop_last() =~= all.take(n - 1));
        assert(all.take(n as int).last() == ids@[n - 1].0);
        if ids[n - 1].0 == id.0 {
            return Some(n - 1);
        }
        n = n - 1;
    }
    None
}

/// The sum of the declared budgets of the blocking relationships leaving
/// `id`, saturating.
pub open spec fn blocking_budget(rels: Seq<RelationshipV>, id: NodeId) -> u64
    decreases rels.len(),
{
    if rels.len() == 0 {
        0
    } else {
        let r = rels.last();
        let rest = blocking_budget(rels.drop_last(), id);
        match r.latency_budget_ms {
            Some(b) => if r.source == id && blocking(r.relationship_type) {
                if rest + b > u64::MAX {
                    u64::MAX
                } else {
                    (rest + b) as u64
                }
            } else {
                rest
            },
            None => rest,
        }
    }
}

/// Sums the latency budgets of every blocking relationship leaving `id`,
/// saturating at `u64::MAX`.
pub fn blocking_budget_out_of(architecture: &Architecture, id: NodeId) -> (n: u64)
    ensures
        n == blocking_budget(architecture@.relationships, id),
{
    let ghost rels = architecture@.relationships;
    let mut total: u64 = 0;
    let mut i: usize = 0;
    while i < architecture.relationships.len()
        invariant
            i <= rels.len(),
            rels == architecture@.relationships,
            total == blocking_budget(rels.take(i as int), id),
        decreases rels.len() - i,
    {
        assert(rels.take(i + 1).drop_last() =~= rels.take(i as int));
        let r = &architecture.relationships[i];
        assert(r@ == rels[i as int]);
        if r.source == id && r.relationship_type.is_blocking() {
            if let Some(b) = r.latency_budget_ms {
                total = total.saturating_add(b);
            }
        }
        i = i + 1;
    }
    assert(rels.take(i as int) =~= rels);
    total
}

/// The latency budget a relationship declares, 0 when it declares none.
pub open spec fn declared_budget(r: RelationshipV) -> u64 {
    match r.latency_budget_ms {
        Some(b) => b,
        None => 0,
    }
}

/// Whether a relationship type blocks its caller: sync, depends-on,
/// composed and quantum-entangled do; async and event-driven do not.
pub open spec fn blocks_caller(t: RelationshipType) -> bool {
    t == RelationshipType::Sync || t == RelationshipType::DependsOn || t == RelationshipType::Composed || t
        == RelationshipType::QuantumEntangled
}

/// Every blocking relationship between two nodes of the graph becomes an
/// edge between them weighted by its declared latency budget, whatever its
/// blocking type: the critical path sums declared budgets, a depends-on hop
/// as much as a sync one.
pub proof fn law_blocking_relationships_weigh_their_budget(ids: Seq<u128>, rels: Seq<RelationshipV>, i: int)
    requires
        0 <= i < rels.len(),
        blocks_caller(rels[i].relationship_type),
        last_index(ids, rels[i].source.0) is Some,
        last_index(ids, rels[i].target.0) is Some,
    ensures
        dependency_edges(ids, rels).contains(
            (
                last_index(ids, rels[i].source.0).unwrap(),
                last_index(ids, rels[i].target.0).unwrap(),
                declared_budget(rels[i]),
            ),
        ),
    decreases rels.len(),
{
    let e = (last_index(ids, rels[i].source.0).unwrap(), last_index(ids, rels[i].target.0).unwrap(), declared_budget(rels[i]));
    let before = dependency_edges(ids, rels.drop_last());
    let last = edge_of(ids, rels.last());
    if i == rels.len() - 1 {
        assert(last =~= seq![e]);
        assert((before + last)[before.len() as int] == e);
    } else {
        assert(rels.drop_last()[i] == rels[i]);
        law_blocking_relationships_weigh_their_budget(ids, rels.drop_last(), i);
        let j = choose|j: int| 0 <= j < before.len() && before[j] == e;
        assert((before + last)[j] == e);
    }
}

/// Every edge of the graph is one blocking relationship between two of its
/// nodes, weighted by that relationship's declared budget: non-blocking
/// relationships contribute nothing, and no weight is invented.
pub proof fn law_every_edge_is_a_blocking_relationship(ids: Seq<u128>, rels: Seq<RelationshipV>, k: int)
    requires
        0 <= k < dependency_edges(ids, rels).len(),
    ensures
        exists|i: int|
            0 <= i < rels.len() && blocks_caller((#[trigger] rels[i]).relationship_type) && last_index(ids, rels[i].source.0)
                == Some(dependency_edges(ids, rels)[k].0) && last_index(ids, rels[i].target.0) == Some(
                dependency_edges(ids, rels)[k].1,
            ) && dependency_edges(ids, rels)[k].2 == declared_budget(rels[i]),
    decreases rels.len(),
{
    let before = dependency_edges(ids, rels.drop_last());
    let last = edge_of(ids, rels.last());
    let j = rels.len() - 1;
    if k < before.len() {
        law_every_edge_is_a_blocking_relationship(ids, rels.drop_last(), k);
        let i = choose|i: int|
            0 <= i < rels.drop_last().len() && blocks_caller((#[trigger] rels.drop_last()[i]).relationship_type)
                && last_index(ids, rels.drop_last()[i].source.0) == Some(before[k].0) && last_index(
                ids,
                rels.drop_last()[i].target.0,
            ) == Some(before[k].1) && before[k].2 == declared_budget(rels.drop_last()[i]);
        assert(rels[i] == rels.drop_last()[i]);
        assert((before + last)[k] == before[k]);
    } else {
        assert((before + last)[k] == last[k - before.len()]);
        assert(rels[j] == rels.last());
    }
}

} // verus!
