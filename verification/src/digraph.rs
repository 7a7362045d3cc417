//! Directed graphs of `petgraph`, with their nodes numbered in insertion
//! order and no data on nodes or edges: the library keeps what a node or
//! an edge stands for in vectors of its own, at the same positions.

use vstd::prelude::*;

verus! {

/// `petgraph`'s adjacency-list graph.
#[verifier::external_type_specification]
#[verifier::external_body]
#[verifier::reject_recursive_types(N)]
#[verifier::reject_recursive_types(E)]
#[verifier::reject_recursive_types(Ty)]
#[verifier::reject_recursive_types(Ix)]
pub struct ExGraph<N, E, Ty, Ix>(petgraph::graph::Graph<N, E, Ty, Ix>);

/// `petgraph`'s marker for directed edges.
#[verifier::external_type_specification]
#[verifier::external_body]
pub struct ExDirected(petgraph::Directed);

/// The number of nodes of a graph; its nodes are `0 .. digraph_size(g)`.
pub uninterp spec fn digraph_size(g: petgraph::graph::DiGraph<(), ()>) -> nat;

/// The edges of a graph, as pairs of node numbers, in the order they were
/// added.
pub uninterp spec fn digraph_edges(g: petgraph::graph::DiGraph<(), ()>) -> Seq<(usize, usize)>;

/// The order `petgraph::algo::toposort` gives the nodes of an acyclic graph.
pub uninterp spec fn petgraph_toposort(size: nat, edges: Seq<(usize, usize)>) -> Seq<usize>;

/// The components, in order, that `petgraph::algo::kosaraju_scc` gives.
pub uninterp spec fn petgraph_scc(size: nat, edges: Seq<(usize, usize)>) -> Seq<Seq<usize>>;

/// Every edge joins two nodes below `size`.
pub open spec fn edges_within(size: nat, edges: Seq<(usize, usize)>) -> bool {
    forall|k: int| 0 <= k < edges.len() ==> (#[trigger] edges[k]).0 < size && edges[k].1 < size
}

/// There is an edge from `a` to `b`.
pub open spec fn has_edge(edges: Seq<(usize, usize)>, a: usize, b: usize) -> bool {
    exists|k: int| 0 <= k < edges.len() && #[trigger] edges[k] == (a, b)
}

/// Each node of `p` has an edge to the next.
pub open spec fn is_walk(edges: Seq<(usize, usize)>, p: Seq<usize>) -> bool {
    forall|k: int| 0 <= k < p.len() - 1 ==> has_edge(edges, #[trigger] p[k], p[k + 1])
}

/// `b` can be reached from `a` along one edge or more.
pub open spec fn reaches(edges: Seq<(usize, usize)>, a: usize, b: usize) -> bool {
    exists|p: Seq<usize>| p.len() >= 2 && p[0] == a && p.last() == b && #[trigger] is_walk(edges, p)
}

/// Some node can be reached from itself (a self-loop counts).
pub open spec fn has_cycle(size: nat, edges: Seq<(usize, usize)>) -> bool {
    exists|v: usize| v < size && #[trigger] reaches(edges, v, v)
}

/// Each of `a` and `b` can be reached from the other, or they are one node.
pub open spec fn mutually_reachable(edges: Seq<(usize, usize)>, a: usize, b: usize) -> bool {
    a == b || (reaches(edges, a, b) && reaches(edges, b, a))
}

/// `order` lists every node once, each before the nodes its edges lead to.
pub open spec fn is_topological_order(size: nat, edges: Seq<(usize, usize)>, order: Seq<usize>) -> bool {
    &&& order.len() == size
    &&& order.no_duplicates()
    &&& forall|k: int| 0 <= k < order.len() ==> #[trigger] order[k] < size
    &&& forall|i: int, j: int|
        0 <= i < order.len() && 0 <= j < order.len() && has_edge(edges, #[trigger] order[i], #[trigger] order[j])
            ==> i < j
}

/// `v` is in one of `comps`.
pub open spec fn in_components(comps: Seq<Seq<usize>>, v: usize) -> bool {
    exists|i: int, k: int| 0 <= i < comps.len() && 0 <= k < comps[i].len() && #[trigger] comps[i][k] == v
}

/// `comps` are the strongly connected components: nonempty lists without
/// repeats that hold each node in exactly one of them, two nodes sharing
/// one exactly when each can be reached from the other.
pub open spec fn is_scc_partition(size: nat, edges: Seq<(usize, usize)>, comps: Seq<Seq<usize>>) -> bool {
    &&& forall|i: int| 0 <= i < comps.len() ==> (#[trigger] comps[i]).len() > 0 && comps[i].no_duplicates()
    &&& forall|i: int, k: int| 0 <= i < comps.len() && 0 <= k < comps[i].len() ==> #[trigger] comps[i][k] < size
    &&& forall|v: usize| v < size ==> #[trigger] in_components(comps, v)
    &&& forall|i: int, k: int, j: int, l: int|
        0 <= i < comps.len() && 0 <= k < comps[i].len() && 0 <= j < comps.len() && 0 <= l < comps[j].len() ==> ((i
            == j) <==> mutually_reachable(edges, #[trigger] comps[i][k], #[trigger] comps[j][l]))
}

/// The nodes the edges from `a` lead to, the most recently added edge first.
pub open spec fn successors(edges: Seq<(usize, usize)>, a: usize) -> Seq<usize>
    decreases edges.len(),
{
    if edges.len() == 0 {
        Seq::empty()
    } else {
        let rest = successors(edges.drop_last(), a);
        if edges.last().0 == a {
            seq![edges.last().1] + rest
        } else {
            rest
        }
    }
}

/// The nodes whose edges lead to `a`, the most recently added edge first.
pub open spec fn predecessors(edges: Seq<(usize, usize)>, a: usize) -> Seq<usize>
    decreases edges.len(),
{
    if edges.len() == 0 {
        Seq::empty()
    } else {
        let rest = predecessors(edges.drop_last(), a);
        if edges.last().1 == a {
            seq![edges.last().0] + rest
        } else {
            rest
        }
    }
}

/// `Graph::new`: a directed graph without nodes or edges.
#[verifier::external_body]
pub(crate) fn digraph_new() -> (g: petgraph::graph::DiGraph<(), ()>)
    ensures
        digraph_size(g) == 0,
        digraph_edges(g) == Seq::<(usize, usize)>::empty(),
{
    petgraph::graph::DiGraph::new()
}

/// `Graph::add_node`: adds a node, numbered after the others, and returns
/// its number. It panics once the graph has `u32::MAX` nodes.
#[verifier::external_body]
pub(crate) fn digraph_add_node(g: &mut petgraph::graph::DiGraph<(), ()>) -> (i: usize)
    requires
        digraph_size(*old(g)) < u32::MAX,
    ensures
        i == digraph_size(*old(g)),
        digraph_size(*final(g)) == digraph_size(*old(g)) + 1,
        digraph_edges(*final(g)) == digraph_edges(*old(g)),
{
    g.add_node(()).index()
}

/// `Graph::add_edge`: adds an edge from `a` to `b` after the others. It
/// panics on a node that does not exist, and once the graph has `u32::MAX`
/// edges.
#[verifier::external_body]
pub(crate) fn digraph_add_edge(g: &mut petgraph::graph::DiGraph<(), ()>, a: usize, b: usize)
    requires
        a < digraph_size(*old(g)),
        b < digraph_size(*old(g)),
        digraph_edges(*old(g)).len() < u32::MAX,
    ensures
        digraph_size(*final(g)) == digraph_size(*old(g)),
        digraph_edges(*final(g)) == digraph_edges(*old(g)).push((a, b)),
{
    g.add_edge(petgraph::graph::NodeIndex::new(a), petgraph::graph::NodeIndex::new(b), ());
}

/// `Graph::edge_endpoints`: the nodes edge `k` joins, if there is an edge
/// `k`.
#[verifier::external_body]
pub(crate) fn digraph_edge_at(g: &petgraph::graph::DiGraph<(), ()>, k: usize) -> (r: Option<(usize, usize)>)
    requires
        k < u32::MAX,
    ensures
        r == if k < digraph_edges(*g).len() {
            Some(digraph_edges(*g)[k as int])
        } else {
            None
        },
{
    match g.edge_endpoints(petgraph::graph::EdgeIndex::new(k)) {
        Some((a, b)) => Some((a.index(), b.index())),
        None => None,
    }
}

/// `petgraph::algo::is_cyclic_directed`: whether the graph has a cycle.
#[verifier::external_body]
pub(crate) fn digraph_is_cyclic(g: &petgraph::graph::DiGraph<(), ()>) -> (r: bool)
    requires
        edges_within(digraph_size(*g), digraph_edges(*g)),
    ensures
        r == has_cycle(digraph_size(*g), digraph_edges(*g)),
{
    petgraph::algo::is_cyclic_directed(g)
}

/// `petgraph::algo::toposort`: a topological order of the nodes, or `None`
/// when the graph has a cycle.
#[verifier::external_body]
pub(crate) fn digraph_toposort(g: &petgraph::graph::DiGraph<(), ()>) -> (r: Option<Vec<usize>>)
    requires
        edges_within(digraph_size(*g), digraph_edges(*g)),
    ensures
        match r {
            Some(order) => {
                &&& !has_cycle(digraph_size(*g), digraph_edges(*g))
                &&& order@ == petgraph_toposort(digraph_size(*g), digraph_edges(*g))
                &&& is_topological_order(digraph_size(*g), digraph_edges(*g), order@)
            },
            None => has_cycle(digraph_size(*g), digraph_edges(*g)),
        },
{
    match petgraph::algo::toposort(g, None) {
        Ok(order) => Some(order.iter().map(|i| i.index()).collect()),
        Err(_) => None,
    }
}

/// `petgraph::algo::kosaraju_scc`: the strongly connected components.
#[verifier::external_body]
pub(crate) fn digraph_scc(g: &petgraph::graph::DiGraph<(), ()>) -> (r: Vec<Vec<usize>>)
    requires
        edges_within(digraph_size(*g), digraph_edges(*g)),
    ensures
        r@.map_values(|c: Vec<usize>| c@) == petgraph_scc(digraph_size(*g), digraph_edges(*g)),
        is_scc_partition(digraph_size(*g), digraph_edges(*g), r@.map_values(|c: Vec<usize>| c@)),
{
    petgraph::algo::kosaraju_scc(g).iter().map(|c| c.iter().map(|i| i.index()).collect()).collect()
}

/// `Graph::neighbors_directed` outgoing: the nodes the edges from `a` lead
/// to, the most recently added edge first.
#[verifier::external_body]
pub(crate) fn digraph_successors(g: &petgraph::graph::DiGraph<(), ()>, a: usize) -> (r: Vec<usize>)
    requires
        a < digraph_size(*g),
    ensures
        r@ == successors(digraph_edges(*g), a),
{
    g.neighbors_directed(petgraph::graph::NodeIndex::new(a), petgraph::Direction::Outgoing).map(|i| i.index()).collect()
}

/// `Graph::neighbors_directed` incoming: the nodes whose edges lead to `a`,
/// the most recently added edge first.
#[verifier::external_body]
pub(crate) fn digraph_predecessors(g: &petgraph::graph::DiGraph<(), ()>, a: usize) -> (r: Vec<usize>)
    requires
        a < digraph_size(*g),
    ensures
        r@ == predecessors(digraph_edges(*g), a),
{
    g.neighbors_directed(petgraph::graph::NodeIndex::new(a), petgraph::Direction::Incoming).map(|i| i.index()).collect()
}

/// The neighbours of a node are nodes.
pub proof fn lemma_neighbors_within(size: nat, edges: Seq<(usize, usize)>, a: usize)
    requires
        edges_within(size, edges),
    ensures
        forall|k: int| 0 <= k < successors(edges, a).len() ==> #[trigger] successors(edges, a)[k] < size,
        forall|k: int| 0 <= k < predecessors(edges, a).len() ==> #[trigger] predecessors(edges, a)[k] < size,
    decreases edges.len(),
{
    if edges.len() > 0 {
        let e = edges.last();
        assert(edges[edges.len() - 1] == e);
        let rest = edges.drop_last();
        assert(edges_within(size, rest)) by {
            assert forall|k: int| 0 <= k < rest.len() implies (#[trigger] rest[k]).0 < size && rest[k].1 < size by {
                assert(rest[k] == edges[k]);
            }
        }
        lemma_neighbors_within(size, rest, a);
        let s = successors(edges, a);
        let s0 = successors(rest, a);
        assert forall|k: int| 0 <= k < s.len() implies #[trigger] s[k] < size by {
            if e.0 == a {
                if k > 0 {
                    assert(s[k] == s0[k - 1]);
                }
            } else {
                assert(s[k] == s0[k]);
            }
        }
        let p = predecessors(edges, a);
        let p0 = predecessors(rest, a);
        assert forall|k: int| 0 <= k < p.len() implies #[trigger] p[k] < size by {
            if e.1 == a {
                if k > 0 {
                    assert(p[k] == p0[k - 1]);
                }
            } else {
                assert(p[k] == p0[k]);
            }
        }
    }
}

/// Walks join: a walk to `b` and a walk from `b` make a walk.
pub proof fn lemma_reaches_transitive(edges: Seq<(usize, usize)>, a: usize, b: usize, c: usize)
    requires
        reaches(edges, a, b),
        reaches(edges, b, c),
    ensures
        reaches(edges, a, c),
{
    let p = choose|p: Seq<usize>| p.len() >= 2 && p[0] == a && p.last() == b && #[trigger] is_walk(edges, p);
    let q = choose|q: Seq<usize>| q.len() >= 2 && q[0] == b && q.last() == c && #[trigger] is_walk(edges, q);
    let w = p + q.drop_first();
    assert forall|k: int| 0 <= k < w.len() - 1 implies has_edge(edges, #[trigger] w[k], w[k + 1]) by {
        if k < p.len() - 1 {
            assert(w[k] == p[k] && w[k + 1] == p[k + 1]);
        } else if k == p.len() - 1 {
            assert(w[k] == q[0] && w[k + 1] == q[1]);
        } else {
            let m = k - p.len() + 1;
            assert(w[k] == q[m] && w[k + 1] == q[m + 1]);
        }
    }
    assert(is_walk(edges, w));
    assert(w.last() == c);
}

/// Two distinct nodes of one strongly connected component lie on a cycle.
pub proof fn lemma_component_cycle(size: nat, edges: Seq<(usize, usize)>, comps: Seq<Seq<usize>>, i: int)
    requires
        is_scc_partition(size, edges, comps),
        0 <= i < comps.len(),
        comps[i].len() > 1,
    ensures
        has_cycle(size, edges),
{
    let x = comps[i][0];
    let y = comps[i][1];
    assert(mutually_reachable(edges, comps[i][0], comps[i][1]));
    assert(x != y);
    lemma_reaches_transitive(edges, x, y, x);
    assert(x < size);
    assert(reaches(edges, x, x));
}

} // verus!
