//! The graphs of systems are petgraph's `StableDiGraph`, whose nodes carry
//! system ids. What a graph holds is named by `graph_nodes` (node index to
//! the id stored there) and `graph_edges` (edge index to its two endpoints);
//! the functions below call petgraph and say what each call does to them.
use vstd::prelude::*;

use petgraph::stable_graph::StableDiGraph;

use crate::graph::cycles::has_cycle;
use crate::types::system_id::SystemId;

verus! {

#[verifier::external_type_specification]
#[verifier::external_body]
#[verifier::reject_recursive_types(N)]
#[verifier::reject_recursive_types(E)]
#[verifier::reject_recursive_types(Ty)]
#[verifier::reject_recursive_types(Ix)]
pub struct ExStableGraph<N, E, Ty, Ix>(petgraph::stable_graph::StableGraph<N, E, Ty, Ix>);

#[verifier::external_type_specification]
#[verifier::external_body]
pub struct ExDirected(petgraph::Directed);

/// The nodes of a graph: each occupied node index with its weight.
pub uninterp spec fn graph_nodes(g: StableDiGraph<SystemId, ()>) -> Map<nat, SystemId>;

/// The edges of a graph: each occupied edge index with its `(from, to)` node
/// indices.
pub uninterp spec fn graph_edges(g: StableDiGraph<SystemId, ()>) -> Map<nat, (nat, nat)>;

/// The edges that run from node `a` to node `b`.
pub open spec fn edges_between(edges: Map<nat, (nat, nat)>, a: nat, b: nat) -> Set<nat> {
    edges.dom().filter(|e: nat| edges[e] == (a, b))
}

/// The edges that run into node `b`.
pub open spec fn edges_into(edges: Map<nat, (nat, nat)>, b: nat) -> Set<nat> {
    edges.dom().filter(|e: nat| edges[e].1 == b)
}

/// `StableGraph::new`: a graph with no node and no edge.
#[verifier::external_body]
pub(crate) fn graph_new() -> (g: StableDiGraph<SystemId, ()>)
    ensures
        graph_nodes(g).dom() == Set::<nat>::empty(),
        graph_edges(g).dom() == Set::<nat>::empty(),
{
    StableDiGraph::new()
}

/// `StableGraph::add_node`: stores `weight` under an index that no node
/// holds, below `u32::MAX` (the index type's end marker), and leaves the edges
/// alone. It panics only when the graph holds `u32::MAX` nodes.
#[verifier::external_body]
pub(crate) fn graph_add_node(g: &mut StableDiGraph<SystemId, ()>, weight: SystemId) -> (i: usize)
    requires
        graph_nodes(*old(g)).len() < u32::MAX,
    ensures
        i < u32::MAX,
        !graph_nodes(*old(g)).contains_key(i as nat),
        graph_nodes(*final(g)) == graph_nodes(*old(g)).insert(i as nat, weight),
        graph_edges(*final(g)) == graph_edges(*old(g)),
{
    g.add_node(weight).index()
}

/// `StableGraph::add_edge`: adds an edge from `a` to `b` under an edge index
/// that no edge holds, below `u32::MAX`; parallel edges are allowed. It panics
/// when `a` or `b` is not a node, or when the graph holds `u32::MAX` edges.
#[verifier::external_body]
pub(crate) fn graph_add_edge(g: &mut StableDiGraph<SystemId, ()>, a: usize, b: usize) -> (e: usize)
    requires
        a < u32::MAX,
        b < u32::MAX,
        graph_nodes(*old(g)).contains_key(a as nat),
        graph_nodes(*old(g)).contains_key(b as nat),
        graph_edges(*old(g)).len() < u32::MAX,
    ensures
        e < u32::MAX,
        !graph_edges(*old(g)).contains_key(e as nat),
        graph_edges(*final(g)) == graph_edges(*old(g)).insert(e as nat, (a as nat, b as nat)),
        graph_nodes(*final(g)) == graph_nodes(*old(g)),
{
    g.add_edge(petgraph::graph::NodeIndex::new(a), petgraph::graph::NodeIndex::new(b), ()).index()
}

/// `StableGraph::remove_edge`: removes edge `e` if there is one, and says
/// whether there was.
#[verifier::external_body]
pub(crate) fn graph_remove_edge(g: &mut StableDiGraph<SystemId, ()>, e: usize) -> (removed: bool)
    requires
        e < u32::MAX,
    ensures
        removed == graph_edges(*old(g)).contains_key(e as nat),
        graph_edges(*final(g)) == graph_edges(*old(g)).remove(e as nat),
        graph_nodes(*final(g)) == graph_nodes(*old(g)),
{
    g.remove_edge(petgraph::graph::EdgeIndex::new(e)).is_some()
}

/// `StableGraph::node_weight`: the weight stored at node `i`, if it is a node.
#[verifier::external_body]
pub(crate) fn graph_node_weight(g: &StableDiGraph<SystemId, ()>, i: usize) -> (w: Option<&SystemId>)
    requires
        i < u32::MAX,
    ensures
        w == (if graph_nodes(*g).contains_key(i as nat) {
            Some(&graph_nodes(*g)[i as nat])
        } else {
            None
        }),
{
    g.node_weight(petgraph::graph::NodeIndex::new(i))
}

/// `StableGraph::node_indices`: every node index once, in increasing order.
#[verifier::external_body]
pub(crate) fn graph_node_indices(g: &StableDiGraph<SystemId, ()>) -> (r: Vec<usize>)
    ensures
        forall|k: int| 0 <= k < r.len() ==> graph_nodes(*g).contains_key(#[trigger] r[k] as nat),
        forall|i: nat| #[trigger]
            graph_nodes(*g).contains_key(i) ==> exists|k: int| 0 <= k < r.len() && r[k] == i,
        forall|j: int, k: int| 0 <= j < k < r.len() ==> r[j] < r[k],
{
    let mut r = Vec::new();
    for i in g.node_indices() {
        r.push(i.index());
    }
    r
}

/// `StableGraph::neighbors_directed` with `Incoming`: the source of each edge
/// that runs into node `i`, one entry per edge, so a source appears as often
/// as there are edges from it to `i`.
#[verifier::external_body]
pub(crate) fn graph_incoming(g: &StableDiGraph<SystemId, ()>, i: usize) -> (r: Vec<usize>)
    requires
        i < u32::MAX,
    ensures
        r.len() == edges_into(graph_edges(*g), i as nat).len(),
        forall|p: usize| #[trigger]
            r@.to_multiset().count(p) == edges_between(graph_edges(*g), p as nat, i as nat).len(),
{
    let mut r = Vec::new();
    for p in g.neighbors_directed(petgraph::graph::NodeIndex::new(i), petgraph::Direction::Incoming) {
        r.push(p.index());
    }
    r
}

/// `StableGraph::edge_count`: the number of edges.
#[verifier::external_body]
pub(crate) fn graph_edge_count(g: &StableDiGraph<SystemId, ()>) -> (n: usize)
    ensures
        n == graph_edges(*g).len(),
{
    g.edge_count()
}

/// `petgraph::algo::is_cyclic_directed`: whether the graph contains a cycle,
/// that is a walk along its edges, at least one edge long, that ends where it
/// starts.
#[verifier::external_body]
pub(crate) fn graph_is_cyclic(g: &StableDiGraph<SystemId, ()>) -> (r: bool)
    ensures
        r == has_cycle(graph_edges(*g)),
{
    petgraph::algo::is_cyclic_directed(g)
}

} // verus!
