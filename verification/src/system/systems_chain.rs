use vstd::prelude::*;

use std::collections::HashMap;

use petgraph::stable_graph::StableDiGraph;

use crate::graph::indexed::{indexed_wf, links_in, multiplicity_in, systems_in};
use crate::graph::stable::{edges_between, graph_edges, graph_incoming, graph_node_weight, graph_nodes};
use crate::system::system::SystemFabricError;
use crate::types::system_id::{SystemId, uuids_of};

verus! {

broadcast use vstd::std_specs::hash::group_hash_axioms;

/// A system that runs in a world.
#[derive(Debug)]
pub struct WorldSystemNode {
    system_id: SystemId,
}

impl View for WorldSystemNode {
    type V = SystemId;

    closed spec fn view(&self) -> SystemId {
        self.system_id
    }
}

impl WorldSystemNode {
    pub fn new(system_id: SystemId) -> (r: WorldSystemNode)
        ensures
            r@ == system_id,
    {
        WorldSystemNode { system_id }
    }

    pub fn system_id(&self) -> (r: &SystemId)
        ensures
            *r == self@,
    {
        &self.system_id
    }
}

/// The systems of one world and the order between them: an edge from `a` to
/// `b` makes `b` wait for `a`. It also records the expected systems that were
/// not registered and those whose build failed.
#[derive(Debug)]
pub struct SystemsChain {
    graph: StableDiGraph<SystemId, ()>,
    system_idx: HashMap<u128, usize>,
    not_found_systems: Vec<SystemId>,
    systems_with_build_error: HashMap<u128, (SystemId, SystemFabricError)>,
}

#[derive(Debug, PartialEq, Eq)]
pub enum CalculateOrderError {
    Cycle(SystemId),
}

impl SystemsChain {
    /// The graph and the index agree.
    pub closed spec fn wf(&self) -> bool {
        indexed_wf(graph_nodes(self.graph), graph_edges(self.graph), self.system_idx@)
    }

    /// The systems of the world, by UUID.
    pub closed spec fn systems(&self) -> Map<u128, SystemId> {
        systems_in(graph_nodes(self.graph), self.system_idx@)
    }

    /// `(a, b)` when system `b` waits for system `a`.
    pub closed spec fn links(&self) -> Set<(u128, u128)> {
        links_in(graph_edges(self.graph), self.system_idx@)
    }

    /// How many edges make system `b` wait for system `a` (zero unless both
    /// are in the world).
    pub closed spec fn link_multiplicity(&self, a: u128, b: u128) -> nat {
        multiplicity_in(graph_edges(self.graph), self.system_idx@, a, b)
    }

    pub closed spec fn not_found(&self) -> Seq<SystemId> {
        self.not_found_systems@
    }

    /// The failed builds, by UUID, each with the id and its error.
    pub closed spec fn build_errors(&self) -> Map<u128, (SystemId, SystemFabricError)> {
        self.systems_with_build_error@
    }

    pub fn new(
        graph: StableDiGraph<SystemId, ()>,
        not_found_systems: Vec<SystemId>,
        systems_with_build_error: HashMap<u128, (SystemId, SystemFabricError)>,
        system_idx: HashMap<u128, usize>,
    ) -> (r: SystemsChain)
        ensures
            r.wf() == indexed_wf(graph_nodes(graph), graph_edges(graph), system_idx@),
            r.systems() == systems_in(graph_nodes(graph), system_idx@),
            r.links() == links_in(graph_edges(graph), system_idx@),
            forall|a: u128, b: u128|
                #[trigger] r.link_multiplicity(a, b) == multiplicity_in(graph_edges(graph), system_idx@, a, b),
            r.not_found() == not_found_systems@,
            r.build_errors() == systems_with_build_error@,
    {
        SystemsChain { graph, system_idx, not_found_systems, systems_with_build_error }
    }

    /// The expected systems that were not registered.
    pub fn not_found_systems(&self) -> (r: &Vec<SystemId>)
        ensures
            r@ == self.not_found(),
    {
        &self.not_found_systems
    }

    /// The expected systems whose build failed, by UUID, each with its id
    /// and error.
    pub fn systems_with_build_error(&self) -> (r: &HashMap<u128, (SystemId, SystemFabricError)>)
        ensures
            r@ == self.build_errors(),
    {
        &self.systems_with_build_error
    }

    /// The world's system whose UUID is that of `system_id`, if any.
    pub fn system_node(&self, system_id: &SystemId) -> (r: Option<WorldSystemNode>)
        requires
            self.wf(),
        ensures
            r is Some <==> self.systems().contains_key(system_id@),
            r is Some ==> r->0@ == self.systems()[system_id@],
    {
        match self.system_idx.get(&system_id.uuid()) {
            None => None,
            Some(i) => {
                let id = graph_node_weight(&self.graph, *i).unwrap();
                Some(WorldSystemNode::new(id.clone()))
            },
        }
    }

    /// The systems that `system_id` waits for in this world: one entry per
    /// edge into it, so exactly the systems linked before it.
    pub fn prev_systems(&self, system_id: &SystemId) -> (r: Vec<SystemId>)
        requires
            self.wf(),
        ensures
            forall|k: int| 0 <= k < r.len() ==> self.links().contains((#[trigger] r[k]@, system_id@)),
            forall|k: int| 0 <= k < r.len() ==> #[trigger] r[k] == self.systems()[r[k]@],
            forall|u: u128|
                self.links().contains((u, system_id@)) ==> exists|k: int|
                    0 <= k < r.len() && #[trigger] r[k]@ == u,
            forall|u: u128|
                #[trigger] uuids_of(r@).to_multiset().count(u)
                    == self.link_multiplicity(u, system_id@),
    {
        let ghost nodes = graph_nodes(self.graph);
        let ghost edges = graph_edges(self.graph);
        let ghost idx = self.system_idx@;
        let mut r: Vec<SystemId> = Vec::new();
        let i = match self.system_idx.get(&system_id.uuid()) {
            None => {
                proof {
                    broadcast use vstd::seq_lib::group_seq_properties;
                    assert forall|u: u128|
                        #[trigger] uuids_of(r@).to_multiset().count(u) == 0 by {
                        assert(!uuids_of(r@).contains(u));
                    }
                }
                return r;
            },
            Some(i) => *i,
        };
        let prevs = graph_incoming(&self.graph, i);
        let mut j: usize = 0;
        while j < prevs.len()
            invariant
                j <= prevs.len(),
                r.len() == j,
                nodes == graph_nodes(self.graph),
                edges == graph_edges(self.graph),
                idx == self.system_idx@,
                indexed_wf(nodes, edges, idx),
                idx.contains_key(system_id@),
                i == idx[system_id@],
                forall|p: usize| #[trigger]
                    prevs@.to_multiset().count(p) == edges_between(
                        edges,
                        p as nat,
                        i as nat,
                    ).len(),
                forall|k: int| 0 <= k < j ==> r[k] == nodes[prevs[k] as nat] && edges.values().contains(
                    (prevs[k] as nat, i as nat),
                ),
            decreases prevs.len() - j,
        {
            let p = prevs[j];
            proof {
                lemma_listed_source_is_linked(prevs@, edges, j as int, i as nat);
                let e = choose|e: nat| edges.contains_key(e) && edges[e] == (p as nat, i as nat);
                assert(nodes.contains_key(edges[e].0));
            }
            let id = graph_node_weight(&self.graph, p).unwrap();
            let c = id.clone();
            assert(c == nodes[p as nat]);
            r.push(c);
            assert(r[j as int] == nodes[prevs[j as int] as nat]);
            assert(edges.values().contains((prevs[j as int] as nat, i as nat)));
            j += 1;
        }
        proof {
            assert forall|k: int| 0 <= k < r.len() implies self.links().contains(
                (#[trigger] r[k]@, system_id@),
            ) by {
                let e = choose|e: nat| edges.contains_key(e) && edges[e] == (prevs[k] as nat, i as nat);
                assert(nodes.contains_key(prevs[k] as nat));
            }
            assert forall|k: int| 0 <= k < r.len() implies #[trigger] r[k] == self.systems()[r[k]@] by {
                assert(r[k] == nodes[prevs[k] as nat]);
                assert(edges.values().contains((prevs[k] as nat, i as nat)));
                let e = choose|e: nat| edges.contains_key(e) && edges[e] == (prevs[k] as nat, i as nat);
                assert(nodes.contains_key(edges[e].0));
            }
            assert forall|u: u128| self.links().contains((u, system_id@)) implies exists|k: int|
                0 <= k < r.len() && #[trigger] r[k]@ == u by {
                let p = idx[u];
                lemma_linked_source_is_listed(prevs@, edges, p, i as nat);
                let k = choose|k: int| 0 <= k < prevs.len() && prevs[k] == p;
                assert(r[k]@ == u);
            }
            let g = |p: usize| nodes[p as nat]@;
            assert(uuids_of(r@) =~= prevs@.map_values(g));
            assert forall|u: u128|
                #[trigger] uuids_of(r@).to_multiset().count(u)
                    == self.link_multiplicity(u, system_id@) by {
                assert forall|k: int| 0 <= k < prevs.len() implies nodes.contains_key(
                    #[trigger] prevs@[k] as nat,
                ) by {
                    assert(r[k]@ == nodes[prevs[k] as nat]@);
                    assert(edges.values().contains((prevs[k] as nat, i as nat)));
                    let e = choose|e: nat|
                        edges.contains_key(e) && edges[e] == (prevs[k] as nat, i as nat);
                    assert(nodes.contains_key(edges[e].0));
                }
                if idx.contains_key(u) {
                    lemma_count_mapped(prevs@, g, idx[u], u);
                } else {
                    broadcast use vstd::seq_lib::group_seq_properties;
                    if prevs@.map_values(g).contains(u) {
                        let k = choose|k: int|
                            0 <= k < prevs@.map_values(g).len() && prevs@.map_values(g)[k] == u;
                        assert(nodes.contains_key(prevs@[k] as nat));
                    }
                }
            }
        }
        r
    }
}

/// Mapping a sequence by `f` keeps the count of `x` as the count of `y`
/// when `f` sends exactly the copies of `x` to `y`.
pub proof fn lemma_count_mapped<A, B>(s: Seq<A>, f: spec_fn(A) -> B, x: A, y: B)
    requires
        forall|k: int| 0 <= k < s.len() ==> (f(#[trigger] s[k]) == y <==> s[k] == x),
    ensures
        s.map_values(f).to_multiset().count(y) == s.to_multiset().count(x),
    decreases s.len(),
{
    broadcast use vstd::seq_lib::group_seq_properties;
    if s.len() == 0 {
        assert(!s.map_values(f).contains(y));
        assert(!s.contains(x));
    } else {
        let t = s.drop_last();
        assert forall|k: int| 0 <= k < t.len() implies (f(#[trigger] t[k]) == y <==> t[k] == x) by {
            assert(t[k] == s[k]);
        }
        lemma_count_mapped(t, f, x, y);
        assert(s =~= t.push(s.last()));
        assert(s.map_values(f) =~= t.map_values(f).push(f(s.last())));
        assert(f(s[s.len() - 1]) == y <==> s[s.len() - 1] == x);
    }
}

/// A source listed by `graph_incoming` has an edge into the node.
pub proof fn lemma_listed_source_is_linked(
    prevs: Seq<usize>,
    edges: Map<nat, (nat, nat)>,
    k: int,
    i: nat,
)
    requires
        0 <= k < prevs.len(),
        edges.dom().finite(),
        forall|p: usize| #[trigger]
            prevs.to_multiset().count(p) == edges_between(edges, p as nat, i).len(),
    ensures
        edges.values().contains((prevs[k] as nat, i)),
{
    broadcast use vstd::seq_lib::group_seq_properties;
    let p = prevs[k];
    assert(prevs.contains(p));
    assert(prevs.to_multiset().count(p) > 0);
    let s = edges_between(edges, p as nat, i);
    if s.is_empty() {
        assert(s =~= Set::empty());
        assert(s.len() == 0);
    }
    let e = s.choose();
    assert(edges.contains_key(e) && edges[e] == (p as nat, i));
}

/// A node with an edge into the node is listed by `graph_incoming`.
pub proof fn lemma_linked_source_is_listed(
    prevs: Seq<usize>,
    edges: Map<nat, (nat, nat)>,
    p: usize,
    i: nat,
)
    requires
        edges.dom().finite(),
        edges.values().contains((p as nat, i)),
        forall|q: usize| #[trigger]
            prevs.to_multiset().count(q) == edges_between(edges, q as nat, i).len(),
    ensures
        exists|k: int| 0 <= k < prevs.len() && prevs[k] == p,
{
    broadcast use vstd::seq_lib::group_seq_properties;
    let e = choose|e: nat| edges.contains_key(e) && edges[e] == (p as nat, i);
    let s = edges_between(edges, p as nat, i);
    assert(s.contains(e));
    assert(s.len() > 0);
    assert(prevs.to_multiset().count(p) > 0);
    assert(prevs.contains(p));
}

} // verus!
