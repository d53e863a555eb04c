use vstd::prelude::*;

use std::collections::HashMap;

use petgraph::stable_graph::StableDiGraph;

use crate::graph::cycles::{acyclic, lemma_acyclic_subset, lemma_empty_acyclic};
use crate::graph::indexed::{
    indexed_wf, lemma_add_edge, lemma_add_node, lemma_between_insert, lemma_between_nonempty,
    lemma_links_acyclic_iff, links_in, multiplicity_in, systems_in,
};
use crate::graph::stable::{
    edges_between, edges_into, graph_add_edge, graph_add_node, graph_edge_count, graph_edges,
    graph_incoming, graph_is_cyclic, graph_new, graph_node_indices, graph_node_weight, graph_nodes,
    graph_remove_edge,
};
use crate::system::system::SystemFabricError;
use crate::system::systems_chain::{
    SystemsChain, lemma_linked_source_is_listed, lemma_listed_source_is_linked,
};
use crate::types::system_id::SystemId;

verus! {

broadcast use vstd::std_specs::hash::group_hash_axioms;

/// A system known to the manager.
#[derive(Debug)]
pub struct GlobalSystemNode {
    system_id: SystemId,
}

impl View for GlobalSystemNode {
    type V = SystemId;

    closed spec fn view(&self) -> SystemId {
        self.system_id
    }
}

impl GlobalSystemNode {
    pub fn new(system_id: SystemId) -> (r: GlobalSystemNode)
        ensures
            r@ == system_id,
    {
        GlobalSystemNode { system_id }
    }

    /// The id that the system's configuration reports.
    pub fn system_id(&self) -> (r: &SystemId)
        ensures
            *r == self@,
    {
        &self.system_id
    }
}

/// Holds every registered system and the links between them ("`a` runs
/// before `b`"), and builds the chain of systems for a world.
#[derive(Debug)]
pub struct SystemsFlowConfigurationManager {
    system_idx: HashMap<u128, usize>,
    graph: StableDiGraph<SystemId, ()>,
}

#[derive(Debug, PartialEq, Eq)]
pub enum SystemRegistrationError {
    SystemAlreadyExists(SystemId),
}

pub type SystemRegistrationResult = Result<SystemId, SystemRegistrationError>;

#[derive(Debug, PartialEq, Eq)]
pub enum SystemAddLinkError {
    SystemFromConfigurationNotFound(SystemId),
    SystemToConfigurationNotFound(SystemId),
    Cycle(SystemId, SystemId),
}

pub type SystemAddLinkResult = Result<(), SystemAddLinkError>;

impl SystemsFlowConfigurationManager {
    /// The graph and the index agree, and the links form no cycle. Every
    /// manager keeps this, from `default` on.
    #[verifier::type_invariant]
    pub closed spec fn wf(self) -> bool {
        &&& indexed_wf(graph_nodes(self.graph), graph_edges(self.graph), self.system_idx@)
        &&& acyclic(graph_edges(self.graph).values())
    }

    /// The registered systems, by UUID.
    pub closed spec fn systems(&self) -> Map<u128, SystemId> {
        systems_in(graph_nodes(self.graph), self.system_idx@)
    }

    /// The links: `(a, b)` when system `a` runs before system `b`.
    pub closed spec fn links(&self) -> Set<(u128, u128)> {
        links_in(graph_edges(self.graph), self.system_idx@)
    }

    /// How many times the link from `a` to `b` was added (zero unless both
    /// are registered).
    pub closed spec fn link_multiplicity(&self, a: u128, b: u128) -> nat {
        multiplicity_in(graph_edges(self.graph), self.system_idx@, a, b)
    }

    /// How many links were added, counting a link added twice twice.
    pub closed spec fn link_total(&self) -> nat {
        graph_edges(self.graph).len()
    }

    /// The registered system whose UUID is that of `system_id`, if any.
    pub fn system_node(&self, system_id: &SystemId) -> (r: Option<GlobalSystemNode>)
        ensures
            r is Some <==> self.systems().contains_key(system_id@),
            r is Some ==> r->0@ == self.systems()[system_id@],
    {
        proof {
            use_type_invariant(self);
        }
        match self.system_idx.get(&system_id.uuid()) {
            None => None,
            Some(i) => {
                let id = graph_node_weight(&self.graph, *i).unwrap();
                Some(GlobalSystemNode::new(id.clone()))
            },
        }
    }

    /// Registers a system under its id. A system whose UUID is already
    /// registered is refused with the id that was registered for it.
    pub fn register(&mut self, system_id: SystemId) -> (r: SystemRegistrationResult)
        requires
            !old(self).systems().contains_key(system_id@) ==> old(self).systems().len() < u32::MAX,
        ensures
            final(self).links() == old(self).links(),
            final(self).link_total() == old(self).link_total(),
            forall|a: u128, b: u128|
                #[trigger] final(self).link_multiplicity(a, b) == old(self).link_multiplicity(a, b),
            old(self).systems().contains_key(system_id@) ==> {
                &&& r == Err::<SystemId, SystemRegistrationError>(
                    SystemRegistrationError::SystemAlreadyExists(old(self).systems()[system_id@]),
                )
                &&& final(self).systems() == old(self).systems()
            },
            !old(self).systems().contains_key(system_id@) ==> {
                &&& r == Ok::<SystemId, SystemRegistrationError>(system_id)
                &&& final(self).systems() == old(self).systems().insert(system_id@, system_id)
            },
    {
        proof {
            use_type_invariant(&*self);
        }
        let uuid = system_id.uuid();
        match self.system_idx.get(&uuid) {
            Some(i) => {
                let registered = graph_node_weight(&self.graph, *i).unwrap().clone();
                return Err(SystemRegistrationError::SystemAlreadyExists(registered));
            },
            None => {},
        }
        proof {
            assert(self.systems().dom() =~= self.system_idx@.dom());
        }
        let (mut system_idx, mut graph) = self.take_parts();
        let ghost nodes = graph_nodes(graph);
        let ghost idx = system_idx@;
        let i = graph_add_node(&mut graph, system_id.clone());
        system_idx.insert(uuid, i);
        proof {
            lemma_add_node(nodes, graph_edges(graph), idx, i, system_id);
        }
        *self = SystemsFlowConfigurationManager { system_idx, graph };
        Ok(system_id)
    }

    /// Links `from_system_id` before `to_system_id`. Both must be registered,
    /// and the link is refused when it would close a cycle of links; a
    /// refused link leaves the manager as it was.
    pub fn add_link(&mut self, from_system_id: &SystemId, to_system_id: &SystemId) -> (r:
        SystemAddLinkResult)
        requires
            old(self).systems().contains_key(from_system_id@) && old(self).systems().contains_key(
                to_system_id@,
            ) ==> old(self).link_total() < u32::MAX,
        ensures
            final(self).systems() == old(self).systems(),
            r is Err ==> final(self).links() == old(self).links() && final(self).link_total()
                == old(self).link_total(),
            r is Err ==> forall|a: u128, b: u128|
                #[trigger] final(self).link_multiplicity(a, b) == old(self).link_multiplicity(a, b),
            r is Ok ==> forall|a: u128, b: u128|
                #[trigger] final(self).link_multiplicity(a, b) == old(self).link_multiplicity(a, b) + (
                if a == from_system_id@ && b == to_system_id@ {
                    1int
                } else {
                    0int
                }),
            !old(self).systems().contains_key(from_system_id@) ==> r == Err::<
                (),
                SystemAddLinkError,
            >(SystemAddLinkError::SystemFromConfigurationNotFound(*from_system_id)),
            old(self).systems().contains_key(from_system_id@) && !old(self).systems().contains_key(
                to_system_id@,
            ) ==> r == Err::<(), SystemAddLinkError>(
                SystemAddLinkError::SystemToConfigurationNotFound(*to_system_id),
            ),
            old(self).systems().contains_key(from_system_id@) && old(self).systems().contains_key(
                to_system_id@,
            ) ==> {
                if acyclic(old(self).links().insert((from_system_id@, to_system_id@))) {
                    &&& r == Ok::<(), SystemAddLinkError>(())
                    &&& final(self).links() == old(self).links().insert(
                        (from_system_id@, to_system_id@),
                    )
                    &&& final(self).link_total() == old(self).link_total() + 1
                } else {
                    r == Err::<(), SystemAddLinkError>(
                        SystemAddLinkError::Cycle(*from_system_id, *to_system_id),
                    )
                }
            },
    {
        proof {
            use_type_invariant(&*self);
        }
        let from_idx = match self.system_idx.get(&from_system_id.uuid()) {
            None => {
                return Err(SystemAddLinkError::SystemFromConfigurationNotFound(from_system_id.clone()));
            },
            Some(i) => *i,
        };
        let to_idx = match self.system_idx.get(&to_system_id.uuid()) {
            None => {
                return Err(SystemAddLinkError::SystemToConfigurationNotFound(to_system_id.clone()));
            },
            Some(i) => *i,
        };
        let (system_idx, mut graph) = self.take_parts();
        let ghost nodes = graph_nodes(graph);
        let ghost edges = graph_edges(graph);
        let ghost idx = system_idx@;
        let edge = graph_add_edge(&mut graph, from_idx, to_idx);
        proof {
            lemma_add_edge(nodes, edges, idx, edge as nat, from_idx as nat, to_idx as nat);
            lemma_links_acyclic_iff(nodes, graph_edges(graph), idx);
        }
        if graph_is_cyclic(&graph) {
            graph_remove_edge(&mut graph, edge);
            proof {
                assert(graph_edges(graph) =~= edges);
            }
            *self = SystemsFlowConfigurationManager { system_idx, graph };
            return Err(SystemAddLinkError::Cycle(from_system_id.clone(), to_system_id.clone()));
        }
        *self = SystemsFlowConfigurationManager { system_idx, graph };
        Ok(())
    }

    /// The number of registered systems.
    pub fn system_count(&self) -> (n: usize)
        ensures
            n == self.systems().len(),
    {
        proof {
            use_type_invariant(self);
            assert(self.systems().dom() =~= self.system_idx@.dom());
        }
        self.system_idx.len()
    }

    /// Moves the index and the graph out, leaving an empty manager behind,
    /// so that they can be changed together and put back.
    fn take_parts(&mut self) -> (parts: (HashMap<u128, usize>, StableDiGraph<SystemId, ()>))
        ensures
            indexed_wf(graph_nodes(parts.1), graph_edges(parts.1), parts.0@),
            acyclic(graph_edges(parts.1).values()),
            parts.0@ == old(self).system_idx@,
            graph_nodes(parts.1) == graph_nodes(old(self).graph),
            graph_edges(parts.1) == graph_edges(old(self).graph),
    {
        proof {
            use_type_invariant(&*self);
        }
        let mut taken = SystemsFlowConfigurationManager::default();
        core::mem::swap(&mut taken, self);
        proof {
            use_type_invariant(&taken);
        }
        let SystemsFlowConfigurationManager { system_idx, graph } = taken;
        (system_idx, graph)
    }

    /// The number of links added, counting a link added twice twice.
    pub fn link_count(&self) -> (n: usize)
        ensures
            n == self.link_total(),
    {
        graph_edge_count(&self.graph)
    }
}

/// An expected system with what building its configuration returned.
pub type ExpectedSystem = (SystemId, Result<(), SystemFabricError>);

/// The expected systems among the first `n` of `expected` that are not
/// registered, in their order.
pub open spec fn unregistered_prefix(
    expected: Seq<ExpectedSystem>,
    registered: Map<u128, SystemId>,
    n: nat,
) -> Seq<SystemId>
    decreases n,
{
    if n == 0 {
        Seq::empty()
    } else {
        let rest = unregistered_prefix(expected, registered, (n - 1) as nat);
        if registered.contains_key(expected[n - 1].0@) {
            rest
        } else {
            rest.push(expected[n - 1].0)
        }
    }
}

/// The registered systems among the first `n` of `expected` whose build
/// failed, by UUID, each with its id and error (a later failure of the same
/// UUID replaces an earlier one).
pub open spec fn failed_builds(
    expected: Seq<ExpectedSystem>,
    registered: Map<u128, SystemId>,
    n: nat,
) -> Map<u128, (SystemId, SystemFabricError)>
    decreases n,
{
    if n == 0 {
        Map::empty()
    } else {
        let rest = failed_builds(expected, registered, (n - 1) as nat);
        let id = expected[n - 1].0;
        match expected[n - 1].1 {
            Err(e) => if registered.contains_key(id@) {
                rest.insert(id@, (id, e))
            } else {
                rest
            },
            Ok(_) => rest,
        }
    }
}

/// The `k`-th expected system is registered and was built.
pub open spec fn is_built(expected: Seq<ExpectedSystem>, registered: Map<u128, SystemId>, k: int) -> bool {
    registered.contains_key(expected[k].0@) && expected[k].1 is Ok
}

/// The `k`-th expected system is registered and built, and no earlier one
/// with its UUID is.
pub open spec fn first_built(expected: Seq<ExpectedSystem>, registered: Map<u128, SystemId>, k: int) -> bool {
    &&& is_built(expected, registered, k)
    &&& forall|j: int| 0 <= j < k ==> !(is_built(expected, registered, j) && #[trigger] expected[j].0@ == expected[k].0@)
}

/// The node of the global graph that holds the system of world node `w`.
pub open spec fn global_node(gidx: Map<u128, usize>, wnodes: Map<nat, SystemId>, w: nat) -> nat {
    gidx[wnodes[w]@] as nat
}

/// Node `b` is among the first `k` of `list`.
pub open spec fn listed_before(list: Seq<usize>, k: int, b: nat) -> bool {
    exists|m: int| 0 <= m < k && list[m] == b
}

/// Distinct nodes of a world graph hold distinct systems, so they sit on
/// distinct nodes of the global graph.
pub proof fn lemma_global_node_injective(
    gnodes: Map<nat, SystemId>,
    gedges: Map<nat, (nat, nat)>,
    gidx: Map<u128, usize>,
    wnodes: Map<nat, SystemId>,
    wedges: Map<nat, (nat, nat)>,
    widx: Map<u128, usize>,
)
    requires
        indexed_wf(gnodes, gedges, gidx),
        indexed_wf(wnodes, wedges, widx),
        widx.dom().subset_of(gidx.dom()),
    ensures
        forall|a: nat, b: nat|
            wnodes.contains_key(a) && wnodes.contains_key(b) && global_node(gidx, wnodes, a)
                == global_node(gidx, wnodes, b) ==> a == b,
        forall|a: nat| #[trigger]
            wnodes.contains_key(a) ==> gnodes.contains_key(global_node(gidx, wnodes, a))
                && global_node(gidx, wnodes, a) < u32::MAX,
{
    assert forall|a: nat, b: nat|
        wnodes.contains_key(a) && wnodes.contains_key(b) && global_node(gidx, wnodes, a)
            == global_node(gidx, wnodes, b) implies a == b by {
        assert(widx.contains_key(wnodes[a]@));
        assert(widx.contains_key(wnodes[b]@));
        assert(gidx.contains_key(wnodes[a]@));
        assert(gidx.contains_key(wnodes[b]@));
    }
    assert forall|a: nat| #[trigger] wnodes.contains_key(a) implies gnodes.contains_key(
        global_node(gidx, wnodes, a),
    ) && global_node(gidx, wnodes, a) < u32::MAX by {
        assert(widx.contains_key(wnodes[a]@));
        assert(gidx.contains_key(wnodes[a]@));
    }
}

impl SystemsFlowConfigurationManager {
    /// Builds the chain of systems of a world. Each expected system comes
    /// with what building its configuration returned, which is read only for
    /// registered systems. Unregistered systems are listed in order, failed
    /// builds are recorded by UUID, and the others become the world's
    /// systems (the first built id of each UUID), linked as the manager links
    /// them.
    pub fn build_world_systems_manager(&self, expected_systems: &Vec<ExpectedSystem>) -> (chain:
        SystemsChain)
        ensures
            chain.wf(),
            chain.not_found() == unregistered_prefix(
                expected_systems@,
                self.systems(),
                expected_systems.len() as nat,
            ),
            chain.build_errors() == failed_builds(
                expected_systems@,
                self.systems(),
                expected_systems.len() as nat,
            ),
            forall|u: u128|
                chain.systems().contains_key(u) <==> exists|k: int|
                    0 <= k < expected_systems.len() && #[trigger] expected_systems@[k].0@ == u
                        && is_built(expected_systems@, self.systems(), k),
            forall|k: int|
                0 <= k < expected_systems.len() && first_built(expected_systems@, self.systems(), k)
                    ==> chain.systems()[expected_systems@[k].0@] == expected_systems@[k].0,
            chain.links() == self.links().filter(
                |p: (u128, u128)|
                    chain.systems().contains_key(p.0) && chain.systems().contains_key(p.1),
            ),
            forall|a: u128, b: u128|
                #[trigger] chain.link_multiplicity(a, b) == if chain.systems().contains_key(a)
                    && chain.systems().contains_key(b) {
                    self.link_multiplicity(a, b)
                } else {
                    0
                },
            acyclic(chain.links()),
    {
        proof {
            use_type_invariant(self);
        }
        let ghost sys = self.systems();
        let ghost gnodes = graph_nodes(self.graph);
        let ghost gedges = graph_edges(self.graph);
        let ghost gidx = self.system_idx@;
        let mut not_found_systems: Vec<SystemId> = Vec::new();
        let mut systems_with_build_error: HashMap<u128, (SystemId, SystemFabricError)> =
            HashMap::new();
        let mut world = graph_new();
        let mut world_idx: HashMap<u128, usize> = HashMap::new();
        proof {
            assert(sys.dom() =~= gidx.dom());
            assert(graph_nodes(world) =~= Map::empty());
            assert(graph_edges(world) =~= Map::empty());
            assert(world_idx@ =~= Map::empty());
            assert(systems_with_build_error@ =~= Map::empty());
        }
        let mut i: usize = 0;
        while i < expected_systems.len()
            invariant
                i <= expected_systems.len(),
                self.wf(),
                sys == self.systems(),
                gidx == self.system_idx@,
                sys.dom() == gidx.dom(),
                indexed_wf(graph_nodes(world), graph_edges(world), world_idx@),
                graph_edges(world).dom() == Set::<nat>::empty(),
                world_idx@.dom().subset_of(gidx.dom()),
                not_found_systems@ == unregistered_prefix(expected_systems@, sys, i as nat),
                systems_with_build_error@ == failed_builds(expected_systems@, sys, i as nat),
                forall|u: u128|
                    world_idx@.contains_key(u) <==> exists|k: int|
                        0 <= k < i && #[trigger] expected_systems@[k].0@ == u && is_built(
                            expected_systems@,
                            sys,
                            k,
                        ),
                forall|k: int|
                    0 <= k < i && first_built(expected_systems@, sys, k) ==> systems_in(
                        graph_nodes(world),
                        world_idx@,
                    )[expected_systems@[k].0@] == expected_systems@[k].0,
            decreases expected_systems.len() - i,
        {
            let system_id = &expected_systems[i].0;
            let uuid = system_id.uuid();
            if !self.system_idx.contains_key(&uuid) {
                not_found_systems.push(system_id.clone());
            } else {
                match &expected_systems[i].1 {
                    Err(error) => {
                        systems_with_build_error.insert(uuid, (system_id.clone(), error.clone()));
                    },
                    Ok(()) => {
                        if !world_idx.contains_key(&uuid) {
                            let ghost wnodes = graph_nodes(world);
                            let ghost widx = world_idx@;
                            proof {
                                vstd::set_lib::lemma_len_subset(widx.dom(), gidx.dom().remove(uuid));
                            }
                            let w = graph_add_node(&mut world, system_id.clone());
                            world_idx.insert(uuid, w);
                            proof {
                                lemma_add_node(wnodes, graph_edges(world), widx, w, *system_id);
                                assert forall|k: int|
                                    0 <= k < i + 1 && first_built(
                                        expected_systems@,
                                        sys,
                                        k,
                                    ) implies systems_in(graph_nodes(world), world_idx@)[expected_systems@[k].0@]
                                    == expected_systems@[k].0 by {
                                    if k < i && expected_systems@[k].0@ == uuid {
                                        assert(widx.contains_key(uuid));
                                    }
                                }
                            }
                        } else {
                            proof {
                                let k = choose|k: int|
                                    0 <= k < i && #[trigger] expected_systems@[k].0@ == uuid
                                        && is_built(expected_systems@, sys, k);
                                assert(!first_built(expected_systems@, sys, i as int));
                            }
                        }
                    },
                }
            }
            proof {
                assert forall|u: u128|
                    world_idx@.contains_key(u) <==> exists|k: int|
                        0 <= k < i + 1 && #[trigger] expected_systems@[k].0@ == u && is_built(
                            expected_systems@,
                            sys,
                            k,
                        ) by {
                    if u == uuid && is_built(expected_systems@, sys, i as int) {
                        assert(expected_systems@[i as int].0@ == u);
                    }
                    if exists|k: int|
                        0 <= k < i + 1 && #[trigger] expected_systems@[k].0@ == u && is_built(
                            expected_systems@,
                            sys,
                            k,
                        ) {
                        let k = choose|k: int|
                            0 <= k < i + 1 && #[trigger] expected_systems@[k].0@ == u && is_built(
                                expected_systems@,
                                sys,
                                k,
                            );
                        if k < i {
                            assert(world_idx@.contains_key(u));
                        }
                    }
                }
            }
            i += 1;
        }
        let ghost wnodes = graph_nodes(world);
        let ghost widx = world_idx@;
        proof {
            assert(graph_edges(world) =~= Map::empty());
            assert forall|a: nat, b: nat| #[trigger]
                edges_between(graph_edges(world), a, b).len() == 0 by {
                assert(edges_between(graph_edges(world), a, b) =~= Set::empty());
            }
        }
        let node_list = graph_node_indices(&world);
        let ghost mut consumed: Set<nat> = Set::empty();
        let mut k: usize = 0;
        while k < node_list.len()
            invariant
                k <= node_list.len(),
                self.wf(),
                gnodes == graph_nodes(self.graph),
                gedges == graph_edges(self.graph),
                gidx == self.system_idx@,
                indexed_wf(gnodes, gedges, gidx),
                wnodes == graph_nodes(world),
                widx == world_idx@,
                indexed_wf(wnodes, graph_edges(world), widx),
                widx.dom().subset_of(gidx.dom()),
                forall|m: int| 0 <= m < node_list.len() ==> wnodes.contains_key(#[trigger] node_list[m] as nat),
                forall|b: nat| #[trigger]
                    wnodes.contains_key(b) ==> exists|m: int| 0 <= m < node_list.len() && node_list[m] == b,
                forall|j: int, m: int| 0 <= j < m < node_list.len() ==> node_list[j] < node_list[m],
                consumed.finite(),
                consumed.subset_of(gedges.dom()),
                graph_edges(world).len() <= consumed.len(),
                forall|e: nat|
                    #[trigger] consumed.contains(e) ==> exists|m: int|
                        0 <= m < k && gedges[e].1 == global_node(gidx, wnodes, node_list[m] as nat),
                forall|a: nat, b: nat|
                    #[trigger] graph_edges(world).values().contains((a, b)) <==> wnodes.contains_key(a)
                        && listed_before(node_list@, k as int, b) && gedges.values().contains(
                        (global_node(gidx, wnodes, a), global_node(gidx, wnodes, b)),
                    ),
                forall|a: nat, b: nat|
                    wnodes.contains_key(a) && wnodes.contains_key(b) ==> #[trigger] edges_between(
                        graph_edges(world),
                        a,
                        b,
                    ).len() == if listed_before(node_list@, k as int, b) {
                        edges_between(gedges, global_node(gidx, wnodes, a), global_node(gidx, wnodes, b)).len()
                    } else {
                        0
                    },
            decreases node_list.len() - k,
        {
            let w = node_list[k];
            let system_id = graph_node_weight(&world, w).unwrap();
            let g = *self.system_idx.get(&system_id.uuid()).unwrap();
            let prevs = graph_incoming(&self.graph, g);
            let ghost into = edges_into(gedges, g as nat);
            proof {
                assert(g as nat == global_node(gidx, wnodes, w as nat));
                lemma_global_node_injective(gnodes, gedges, gidx, wnodes, graph_edges(world), widx);
                assert(consumed.disjoint(into)) by {
                    assert forall|e: nat| consumed.contains(e) implies !into.contains(e) by {
                        let m = choose|m: int|
                            0 <= m < k && gedges[e].1 == global_node(gidx, wnodes, node_list[m] as nat);
                        assert(node_list[m] < node_list[k as int]);
                    }
                }
                vstd::set_lib::lemma_set_disjoint_lens(consumed, into);
                vstd::set_lib::lemma_len_subset(consumed.union(into), gedges.dom());
                if listed_before(node_list@, k as int, w as nat) {
                    let m = choose|m: int| 0 <= m < k && node_list[m] == w;
                    assert(node_list[m] < node_list[k as int]);
                }
                assert forall|x: usize| prevs@.take(0).to_multiset().count(x) == 0 by {
                    broadcast use vstd::seq_lib::group_seq_properties;
                    assert(!prevs@.take(0).contains(x));
                }
            }
            let ghost edges_before = graph_edges(world);
            let mut j: usize = 0;
            while j < prevs.len()
                invariant
                    j <= prevs.len(),
                    k < node_list.len(),
                    w == node_list[k as int],
                    self.wf(),
                    gnodes == graph_nodes(self.graph),
                    gedges == graph_edges(self.graph),
                    gidx == self.system_idx@,
                    indexed_wf(gnodes, gedges, gidx),
                    wnodes == graph_nodes(world),
                    widx == world_idx@,
                    indexed_wf(wnodes, graph_edges(world), widx),
                    widx.dom().subset_of(gidx.dom()),
                    wnodes.contains_key(w as nat),
                    g as nat == global_node(gidx, wnodes, w as nat),
                    forall|a: nat, b: nat|
                        wnodes.contains_key(a) && wnodes.contains_key(b) && global_node(gidx, wnodes, a)
                            == global_node(gidx, wnodes, b) ==> a == b,
                    prevs.len() == into.len(),
                    into == edges_into(gedges, g as nat),
                    forall|p: usize| #[trigger]
                        prevs@.to_multiset().count(p) == crate::graph::stable::edges_between(
                            gedges,
                            p as nat,
                            g as nat,
                        ).len(),
                    consumed.len() + into.len() <= gedges.len(),
                    gedges.len() <= u32::MAX,
                    graph_edges(world).len() <= consumed.len() + j,
                    forall|a: nat, b: nat|
                        #[trigger] graph_edges(world).values().contains((a, b)) <==> wnodes.contains_key(a)
                            && ((listed_before(node_list@, k as int, b) && gedges.values().contains(
                            (global_node(gidx, wnodes, a), global_node(gidx, wnodes, b)),
                        )) || (b == w && exists|m: int|
                            0 <= m < j && prevs[m] as nat == global_node(gidx, wnodes, a))),
                    !listed_before(node_list@, k as int, w as nat),
                    forall|a: nat, b: nat|
                        wnodes.contains_key(a) && wnodes.contains_key(b) ==> #[trigger] edges_between(
                            graph_edges(world),
                            a,
                            b,
                        ).len() == if listed_before(node_list@, k as int, b) {
                            edges_between(
                                gedges,
                                global_node(gidx, wnodes, a),
                                global_node(gidx, wnodes, b),
                            ).len()
                        } else if b == w {
                            prevs@.take(j as int).to_multiset().count(global_node(gidx, wnodes, a) as usize)
                        } else {
                            0
                        },
                decreases prevs.len() - j,
            {
                let p = prevs[j];
                proof {
                    lemma_listed_source_is_linked(prevs@, gedges, j as int, g as nat);
                    let e = choose|e: nat| gedges.contains_key(e) && gedges[e] == (p as nat, g as nat);
                    assert(gnodes.contains_key(gedges[e].0));
                }
                let prev_id = graph_node_weight(&self.graph, p).unwrap();
                let ghost edges_now = graph_edges(world);
                match world_idx.get(&prev_id.uuid()) {
                    None => {
                        proof {
                            assert forall|a: nat| wnodes.contains_key(a) implies p as nat
                                != global_node(gidx, wnodes, a) by {
                                assert(widx.contains_key(wnodes[a]@));
                            }
                        }
                    },
                    Some(wp) => {
                        let wp = *wp;
                        proof {
                            assert(global_node(gidx, wnodes, wp as nat) == p as nat);
                        }
                        let e = graph_add_edge(&mut world, wp, w);
                        proof {
                            lemma_add_edge(
                                wnodes,
                                edges_now,
                                widx,
                                e as nat,
                                wp as nat,
                                w as nat,
                            );
                        }
                    },
                }
                proof {
                    assert forall|a: nat, b: nat|
                        #[trigger] graph_edges(world).values().contains((a, b)) <==> wnodes.contains_key(a)
                            && ((listed_before(node_list@, k as int, b) && gedges.values().contains(
                            (global_node(gidx, wnodes, a), global_node(gidx, wnodes, b)),
                        )) || (b == w && exists|m: int|
                            0 <= m < j + 1 && prevs[m] as nat == global_node(gidx, wnodes, a))) by {
                        if b == w && wnodes.contains_key(a) && prevs[j as int] as nat == global_node(
                            gidx,
                            wnodes,
                            a,
                        ) {
                            assert(widx.contains_key(wnodes[a]@));
                        }
                    }
                    assert(prevs@.take(j + 1) =~= prevs@.take(j as int).push(p));
                    broadcast use vstd::seq_lib::group_seq_properties;
                    assert forall|a: nat, b: nat|
                        wnodes.contains_key(a) && wnodes.contains_key(b) implies #[trigger] edges_between(
                            graph_edges(world),
                            a,
                            b,
                        ).len() == if listed_before(node_list@, k as int, b) {
                            edges_between(
                                gedges,
                                global_node(gidx, wnodes, a),
                                global_node(gidx, wnodes, b),
                            ).len()
                        } else if b == w {
                            prevs@.take(j + 1).to_multiset().count(global_node(gidx, wnodes, a) as usize)
                        } else {
                            0
                        } by {
                        let ga = global_node(gidx, wnodes, a);
                        assert(ga < u32::MAX);
                        assert(prevs@.take(j + 1).to_multiset() =~= prevs@.take(j as int).to_multiset().insert(p));
                        if graph_edges(world) != edges_now {
                            let e = choose|e: nat|
                                !edges_now.contains_key(e) && graph_edges(world) == edges_now.insert(
                                    e,
                                    (widx[prev_id@] as nat, w as nat),
                                );
                            lemma_between_insert(
                                edges_now,
                                e,
                                (widx[prev_id@] as nat, w as nat),
                                a,
                                b,
                            );
                            if a == widx[prev_id@] as nat {
                                assert(global_node(gidx, wnodes, a) == p as nat);
                            } else if b == w {
                                assert(ga != p as nat);
                            }
                        } else {
                            if b == w {
                                assert(widx.contains_key(wnodes[a]@));
                                assert(ga != p as nat);
                            }
                        }
                    }
                }
                j += 1;
            }
            proof {
                assert forall|a: nat, b: nat|
                    #[trigger] graph_edges(world).values().contains((a, b)) <==> wnodes.contains_key(a)
                        && listed_before(node_list@, k + 1, b) && gedges.values().contains(
                        (global_node(gidx, wnodes, a), global_node(gidx, wnodes, b)),
                    ) by {
                    if b == w && wnodes.contains_key(a) {
                        let ga = global_node(gidx, wnodes, a);
                        assert(ga < u32::MAX);
                        if gedges.values().contains((ga, g as nat)) {
                            lemma_linked_source_is_listed(prevs@, gedges, ga as usize, g as nat);
                        }
                        if exists|m: int| 0 <= m < prevs.len() && prevs[m] as nat == ga {
                            let m = choose|m: int| 0 <= m < prevs.len() && prevs[m] as nat == ga;
                            lemma_listed_source_is_linked(prevs@, gedges, m, g as nat);
                        }
                    }
                    if listed_before(node_list@, k + 1, b) && !listed_before(node_list@, k as int, b) {
                        assert(b == w);
                    }
                    if b == w {
                        assert(listed_before(node_list@, k + 1, b));
                    }
                }
                assert(prevs@.take(prevs.len() as int) =~= prevs@);
                assert forall|a: nat, b: nat|
                    wnodes.contains_key(a) && wnodes.contains_key(b) implies #[trigger] edges_between(
                        graph_edges(world),
                        a,
                        b,
                    ).len() == if listed_before(node_list@, k + 1, b) {
                        edges_between(gedges, global_node(gidx, wnodes, a), global_node(gidx, wnodes, b)).len()
                    } else {
                        0
                    } by {
                    if listed_before(node_list@, k + 1, b) && !listed_before(node_list@, k as int, b) {
                        assert(b == w);
                    }
                    if b == w {
                        assert(listed_before(node_list@, k + 1, b));
                        let ga = global_node(gidx, wnodes, a);
                        assert(ga < u32::MAX);
                        assert((ga as usize) as nat == ga);
                    }
                }
                assert forall|e: nat|
                    #[trigger] consumed.union(into).contains(e) implies exists|m: int|
                        0 <= m < k + 1 && gedges[e].1 == global_node(gidx, wnodes, node_list[m] as nat) by {
                    if into.contains(e) {
                        assert(gedges[e].1 == global_node(gidx, wnodes, node_list[k as int] as nat));
                    } else {
                        let m = choose|m: int|
                            0 <= m < k && gedges[e].1 == global_node(gidx, wnodes, node_list[m] as nat);
                    }
                }
                consumed = consumed.union(into);
            }
            k += 1;
        }
        proof {
            lemma_links_acyclic_iff(gnodes, gedges, gidx);
            let chain_links = links_in(graph_edges(world), widx);
            let chain_systems = systems_in(wnodes, widx);
            assert forall|p: (u128, u128)| chain_links.contains(p) <==> self.links().contains(p)
                && chain_systems.contains_key(p.0) && chain_systems.contains_key(p.1) by {
                if widx.contains_key(p.0) && widx.contains_key(p.1) {
                    let a = widx[p.0] as nat;
                    let b = widx[p.1] as nat;
                    let mb = choose|m: int| 0 <= m < node_list.len() && node_list[m] == b;
                    assert(listed_before(node_list@, node_list.len() as int, b));
                    assert(global_node(gidx, wnodes, a) == gidx[p.0] as nat);
                    assert(global_node(gidx, wnodes, b) == gidx[p.1] as nat);
                }
            }
            assert(chain_links =~= self.links().filter(
                |p: (u128, u128)|
                    chain_systems.contains_key(p.0) && chain_systems.contains_key(p.1),
            ));
            lemma_acyclic_subset(self.links(), chain_links);
        }
        SystemsChain::new(world, not_found_systems, systems_with_build_error, world_idx)
    }
}

/// The links of a manager never form a cycle: no system runs, through a
/// chain of links, before itself.
pub proof fn law_links_acyclic(m: &SystemsFlowConfigurationManager)
    requires
        m.wf(),
    ensures
        acyclic(m.links()),
{
    lemma_links_acyclic_iff(graph_nodes(m.graph), graph_edges(m.graph), m.system_idx@);
}

/// Two systems are linked exactly when the link between them was added at
/// least once.
pub proof fn law_links_are_counted(m: &SystemsFlowConfigurationManager)
    requires
        m.wf(),
    ensures
        forall|a: u128, b: u128|
            #[trigger] m.links().contains((a, b)) <==> m.link_multiplicity(a, b) > 0,
{
    assert forall|a: u128, b: u128| #[trigger] m.links().contains((a, b)) <==> m.link_multiplicity(a, b)
        > 0 by {
        if m.system_idx@.contains_key(a) && m.system_idx@.contains_key(b) {
            lemma_between_nonempty(
                graph_edges(m.graph),
                m.system_idx@[a] as nat,
                m.system_idx@[b] as nat,
            );
        }
    }
}

/// Links join registered systems only, and each system is registered under
/// its own UUID.
pub proof fn law_links_join_registered(m: &SystemsFlowConfigurationManager)
    requires
        m.wf(),
    ensures
        forall|a: u128, b: u128|
            #[trigger] m.links().contains((a, b)) ==> m.systems().contains_key(a)
                && m.systems().contains_key(b),
        forall|u: u128| #[trigger] m.systems().contains_key(u) ==> m.systems()[u]@ == u,
{
}

/// After a registration that was accepted, looking the system up finds the
/// id that was registered, and the systems registered before are still
/// found with their ids.
pub proof fn law_register_then_lookup(
    before: &SystemsFlowConfigurationManager,
    after: &SystemsFlowConfigurationManager,
    system_id: SystemId,
)
    requires
        !before.systems().contains_key(system_id@),
        after.systems() == before.systems().insert(system_id@, system_id),
    ensures
        after.systems().contains_key(system_id@),
        after.systems()[system_id@] == system_id,
        forall|u: u128| #[trigger]
            before.systems().contains_key(u) ==> after.systems().contains_key(u)
                && after.systems()[u] == before.systems()[u],
{
}

/// Where the expected systems end up when a world is built: an id is listed
/// as not found exactly when it is expected and not registered; a UUID has a
/// recorded build error exactly when it is registered and some expected
/// system with it failed to build, and the error recorded is that of its last
/// failure. (The registered and built ones are the world's systems, as
/// `build_world_systems_manager` states.)
pub proof fn law_expected_system_placement(
    expected: Seq<ExpectedSystem>,
    registered: Map<u128, SystemId>,
)
    ensures
        forall|id: SystemId|
            #[trigger] unregistered_prefix(expected, registered, expected.len()).contains(id) <==> (
            exists|j: int| 0 <= j < expected.len() && expected[j].0 == id)
                && !registered.contains_key(id@),
        forall|u: u128|
            #[trigger] failed_builds(expected, registered, expected.len()).contains_key(u) <==> (
            registered.contains_key(u) && exists|j: int|
                0 <= j < expected.len() && expected[j].0@ == u && expected[j].1 is Err),
        forall|j: int|
            0 <= j < expected.len() && registered.contains_key(expected[j].0@) && expected[j].1 is Err
                && (forall|m: int|
                j < m < expected.len() ==> !(#[trigger] expected[m].0@ == expected[j].0@
                    && expected[m].1 is Err)) ==> failed_builds(expected, registered, expected.len())[
            expected[j].0@] == (expected[j].0, expected[j].1->Err_0),
{
    lemma_placement_prefix(expected, registered, expected.len());
}

proof fn lemma_placement_prefix(expected: Seq<ExpectedSystem>, registered: Map<u128, SystemId>, n: nat)
    requires
        n <= expected.len(),
    ensures
        forall|id: SystemId|
            #[trigger] unregistered_prefix(expected, registered, n).contains(id) <==> (exists|j: int|
                0 <= j < n && expected[j].0 == id) && !registered.contains_key(id@),
        forall|u: u128|
            #[trigger] failed_builds(expected, registered, n).contains_key(u) <==> (
            registered.contains_key(u) && exists|j: int|
                0 <= j < n && expected[j].0@ == u && expected[j].1 is Err),
        forall|j: int|
            0 <= j < n && registered.contains_key(expected[j].0@) && expected[j].1 is Err && (forall|
                m: int,
            |
                j < m < n ==> !(#[trigger] expected[m].0@ == expected[j].0@ && expected[m].1 is Err))
                ==> failed_builds(expected, registered, n)[expected[j].0@] == (
                expected[j].0,
                expected[j].1->Err_0,
            ),
    decreases n,
{
    if n > 0 {
        lemma_placement_prefix(expected, registered, (n - 1) as nat);
        let last = expected[n - 1].0;
        let nf = unregistered_prefix(expected, registered, (n - 1) as nat);
        assert forall|id: SystemId|
            #[trigger] unregistered_prefix(expected, registered, n).contains(id) <==> (exists|j: int|
                0 <= j < n && expected[j].0 == id) && !registered.contains_key(id@) by {
            if !registered.contains_key(last@) {
                if nf.push(last).contains(id) {
                    let i = choose|i: int| 0 <= i < nf.push(last).len() && nf.push(last)[i] == id;
                    if i < nf.len() {
                        assert(nf.contains(id));
                    }
                }
                if nf.contains(id) {
                    let i = choose|i: int| 0 <= i < nf.len() && nf[i] == id;
                    assert(nf.push(last)[i] == id);
                }
                assert(nf.push(last)[nf.len() as int] == last);
            }
            if exists|j: int| 0 <= j < n && expected[j].0 == id {
                let j = choose|j: int| 0 <= j < n && expected[j].0 == id;
                if j < n - 1 {
                    assert(exists|j: int| 0 <= j < n - 1 && expected[j].0 == id);
                }
            }
        }
        assert forall|u: u128|
            #[trigger] failed_builds(expected, registered, n).contains_key(u) <==> (
            registered.contains_key(u) && exists|j: int|
                0 <= j < n && expected[j].0@ == u && expected[j].1 is Err) by {
            let fp = failed_builds(expected, registered, (n - 1) as nat);
            if failed_builds(expected, registered, n).contains_key(u) && !fp.contains_key(u) {
                assert(expected[n - 1].0@ == u && expected[n - 1].1 is Err);
                assert(registered.contains_key(u));
            }
            if exists|j: int| 0 <= j < n && expected[j].0@ == u && expected[j].1 is Err {
                let j = choose|j: int| 0 <= j < n && expected[j].0@ == u && expected[j].1 is Err;
                if j < n - 1 {
                    assert(exists|j: int| 0 <= j < n - 1 && expected[j].0@ == u && expected[j].1 is Err);
                }
            }
        }
    }
}

impl Default for SystemsFlowConfigurationManager {
    fn default() -> (r: Self)
        ensures
            r.systems() == Map::<u128, SystemId>::empty(),
            r.links() == Set::<(u128, u128)>::empty(),
            r.link_total() == 0,
    {
        let system_idx: HashMap<u128, usize> = HashMap::new();
        let graph = graph_new();
        proof {
            assert(graph_nodes(graph) =~= Map::empty());
            assert(graph_edges(graph) =~= Map::empty());
            assert(system_idx@ =~= Map::empty());
            assert(graph_edges(graph).values() =~= Set::empty());
            lemma_empty_acyclic::<nat>();
        }
        let r = SystemsFlowConfigurationManager { system_idx, graph };
        proof {
            assert(r.systems() =~= Map::empty());
            assert(r.links() =~= Set::empty());
        }
        r
    }
}

} // verus!
