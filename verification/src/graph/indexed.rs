use vstd::prelude::*;

use crate::graph::cycles::{acyclic, lemma_acyclic_pullback};
use crate::graph::stable::edges_between;
use crate::types::system_id::SystemId;

verus! {

/// The systems of a graph whose nodes carry system ids, with `idx` sending
/// each system's UUID to its node: UUID to the id stored at that node.
pub open spec fn systems_in(nodes: Map<nat, SystemId>, idx: Map<u128, usize>) -> Map<u128, SystemId> {
    Map::new(|u: u128| idx.contains_key(u), |u: u128| nodes[idx[u] as nat])
}

/// The links between systems: `(a, b)` when both are indexed and some edge
/// runs from the node of `a` to the node of `b`.
pub open spec fn links_in(edges: Map<nat, (nat, nat)>, idx: Map<u128, usize>) -> Set<(u128, u128)> {
    Set::new(
        |p: (u128, u128)|
            idx.contains_key(p.0) && idx.contains_key(p.1) && edges.values().contains(
                (idx[p.0] as nat, idx[p.1] as nat),
            ),
    )
}

/// How many edges run from the node of system `a` to the node of system `b`:
/// the number of times the link from `a` to `b` was added; zero when either
/// is not indexed.
pub open spec fn multiplicity_in(edges: Map<nat, (nat, nat)>, idx: Map<u128, usize>, a: u128, b: u128) -> nat {
    if idx.contains_key(a) && idx.contains_key(b) {
        edges_between(edges, idx[a] as nat, idx[b] as nat).len()
    } else {
        0
    }
}

/// An edge joins `x` to `y` exactly when there is at least one such edge.
pub proof fn lemma_between_nonempty(edges: Map<nat, (nat, nat)>, x: nat, y: nat)
    requires
        edges.dom().finite(),
    ensures
        edges_between(edges, x, y).len() > 0 <==> edges.values().contains((x, y)),
        edges_between(edges, x, y).finite(),
{
    let s = edges_between(edges, x, y);
    if edges.values().contains((x, y)) {
        let e = choose|e: nat| edges.contains_key(e) && edges[e] == (x, y);
        assert(s.contains(e));
    }
    if s.len() > 0 {
        if s.is_empty() {
            assert(s =~= Set::empty());
        }
        let e = s.choose();
        assert(edges.contains_key(e) && edges[e] == (x, y));
    }
}

/// Adding a fresh edge adds one to the count between its endpoints and
/// leaves the other counts alone.
pub proof fn lemma_between_insert(edges: Map<nat, (nat, nat)>, e: nat, p: (nat, nat), x: nat, y: nat)
    requires
        edges.dom().finite(),
        !edges.contains_key(e),
    ensures
        edges_between(edges.insert(e, p), x, y).len() == edges_between(edges, x, y).len() + (if p == (
            x,
            y,
        ) {
            1int
        } else {
            0int
        }),
{
    let before = edges_between(edges, x, y);
    let after = edges_between(edges.insert(e, p), x, y);
    if p == (x, y) {
        assert(after =~= before.insert(e));
    } else {
        assert(after =~= before);
    }
}

/// `idx` and the node map are inverse to each other, every edge joins two
/// nodes, and every node index fits the graph's `u32` indices.
pub open spec fn indexed_wf(
    nodes: Map<nat, SystemId>,
    edges: Map<nat, (nat, nat)>,
    idx: Map<u128, usize>,
) -> bool {
    &&& nodes.dom().finite()
    &&& edges.dom().finite()
    &&& idx.dom().finite()
    &&& nodes.len() == idx.len()
    &&& idx.len() <= u32::MAX
    &&& edges.len() <= u32::MAX
    &&& forall|i: nat|
        #[trigger] nodes.contains_key(i) ==> i < u32::MAX && idx.contains_key(nodes[i]@) && idx[nodes[i]@]
            == i
    &&& forall|u: u128|
        #[trigger] idx.contains_key(u) ==> nodes.contains_key(idx[u] as nat) && nodes[idx[u] as nat]@
            == u
    &&& forall|e: nat|
        #[trigger] edges.contains_key(e) ==> nodes.contains_key(edges[e].0) && nodes.contains_key(
            edges[e].1,
        )
}

/// The node graph has a cycle exactly when the links between systems do.
pub proof fn lemma_links_acyclic_iff(
    nodes: Map<nat, SystemId>,
    edges: Map<nat, (nat, nat)>,
    idx: Map<u128, usize>,
)
    requires
        indexed_wf(nodes, edges, idx),
    ensures
        acyclic(edges.values()) <==> acyclic(links_in(edges, idx)),
{
    let links = links_in(edges, idx);
    if acyclic(edges.values()) {
        lemma_acyclic_pullback(edges.values(), links, |u: u128| idx[u] as nat);
    }
    if acyclic(links) {
        assert forall|a: nat, b: nat| #[trigger] edges.values().contains((a, b)) implies links.contains(
            (nodes[a]@, nodes[b]@),
        ) by {
            let e = choose|e: nat| edges.contains_key(e) && edges[e] == (a, b);
            assert(nodes.contains_key(a) && nodes.contains_key(b));
        }
        lemma_acyclic_pullback(links, edges.values(), |i: nat| nodes[i]@);
    }
}

/// Adding a node for a system that has none keeps the model well formed,
/// adds that system, and adds no link.
pub proof fn lemma_add_node(
    nodes: Map<nat, SystemId>,
    edges: Map<nat, (nat, nat)>,
    idx: Map<u128, usize>,
    i: usize,
    id: SystemId,
)
    requires
        indexed_wf(nodes, edges, idx),
        i < u32::MAX,
        idx.len() < u32::MAX,
        !nodes.contains_key(i as nat),
        !idx.contains_key(id@),
    ensures
        indexed_wf(nodes.insert(i as nat, id), edges, idx.insert(id@, i)),
        systems_in(nodes.insert(i as nat, id), idx.insert(id@, i)) == systems_in(nodes, idx).insert(
            id@,
            id,
        ),
        links_in(edges, idx.insert(id@, i)) == links_in(edges, idx),
        forall|u: u128, v: u128|
            #[trigger] multiplicity_in(edges, idx.insert(id@, i), u, v) == multiplicity_in(edges, idx, u, v),
{
    assert forall|u: u128, v: u128|
        #[trigger] multiplicity_in(edges, idx.insert(id@, i), u, v) == multiplicity_in(edges, idx, u, v) by {
        let idx2 = idx.insert(id@, i);
        if idx2.contains_key(u) && idx2.contains_key(v) && (u == id@ || v == id@) {
            let s = edges_between(edges, idx2[u] as nat, idx2[v] as nat);
            assert forall|e: nat| !s.contains(e) by {
                if s.contains(e) {
                    assert(nodes.contains_key(edges[e].0) && nodes.contains_key(edges[e].1));
                }
            }
            assert(s =~= Set::empty());
        }
    }
    let nodes2 = nodes.insert(i as nat, id);
    let idx2 = idx.insert(id@, i);
    assert(nodes2.len() == nodes.len() + 1);
    assert(idx2.len() == idx.len() + 1);
    assert forall|j: nat| #[trigger] nodes2.contains_key(j) implies j < u32::MAX && idx2.contains_key(
        nodes2[j]@,
    ) && idx2[nodes2[j]@] == j by {
        if j != i as nat {
            assert(nodes.contains_key(j));
            assert(nodes[j]@ != id@);
        }
    }
    assert(systems_in(nodes2, idx2) =~= systems_in(nodes, idx).insert(id@, id));
    assert forall|p: (u128, u128)| links_in(edges, idx2).contains(p) <==> links_in(edges, idx).contains(
        p,
    ) by {
        if p.0 == id@ || p.1 == id@ {
            if edges.values().contains((idx2[p.0] as nat, idx2[p.1] as nat)) {
                let e = choose|e: nat|
                    edges.contains_key(e) && edges[e] == (idx2[p.0] as nat, idx2[p.1] as nat);
                assert(nodes.contains_key(edges[e].0) && nodes.contains_key(edges[e].1));
            }
        }
    }
    assert(links_in(edges, idx2) =~= links_in(edges, idx));
}

/// Adding an edge between the nodes of two systems keeps the model well
/// formed and adds exactly the link between those systems.
pub proof fn lemma_add_edge(
    nodes: Map<nat, SystemId>,
    edges: Map<nat, (nat, nat)>,
    idx: Map<u128, usize>,
    e: nat,
    a: nat,
    b: nat,
)
    requires
        indexed_wf(nodes, edges, idx),
        !edges.contains_key(e),
        edges.len() < u32::MAX,
        nodes.contains_key(a),
        nodes.contains_key(b),
    ensures
        indexed_wf(nodes, edges.insert(e, (a, b)), idx),
        edges.insert(e, (a, b)).values() == edges.values().insert((a, b)),
        links_in(edges.insert(e, (a, b)), idx) == links_in(edges, idx).insert((nodes[a]@, nodes[b]@)),
        forall|u: u128, v: u128|
            #[trigger] multiplicity_in(edges.insert(e, (a, b)), idx, u, v) == multiplicity_in(edges, idx, u, v)
                + (if u == nodes[a]@ && v == nodes[b]@ {
                1int
            } else {
                0int
            }),
{
    assert forall|u: u128, v: u128|
        #[trigger] multiplicity_in(edges.insert(e, (a, b)), idx, u, v) == multiplicity_in(edges, idx, u, v)
            + (if u == nodes[a]@ && v == nodes[b]@ {
            1int
        } else {
            0int
        }) by {
        if idx.contains_key(u) && idx.contains_key(v) {
            lemma_between_insert(edges, e, (a, b), idx[u] as nat, idx[v] as nat);
        }
    }
    let edges2 = edges.insert(e, (a, b));
    assert(edges2.len() == edges.len() + 1);
    assert forall|v: (nat, nat)| #[trigger] edges2.values().contains(v) <==> edges.values().insert(
        (a, b),
    ).contains(v) by {
        if edges.values().contains(v) {
            let k = choose|k: nat| edges.contains_key(k) && edges[k] == v;
            assert(edges2.contains_key(k) && edges2[k] == v);
        }
        if v == (a, b) {
            assert(edges2.contains_key(e) && edges2[e] == v);
        }
    }
    assert(edges2.values() =~= edges.values().insert((a, b)));
    assert(links_in(edges2, idx) =~= links_in(edges, idx).insert((nodes[a]@, nodes[b]@)));
}

} // verus!
