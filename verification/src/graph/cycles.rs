use vstd::prelude::*;

verus! {

/// The pair of consecutive elements of `walk` that starts at position `i`.
pub open spec fn step<T>(walk: Seq<T>, i: int) -> (T, T) {
    (walk[i], walk[i + 1])
}

/// `walk` follows `links` from its first element back to that same element,
/// taking at least one link.
pub open spec fn is_closed_walk<T>(links: Set<(T, T)>, walk: Seq<T>) -> bool {
    &&& walk.len() >= 2
    &&& walk[0] == walk.last()
    &&& forall|i: int| 0 <= i < walk.len() - 1 ==> links.contains(#[trigger] step(walk, i))
}

/// No walk along `links` comes back to where it started.
pub open spec fn acyclic<T>(links: Set<(T, T)>) -> bool {
    forall|walk: Seq<T>| !#[trigger] is_closed_walk(links, walk)
}

/// The directed graph whose edges are the values of `edges` (edge index to
/// `(from, to)`) contains a cycle.
pub open spec fn has_cycle(edges: Map<nat, (nat, nat)>) -> bool {
    !acyclic(edges.values())
}

/// When `g` sends every link of `q` to a link of `r`, a cycle of `q` would be
/// sent to a cycle of `r`; so `q` is acyclic whenever `r` is.
pub proof fn lemma_acyclic_pullback<A, B>(r: Set<(A, A)>, q: Set<(B, B)>, g: spec_fn(B) -> A)
    requires
        acyclic(r),
        forall|x: B, y: B| #[trigger] q.contains((x, y)) ==> r.contains((g(x), g(y))),
    ensures
        acyclic(q),
{
    assert forall|walk: Seq<B>| !#[trigger] is_closed_walk(q, walk) by {
        if is_closed_walk(q, walk) {
            let w = walk.map_values(g);
            assert forall|i: int| 0 <= i < w.len() - 1 implies r.contains(#[trigger] step(w, i)) by {
                assert(q.contains(step(walk, i)));
                assert(q.contains((walk[i], walk[i + 1])));
            }
            assert(is_closed_walk(r, w));
        }
    }
}

/// Links taken from an acyclic set of links are acyclic.
pub proof fn lemma_acyclic_subset<A>(r: Set<(A, A)>, q: Set<(A, A)>)
    requires
        acyclic(r),
        q.subset_of(r),
    ensures
        acyclic(q),
{
    lemma_acyclic_pullback(r, q, |a: A| a);
}

/// No walk follows links when there are none.
pub proof fn lemma_empty_acyclic<A>()
    ensures
        acyclic(Set::<(A, A)>::empty()),
{
    assert forall|walk: Seq<A>| !#[trigger] is_closed_walk(Set::<(A, A)>::empty(), walk) by {
        if is_closed_walk(Set::<(A, A)>::empty(), walk) {
            assert(Set::<(A, A)>::empty().contains(step(walk, 0)));
        }
    }
}

} // verus!
