use vstd::prelude::*;

use std::collections::HashSet;
use vstd::std_specs::iter::IteratorSpec;

verus! {

broadcast use vstd::std_specs::hash::group_hash_axioms;

/// A filter over the component sets of entities. Components are named by
/// their UUIDs.
pub trait IQuery {
    /// The components whose values the query reads.
    spec fn dependencies(&self) -> Set<u128>;

    /// Whether an entity that has exactly the components `components` passes.
    spec fn accepts(&self, components: Set<u128>) -> bool;

    fn get_dependencies(&mut self) -> (r: HashSet<u128>)
        ensures
            r@ == old(self).dependencies(),
    ;

    fn check(&mut self, components: &HashSet<u128>) -> (r: bool)
        ensures
            r == old(self).accepts(components@),
    ;
}

/// Adds every element of `more` to `deps`.
pub fn union_into(deps: &mut HashSet<u128>, more: &HashSet<u128>)
    ensures
        final(deps)@ == old(deps)@.union(more@),
{
    let ghost start = deps@;
    let iter = more.iter();
    proof {
        assert(iter.remaining().unref().to_set() == more@);
    }
    for x in it: iter
        invariant
            it.seq().unref().to_set() == more@,
            it.seq().unref().take(it.seq().len() as int) == it.seq().unref(),
            deps@ == start.union(it.seq().unref().take(it.index()).to_set()),
    {
        proof {
            assert(0 <= it.index() < it.seq().len());
            assert(*x == it.seq()[it.index()]);
            assert(it.seq().unref().take(it.index() + 1) =~= it.seq().unref().take(it.index()).push(*x));
        }
        deps.insert(*x);
    }
}

} // verus!
