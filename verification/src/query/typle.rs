//! Tuples of queries: a tuple passes when every part passes, and reads what
//! its parts read.
use vstd::prelude::*;

use std::collections::HashSet;

use crate::query::query::{IQuery, union_into};

verus! {

broadcast use vstd::std_specs::hash::group_hash_axioms;

impl IQuery for () {
    open spec fn dependencies(&self) -> Set<u128> {
        Set::empty()
    }

    open spec fn accepts(&self, components: Set<u128>) -> bool {
        true
    }

    fn get_dependencies(&mut self) -> (r: HashSet<u128>) {
        HashSet::new()
    }

    fn check(&mut self, components: &HashSet<u128>) -> (r: bool) {
        true
    }
}

impl<Q1: IQuery> IQuery for (Q1,) {
    open spec fn dependencies(&self) -> Set<u128> {
        self.0.dependencies()
    }

    open spec fn accepts(&self, components: Set<u128>) -> bool {
        self.0.accepts(components)
    }

    fn get_dependencies(&mut self) -> (r: HashSet<u128>) {
        self.0.get_dependencies()
    }

    fn check(&mut self, components: &HashSet<u128>) -> (r: bool) {
        self.0.check(components)
    }
}

impl<Q1: IQuery, Q2: IQuery> IQuery for (Q1, Q2) {
    open spec fn dependencies(&self) -> Set<u128> {
        self.0.dependencies().union(self.1.dependencies())
    }

    open spec fn accepts(&self, components: Set<u128>) -> bool {
        self.0.accepts(components) && self.1.accepts(components)
    }

    fn get_dependencies(&mut self) -> (r: HashSet<u128>) {
        let mut deps = self.0.get_dependencies();
        let more = self.1.get_dependencies();
        union_into(&mut deps, &more);
        deps
    }

    fn check(&mut self, components: &HashSet<u128>) -> (r: bool) {
        self.0.check(components) && self.1.check(components)
    }
}

impl<Q1: IQuery, Q2: IQuery, Q3: IQuery> IQuery for (Q1, Q2, Q3) {
    open spec fn dependencies(&self) -> Set<u128> {
        self.0.dependencies().union(self.1.dependencies()).union(self.2.dependencies())
    }

    open spec fn accepts(&self, components: Set<u128>) -> bool {
        self.0.accepts(components) && self.1.accepts(components) && self.2.accepts(components)
    }

    fn get_dependencies(&mut self) -> (r: HashSet<u128>) {
        let mut deps = self.0.get_dependencies();
        let more = self.1.get_dependencies();
        union_into(&mut deps, &more);
        let more = self.2.get_dependencies();
        union_into(&mut deps, &more);
        deps
    }

    fn check(&mut self, components: &HashSet<u128>) -> (r: bool) {
        self.0.check(components) && self.1.check(components) && self.2.check(components)
    }
}

impl<Q1: IQuery, Q2: IQuery, Q3: IQuery, Q4: IQuery> IQuery for (Q1, Q2, Q3, Q4) {
    open spec fn dependencies(&self) -> Set<u128> {
        self.0.dependencies().union(self.1.dependencies()).union(self.2.dependencies()).union(
            self.3.dependencies(),
        )
    }

    open spec fn accepts(&self, components: Set<u128>) -> bool {
        self.0.accepts(components) && self.1.accepts(components) && self.2.accepts(components)
            && self.3.accepts(components)
    }

    fn get_dependencies(&mut self) -> (r: HashSet<u128>) {
        let mut deps = self.0.get_dependencies();
        let more = self.1.get_dependencies();
        union_into(&mut deps, &more);
        let more = self.2.get_dependencies();
        union_into(&mut deps, &more);
        let more = self.3.get_dependencies();
        union_into(&mut deps, &more);
        deps
    }

    fn check(&mut self, components: &HashSet<u128>) -> (r: bool) {
        self.0.check(components) && self.1.check(components) && self.2.check(components)
            && self.3.check(components)
    }
}

/// The empty query passes every entity and reads nothing.
pub proof fn law_unit_query(components: Set<u128>)
    ensures
        ().accepts(components),
        ().dependencies() == Set::<u128>::empty(),
{
}

/// A one-part tuple passes and reads what its part does.
pub proof fn law_single_query<Q1: IQuery>(q: (Q1,), components: Set<u128>)
    ensures
        q.accepts(components) <==> q.0.accepts(components),
        q.dependencies() == q.0.dependencies(),
{
}

/// A pair passes an entity exactly when both parts pass it, and reads the
/// components that either part reads.
pub proof fn law_pair_query<Q1: IQuery, Q2: IQuery>(q: (Q1, Q2), components: Set<u128>)
    ensures
        q.accepts(components) <==> q.0.accepts(components) && q.1.accepts(components),
        forall|c: u128| #[trigger] q.dependencies().contains(c) <==> q.0.dependencies().contains(c)
            || q.1.dependencies().contains(c),
        q.0.dependencies().subset_of(q.dependencies()),
        q.1.dependencies().subset_of(q.dependencies()),
{
}

/// A triple passes an entity exactly when all three parts pass it, and
/// reads the components that any part reads.
pub proof fn law_triple_query<Q1: IQuery, Q2: IQuery, Q3: IQuery>(
    q: (Q1, Q2, Q3),
    components: Set<u128>,
)
    ensures
        q.accepts(components) <==> q.0.accepts(components) && q.1.accepts(components)
            && q.2.accepts(components),
        forall|c: u128| #[trigger] q.dependencies().contains(c) <==> q.0.dependencies().contains(c)
            || q.1.dependencies().contains(c) || q.2.dependencies().contains(c),
{
}

/// A quadruple passes an entity exactly when all four parts pass it, and
/// reads the components that any part reads.
pub proof fn law_quadruple_query<Q1: IQuery, Q2: IQuery, Q3: IQuery, Q4: IQuery>(
    q: (Q1, Q2, Q3, Q4),
    components: Set<u128>,
)
    ensures
        q.accepts(components) <==> q.0.accepts(components) && q.1.accepts(components)
            && q.2.accepts(components) && q.3.accepts(components),
        forall|c: u128| #[trigger] q.dependencies().contains(c) <==> q.0.dependencies().contains(c)
            || q.1.dependencies().contains(c) || q.2.dependencies().contains(c)
            || q.3.dependencies().contains(c),
{
}

} // verus!
