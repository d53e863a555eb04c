use vstd::prelude::*;

use std::collections::HashSet;

use crate::query::query::IQuery;
use crate::types::component_id::ComponentId;

verus! {

broadcast use vstd::std_specs::hash::group_hash_axioms;

/// Passes the entities that lack one component.
#[derive(Debug)]
pub struct Not {
    component_id: ComponentId,
}

impl View for Not {
    type V = ComponentId;

    /// The component that must be absent.
    closed spec fn view(&self) -> ComponentId {
        self.component_id
    }
}

impl Not {
    pub fn new(component_id: ComponentId) -> (r: Not)
        ensures
            r@ == component_id,
    {
        Not { component_id }
    }
}

impl IQuery for Not {
    open spec fn dependencies(&self) -> Set<u128> {
        Set::empty()
    }

    open spec fn accepts(&self, components: Set<u128>) -> bool {
        !components.contains(self@@)
    }

    fn get_dependencies(&mut self) -> (r: HashSet<u128>) {
        HashSet::new()
    }

    fn check(&mut self, components: &HashSet<u128>) -> (r: bool) {
        !components.contains(&self.component_id.uuid())
    }
}

/// A `Not` query passes an entity exactly when the entity lacks its
/// component, whatever else the entity has, and it reads no component.
pub proof fn law_not_passes_without_its_component(q: Not, components: Set<u128>)
    ensures
        q.accepts(components) <==> !components.contains(q@@),
        q.accepts(components.insert(q@@)) == false,
        q.accepts(components.remove(q@@)),
        q.dependencies() == Set::<u128>::empty(),
{
}

/// Several `Not` queries in a triple reject an entity that has the component
/// of any one of them, and pass one that has none of them.
pub proof fn law_nots_reject_any_of_their_components(q: (Not, Not, Not), components: Set<u128>)
    ensures
        q.accepts(components) <==> !components.contains(q.0@@) && !components.contains(q.1@@)
            && !components.contains(q.2@@),
{
}

} // verus!
