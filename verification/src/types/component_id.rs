use vstd::prelude::*;

use crate::types::uuid_value::{be_value, uuid_from_bytes};

verus! {

/// Identifies a component type by its UUID. The type name is kept for
/// display only: two ids are the same component when their UUIDs agree.
#[derive(Debug)]
pub struct ComponentId {
    uuid: u128,
    display_name: String,
}

impl View for ComponentId {
    type V = u128;

    /// A component id stands for its UUID.
    closed spec fn view(&self) -> u128 {
        self.uuid
    }
}

impl ComponentId {
    /// The type name that this id carries.
    pub closed spec fn name(&self) -> Seq<char> {
        self.display_name@
    }

    pub fn new(id: u128, display_name: String) -> (r: ComponentId)
        ensures
            r@ == id,
            r.name() == display_name@,
    {
        ComponentId { uuid: id, display_name }
    }

    /// The id of a component type whose UUID is given as its sixteen bytes.
    pub fn from(uuid_bytes: [u8; 16], display_name: String) -> (r: ComponentId)
        ensures
            r@ as nat == be_value(uuid_bytes@),
            r.name() == display_name@,
    {
        ComponentId { uuid: uuid_from_bytes(uuid_bytes), display_name }
    }

    pub fn type_info(&self) -> (r: String)
        ensures
            r@ == self.name(),
    {
        self.display_name.clone()
    }

    pub fn uuid(&self) -> (r: u128)
        ensures
            r == self@,
    {
        self.uuid
    }
}

impl Clone for ComponentId {
    fn clone(&self) -> (r: Self)
        ensures
            r == *self,
    {
        ComponentId { uuid: self.uuid, display_name: self.display_name.clone() }
    }
}

impl PartialEq for ComponentId {
    fn eq(&self, other: &Self) -> (r: bool) {
        self.uuid == other.uuid
    }
}

impl Eq for ComponentId {
}

/// Ids are ordered by their UUIDs.
impl PartialOrd for ComponentId {
    fn partial_cmp(&self, other: &Self) -> (r: Option<core::cmp::Ordering>) {
        if self.uuid < other.uuid {
            Some(core::cmp::Ordering::Less)
        } else if self.uuid == other.uuid {
            Some(core::cmp::Ordering::Equal)
        } else {
            Some(core::cmp::Ordering::Greater)
        }
    }
}

impl vstd::std_specs::cmp::PartialOrdSpecImpl for ComponentId {
    open spec fn obeys_partial_cmp_spec() -> bool {
        true
    }

    open spec fn partial_cmp_spec(&self, other: &Self) -> Option<core::cmp::Ordering> {
        if self@ < other@ {
            Some(core::cmp::Ordering::Less)
        } else if self@ == other@ {
            Some(core::cmp::Ordering::Equal)
        } else {
            Some(core::cmp::Ordering::Greater)
        }
    }
}

/// Hashes the UUID alone, as equality compares the UUID alone.
impl core::hash::Hash for ComponentId {
    /// Feeds the UUID to `state` through `u128`'s `Hash::hash`; nothing is
    /// claimed of what the hasher computes.
    #[verifier::external_body]
    fn hash<H: core::hash::Hasher>(&self, state: &mut H) {
        self.uuid.hash(state);
    }
}

impl vstd::std_specs::cmp::PartialEqSpecImpl for ComponentId {
    open spec fn obeys_eq_spec() -> bool {
        true
    }

    open spec fn eq_spec(&self, other: &Self) -> bool {
        self@ == other@
    }
}

} // verus!
