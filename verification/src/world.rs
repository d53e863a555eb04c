use vstd::prelude::*;

use std::collections::HashMap;

verus! {

/// The state that systems tick over: for each component type, by UUID, the
/// number the world keeps for it.
#[derive(Debug)]
pub struct World {
    components: HashMap<u128, u32>,
}

} // verus!
