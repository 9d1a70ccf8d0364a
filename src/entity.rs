use vstd::prelude::*;

verus! {

/// An opaque identifier; two entities are the same exactly when their ids are.
#[derive(Debug, Clone, Copy, PartialEq, Eq, Hash, Structural)]
pub struct Entity {
    pub id: u32,
}

impl Entity {
    pub fn new(id: u32) -> (r: Entity)
        ensures
            r.id == id,
    {
        Entity { id }
    }
}

} // verus!
