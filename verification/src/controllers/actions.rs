//! Actions for the controller of the storage units.

use vstd::prelude::*;
use crate::metadata::topic::SpuId;

verus! {

/// What the controller is to note about a storage unit: whether it is up.
#[derive(Debug, PartialEq, Eq, Clone, Copy, Structural)]
pub struct SpuAction {
    pub id: SpuId,
    pub status: bool,
}

impl SpuAction {
    /// The action that notes `status` for the storage unit `id`.
    pub fn new(id: SpuId, status: bool) -> (r: Self)
        ensures
            r == (SpuAction { id, status }),
    {
        SpuAction { id, status }
    }
}

} // verus!
