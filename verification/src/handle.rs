//! Identity of the compositor's objects.
use vstd::prelude::*;

verus! {

/// The identity of one protocol object.
///
/// The compositor may give the numeric `id` of a destroyed object to a new
/// one; `generation` tells the two apart. Two handles name the same object
/// exactly when both fields agree.
#[derive(Clone, Copy, Debug, PartialEq, Eq, Structural, Hash)]
pub struct Handle {
    pub id: u32,
    pub generation: u64,
}

impl Handle {
    pub fn new(id: u32, generation: u64) -> (h: Handle)
        ensures
            h == (Handle { id, generation }),
    {
        Handle { id, generation }
    }

    /// The numeric id under which the object is known to the query front-end.
    pub fn protocol_id(&self) -> (id: u32)
        ensures
            id == self.id,
    {
        self.id
    }
}

/// Whether the optional reference `slot` currently names `h`.
pub fn names(slot: &Option<Handle>, h: Handle) -> (r: bool)
    ensures
        r == (*slot == Some(h)),
{
    match slot {
        Some(x) => *x == h,
        None => false,
    }
}

} // verus!
