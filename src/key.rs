use vstd::prelude::*;

verus! {

/// Identifies one occupancy of one slot of an `ActorSystem`: the slot's
/// index and the generation that the slot had when the actor was added.
#[derive(Clone, Copy, Debug, PartialEq, Eq, Hash, Structural)]
pub struct ActorKey {
    pub index: usize,
    pub generation: usize,
}

/// The key that no allocation ever hands out.
pub open spec fn empty_key() -> ActorKey {
    ActorKey { index: usize::MAX, generation: usize::MAX }
}

impl ActorKey {
    /// The sentinel key, which refers to no actor.
    pub fn empty() -> (r: ActorKey)
        ensures
            r == empty_key(),
    {
        ActorKey { index: usize::MAX, generation: usize::MAX }
    }

    pub fn index(&self) -> (r: usize)
        ensures
            r == self.index,
    {
        self.index
    }

    pub fn generation(&self) -> (r: usize)
        ensures
            r == self.generation,
    {
        self.generation
    }

    pub fn is_empty(&self) -> (r: bool)
        ensures
            r == (*self == empty_key()),
    {
        self.index == usize::MAX && self.generation == usize::MAX
    }
}

} // verus!
