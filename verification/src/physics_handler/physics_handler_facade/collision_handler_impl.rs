//! The collision handler of the grid world.
use vstd::prelude::*;

verus! {

/// Resolves collisions between the objects of the grid
#[derive(Debug, Default)]
pub struct CollisionHandlerImpl;

impl CollisionHandlerImpl {
    pub fn new() -> (collision_handler: Self)
        ensures
            collision_handler == CollisionHandlerImpl,
    {
        Self {}
    }
}

} // verus!
