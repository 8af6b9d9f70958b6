//! Physics of the grid world: moving objects and resolving their collisions.
use crate::physics_handler::physics_handler_facade::movement_applier_impl::stays_in_bounds;
use crate::properties::Object;
use vstd::prelude::*;

pub mod physics_handler_facade;

verus! {

/// Applies physical rules to the objects of the grid
pub trait PhysicsHandler {
    /// Resolves the collisions of `object` with the objects in `collisions`
    fn handle_collisions(&self, object: &Object, collisions: &[&Object]) -> Object;

    /// Moves `object` by its movement vector.
    ///
    /// Only objects that stay within the grid can be moved.
    fn apply_movement(&self, object: &Object) -> Object
        requires
            stays_in_bounds(*object),
    ;
}

} // verus!
