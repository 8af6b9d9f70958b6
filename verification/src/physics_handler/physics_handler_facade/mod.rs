//! A [`PhysicsHandler`] that hands movement and collisions to two separate components.
use self::movement_applier_impl::stays_in_bounds;
use super::PhysicsHandler;
use crate::properties::Object;
use vstd::prelude::*;

pub mod collision_handler_impl;
pub mod movement_applier_impl;

verus! {

/// Resolves the collisions of an object
pub trait CollisionHandler {
    /// Resolves the collisions of `object` with the objects in `collisions`
    fn handle_collisions(&self, object: &Object, collisions: &[&Object]) -> Object;
}

/// Moves an object
pub trait MovementApplier {
    /// Moves `object` by its movement vector.
    ///
    /// Only objects that stay within the grid can be moved.
    fn apply_movement(&self, object: &Object) -> Object
        requires
            stays_in_bounds(*object),
    ;
}

/// A [`PhysicsHandler`] that passes movement on to a [`MovementApplier`] and
/// collisions on to a [`CollisionHandler`]
pub struct PhysicsHandlerFacade<M, C> {
    movement_applier: M,
    collision_handler: C,
}

impl<M: MovementApplier, C: CollisionHandler> PhysicsHandlerFacade<M, C> {
    /// The component that moves objects
    pub closed spec fn movement_applier_spec(&self) -> M {
        self.movement_applier
    }

    /// The component that resolves collisions
    pub closed spec fn collision_handler_spec(&self) -> C {
        self.collision_handler
    }

    pub fn new(movement_applier: M, collision_handler: C) -> (facade: Self)
        ensures
            facade.movement_applier_spec() == movement_applier,
            facade.collision_handler_spec() == collision_handler,
    {
        Self { movement_applier, collision_handler }
    }
}

impl<M: MovementApplier, C: CollisionHandler> PhysicsHandler for PhysicsHandlerFacade<M, C> {
    /// Passes `object` and `collisions` on to the collision handler and returns its answer
    fn handle_collisions(&self, object: &Object, collisions: &[&Object]) -> (handled: Object)
        ensures
            call_ensures(
                C::handle_collisions,
                (&self.collision_handler_spec(), object, collisions),
                handled,
            ),
    {
        self.collision_handler.handle_collisions(object, collisions)
    }

    /// Passes `object` on to the movement applier and returns its answer
    fn apply_movement(&self, object: &Object) -> (moved: Object)
        ensures
            call_ensures(M::apply_movement, (&self.movement_applier_spec(), object), moved),
    {
        self.movement_applier.apply_movement(object)
    }
}

} // verus!
