//! The physical environment of a simulation and the objects that reside within it.
use std::collections::HashMap;
use vstd::prelude::*;

pub mod associate_lists;
pub mod binary64;
pub mod collidable_container;
pub mod collision;
pub mod collision_detector;
pub mod geometry;
pub mod object;
pub mod object_builder;
pub mod physics_handler;
pub mod polygon_translator;
pub mod properties;
pub mod quadtree;
pub mod simulation_impl;
pub mod spawn_handler;
pub mod spawn_list;
pub mod traits;
pub mod world_interactor;

use crate::object::ObjectDescription;
use crate::simulation_impl::ActionError;
use myelin_geometry::Aabb;

verus! {

/// Unique identifier of an object
pub type Id = usize;

/// A representation of the current state of the simulation
pub type Snapshot = HashMap<Id, ObjectDescription>;

/// A Simulation that can be filled with objects on
/// which it will apply physical rules when calling [`step`].
/// This trait represents our API.
///
/// `N` is the scalar type in which time is measured and `B` is the type of the
/// objects' behaviors.
///
/// [`step`]: ./trait.Simulation.html#tymethod.step
pub trait Simulation<N, B> {
    /// Advance the simulation by one tick. This will apply
    /// forces to the objects, handle collisions and allow them to
    /// take action.
    ///
    /// # Errors
    /// Returns an error when an object's body could not be found within the world.
    fn step(&mut self) -> Result<(), ActionError>;

    /// Add a new object to the world.
    fn add_object(&mut self, object_description: ObjectDescription, object_behavior: B);

    /// Returns a read-only description of all objects currently inhabiting the simulation,
    /// or `None` when the world has lost the body of one of them.
    fn objects(&self) -> Option<Snapshot>;

    /// Returns read-only descriptions for all objects either completely
    /// contained or intersecting with the given area, or `None` when the world
    /// reports a body that is not an object of the simulation.
    fn objects_in_area(&self, area: Aabb) -> Option<Snapshot>;

    /// Sets how much time in seconds is simulated for each step.
    fn set_simulated_timestep(&mut self, timestep: N);
}

} // verus!
