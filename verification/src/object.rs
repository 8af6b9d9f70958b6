//! Objects that can be placed in a simulation and their components.
//! You can construct an [`ObjectDescription`] by using an [`ObjectBuilder`].
//!
//! [`ObjectBuilder`]: crate::object_builder::ObjectBuilder
use myelin_geometry::{Point, Polygon, Radians, Vector};
use crate::world_interactor::WorldInteractor;
use crate::Id;
use vstd::prelude::*;

verus! {

/// Behavior of an object.
///
/// `N` is the scalar type of the physical world in which the object lives, and `B` is the
/// type of the behaviors that newly spawned objects receive (usually a boxed behavior).
///
/// Its contract speaks of the choices a behavior may make: an implementation defines
/// [`chooses`] to describe them; for one that does not, it stays opaque.
///
/// [`chooses`]: ./trait.ObjectBehavior.html#method.chooses
pub trait ObjectBehavior<N, B> {
    /// The state of this behavior as specifications see it; an implementation defines it to
    /// state its contract, for one that does not it stays opaque
    #[verifier::opaque]
    closed spec fn behavior_state(&self) -> int {
        arbitrary()
    }

    /// Whether this behavior, seeing its object described as `own_description`, may choose
    /// `chosen` and be left in the state `after`
    #[verifier::opaque]
    closed spec fn chooses(
        &self,
        own_description: ObjectDescription,
        chosen: Option<Action<N, B>>,
        after: int,
    ) -> bool {
        arbitrary()
    }

    /// Returns the action performed by the object
    /// in the current simulation tick, if any
    fn step(
        &mut self,
        own_description: &ObjectDescription,
        world_interactor: &dyn WorldInteractor,
    ) -> (chosen: Option<Action<N, B>>)
        ensures
            old(self).chooses(*own_description, chosen, final(self).behavior_state()),
    ;
}

/// Possible actions performed by an object
/// during a simulation step
#[derive(Debug)]
pub enum Action<N, B> {
    /// Apply the specified force to the object
    ApplyForce(Force<N>),
    /// Create a new object with the specified description and behavior
    Spawn(ObjectDescription, B),
    /// Destroys another object
    Destroy(Id),
    /// Destroy the object
    DestroySelf,
}

impl<N: Clone, B: Clone> Clone for Action<N, B> {
    fn clone(&self) -> (copy: Action<N, B>) {
        match self {
            Action::ApplyForce(force) => Action::ApplyForce(force.clone()),
            Action::Spawn(object_description, object_behavior) => Action::Spawn(
                object_description.clone(),
                object_behavior.clone(),
            ),
            Action::Destroy(id) => Action::Destroy(*id),
            Action::DestroySelf => Action::DestroySelf,
        }
    }
}

/// The behaviourless description of an object that has
/// been placed inside a simulation.
#[derive(Debug, PartialEq, Clone)]
pub struct ObjectDescription {
    /// The vertices defining the shape of the object
    /// in relation to its [`location`]
    ///
    /// [`location`]: ./struct.ObjectDescription.html#structfield.location
    pub shape: Polygon,
    /// The global location of the center of the object
    pub location: Point,
    /// The object's rotation
    pub rotation: Radians,
    /// The current velocity of the object, defined
    /// as a two dimensional vector relative to the
    /// objects center
    pub mobility: Mobility,
    /// Whether the object is passable or not
    pub passable: bool,
    /// Arbitrary data associated with this object
    pub associated_data: Vec<u8>,
}

/// An object's mobility and, if present, its
/// current velocity as a vector
#[derive(Debug, PartialEq, Clone, Copy)]
pub enum Mobility {
    /// The object cannot have any velocity as
    /// it cannot be moved.
    Immovable,
    /// A movable object's current velocity.
    Movable(Vector),
}

/// Combination of a linear force and its torque,
/// resulting in a rotated force applied to an object
#[derive(Debug, PartialEq, Clone, Default)]
pub struct Force<N> {
    /// The linear component of the [`Force`]
    pub linear: Vector,
    /// The torque (rotation) component of the [`Force`]
    pub torque: Torque<N>,
}

/// Force of rotation
#[derive(Debug, PartialEq, Clone, Default)]
pub struct Torque<N>(pub N);

} // verus!
