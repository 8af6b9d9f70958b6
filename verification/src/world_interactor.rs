//! Trait and implementation for [`WorldInteractor`]
use myelin_geometry::Aabb;
use crate::Snapshot;
use vstd::prelude::*;

verus! {

/// Provides information to an [`ObjectBehavior`] about
/// the world it is placed in.
///
/// [`ObjectBehavior`]: crate::object::ObjectBehavior
pub trait WorldInteractor {
    /// Scans for objects in the area defined by an [`Aabb`].
    ///
    /// Returns all objects either completely contained or intersecting
    /// with the area, or `None` when the world reports a body that is not
    /// an object of the simulation.
    fn find_objects_in_area(&self, area: Aabb) -> Option<Snapshot>;
}

/// Used by a [`WorldInteractor`]: implementors provide the actual code for the
/// performed actions.
pub trait Interactable {
    /// Returns read-only descriptions for all objects either completely
    /// contained or intersecting with the given area.
    fn objects_in_area(&self, area: Aabb) -> Snapshot;
}

} // verus!
