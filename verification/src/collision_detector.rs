//! Detection of collisions between the objects of the grid.
use crate::properties::Object;
use vstd::prelude::*;

verus! {

/// Decides whether two objects collide
pub trait CollisionDetector {
    fn are_colliding(&self, first: &Object, second: &Object) -> bool;
}

/// Two objects that collide
#[derive(Debug, Clone)]
pub struct Collision<'a> {
    pub first: &'a Object,
    pub second: &'a Object,
}

/// Finds the collisions among the objects of a container
pub trait CollisionGatherer {
    fn gather_collisions<'a>(&self, container: &'a [Object]) -> Vec<Collision<'a>>;
}

} // verus!
