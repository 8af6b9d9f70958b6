//! Default implementation of [`WorldInteractor`].
use super::{answers_area, data_view, describe_bodies_in_area, snapshot_view, World};
use crate::world_interactor::WorldInteractor;
use crate::Snapshot;
use myelin_geometry::Aabb;
use std::collections::HashMap;
use vstd::prelude::*;

verus! {

/// Default implementation of [`WorldInteractor`]: it answers from the world of a
/// simulation and the data that the simulation associates with its objects.
#[derive(Debug)]
pub struct WorldInteractorImpl<'a, W> {
    world: &'a W,
    associated_data: &'a HashMap<usize, Vec<u8>>,
}

impl<'a, W: World> WorldInteractorImpl<'a, W> {
    /// The world that the interactor searches
    pub closed spec fn world_spec(&self) -> W {
        *self.world
    }

    /// The objects that the interactor knows of: their handles and associated data
    pub closed spec fn objects_spec(&self) -> Map<usize, Seq<u8>> {
        data_view(self.associated_data@)
    }

    /// Creates a new instance of [`WorldInteractorImpl`].
    pub fn new(world: &'a W, associated_data: &'a HashMap<usize, Vec<u8>>) -> (interactor: Self)
        ensures
            interactor.world_spec() == *world,
            interactor.objects_spec() == data_view(associated_data@),
    {
        WorldInteractorImpl { world, associated_data }
    }
}

impl<'a, W: World> WorldInteractor for WorldInteractorImpl<'a, W> {
    /// Answers as the simulation's `objects_in_area` does for the same world and objects
    fn find_objects_in_area(&self, area: Aabb) -> (snapshot: Option<Snapshot>)
        ensures
            answers_area(self.world_spec(), self.objects_spec(), area, snapshot_view(snapshot)),
    {
        describe_bodies_in_area(self.world, self.associated_data, area)
    }
}

} // verus!
