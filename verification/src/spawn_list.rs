//! Pending spawns and despawns.
use crate::traits::Collidable;
use vstd::prelude::*;

verus! {

/// A pending change of the grid's population
pub enum SpawnHandlerJob<C: Collidable + ?Sized> {
    Spawn(Box<C>),
    DespawnId(usize),
}

/// Collects spawns and despawns
pub trait SpawnList<C: Collidable + ?Sized> {
    fn spawn(&mut self, collidable: Box<C>) -> usize;

    fn despawn(&mut self, id: usize);
}

/// The grid's spawn list
pub struct SpawnListImpl;

} // verus!
