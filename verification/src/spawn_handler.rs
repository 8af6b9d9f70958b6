//! Spawning and despawning of collidables.
use crate::traits::Collidable;
use vstd::prelude::*;

verus! {

/// Brings collidables into the grid and takes them out again
pub trait SpawnHandler<C: Collidable + ?Sized> {
    fn spawn(&mut self, collidable: Box<C>) -> usize;

    fn despawn(&mut self, id: usize);
}

/// The grid's spawn handler
pub struct SpawnHandlerImpl;

} // verus!
