//! A container of collidables.
use crate::traits::Collidable;
use vstd::prelude::*;

verus! {

/// Keeps collidables under numeric identifiers.
///
/// `C` is the type of the collidables; `dyn Collidable` admits a mixed population.
pub trait CollidableContainer<C: Collidable + ?Sized> {
    fn collidables(&self) -> Vec<Box<C>>;

    fn add_collidable(&mut self, collidable: Box<C>) -> usize;

    fn remove_collidable(&mut self, collidable: usize);

    fn update_collidable(&mut self, id: usize, collidable: Box<C>);
}

} // verus!
