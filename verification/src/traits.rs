//! Capabilities of the things that can collide in the grid world.
use vstd::prelude::*;

verus! {

/// Something with a position on the grid
pub trait Locatable {
    fn x(&self) -> u32;

    fn y(&self) -> u32;
}

/// Something with an extent
pub trait Rectangle {
    fn length(&self) -> u32;

    fn width(&self) -> u32;
}

/// Something that can collide: it has a position and an extent
pub trait Collidable: Locatable + Rectangle {

}

/// Keeps the collidables of the grid under numeric identifiers.
///
/// `C` is the type of the collidables; `dyn Collidable` admits a mixed population.
pub trait CollidableContainer<C: Collidable + ?Sized> {
    fn collidables() -> Vec<Box<C>>;

    fn add_collidable(collidable: Box<C>) -> usize;

    fn remove_collidable(collidable: usize);

    fn update_collidable(id: usize, collidable: Box<C>);
}

} // verus!
