//! Plain properties of the objects of a grid-based world: where they are,
//! how large they are, how they move and what they are.
use vstd::prelude::*;

verus! {

/// A position on the grid
#[derive(Debug, Clone, Copy, PartialEq, Eq, Structural)]
pub struct Location {
    pub x: u32,
    pub y: u32,
}

impl Location {
    pub fn new(x: u32, y: u32) -> (location: Self)
        ensures
            location == (Location { x, y }),
    {
        Self { x, y }
    }
}

/// The extent of an object
#[derive(Debug, Clone, Copy, PartialEq, Eq, Structural)]
pub struct Rectangle {
    /// Corresponds to x
    pub width: u32,
    /// Corresponds to y
    pub length: u32,
}

impl Rectangle {
    pub fn new(width: u32, length: u32) -> (rectangle: Self)
        ensures
            rectangle == (Rectangle { width, length }),
    {
        Self { width, length }
    }
}

/// The distance an object covers in one step
#[derive(Debug, Clone, Copy, PartialEq, Eq, Structural)]
pub struct MovementVector {
    pub x: i32,
    pub y: i32,
}

impl Default for MovementVector {
    fn default() -> (movement: Self)
        ensures
            movement == (MovementVector { x: 0, y: 0 }),
    {
        MovementVector { x: 0, y: 0 }
    }
}

/// What an object is
#[derive(Debug, Clone, Copy, PartialEq, Eq, Structural)]
pub enum Kind {
    Organism,
    Wall,
    Plant,
    Water,
}

/// An object of the grid
#[derive(Debug, Clone, Copy, PartialEq, Eq, Structural)]
pub struct Object {
    pub location: Location,
    pub rectangle: Rectangle,
    pub movement: MovementVector,
    pub kind: Kind,
}

/// Identifies an object
#[derive(Debug, Copy, Clone)]
pub struct ObjectId(pub(crate) usize);

} // verus!
