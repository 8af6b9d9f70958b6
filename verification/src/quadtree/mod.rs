//! Spatial partitioning of the grid.
pub mod builder;
