//! Translation of an object's shape into the polygon it covers.
use crate::object::ObjectDescription;
use myelin_geometry::Polygon;
use vstd::prelude::*;

verus! {

/// Gives the polygon that an object covers
pub trait PolygonTranslator {
    fn global_vertices(&self, object: &ObjectDescription) -> Polygon;
}

/// A [`PolygonTranslator`] that takes the vertices of the object's shape as they are
pub struct NAlgebraPolygonTranslator;

impl PolygonTranslator for NAlgebraPolygonTranslator {
    fn global_vertices(&self, object: &ObjectDescription) -> (polygon: Polygon)
        ensures
            polygon == object.shape,
    {
        object.shape.clone()
    }
}

} // verus!
