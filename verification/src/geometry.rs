//! The two-dimensional geometry that objects are described with.
//!
//! Points, vectors, rotations, polygons and bounding boxes come from `myelin_geometry`.
//! The simulation never looks inside them: it only hands them on between the
//! descriptions of objects and the physical world.
use vstd::prelude::*;
use myelin_geometry::Radians;

verus! {

/// A point in the plane (`myelin_geometry::Point`).
#[verifier::external_type_specification]
#[verifier::external_body]
pub struct ExPoint(myelin_geometry::Point);

/// A vector in the plane (`myelin_geometry::Vector`).
#[verifier::external_type_specification]
#[verifier::external_body]
pub struct ExVector(myelin_geometry::Vector);

/// An angle in the range [0; 2π) (`myelin_geometry::Radians`).
#[verifier::external_type_specification]
#[verifier::external_body]
pub struct ExRadians(myelin_geometry::Radians);

/// A convex polygon (`myelin_geometry::Polygon`).
#[verifier::external_type_specification]
#[verifier::external_body]
pub struct ExPolygon(myelin_geometry::Polygon);

/// An axis-aligned bounding box (`myelin_geometry::Aabb`).
#[verifier::external_type_specification]
#[verifier::external_body]
pub struct ExAabb(myelin_geometry::Aabb);

/// `Polygon::clone` (derived in `myelin_geometry`) returns a polygon equal to the one it copies.
pub assume_specification[ <myelin_geometry::Polygon as Clone>::clone ](polygon: &myelin_geometry::Polygon) -> (copy: myelin_geometry::Polygon)
    ensures
        copy == *polygon,
;

/// `Point::clone` (derived in `myelin_geometry`, a `Copy` type) returns an equal point.
/// The derived `Clone` of the library's types that hold a point calls it.
pub assume_specification[ <myelin_geometry::Point as Clone>::clone ](value: &myelin_geometry::Point) -> (copy: myelin_geometry::Point)
    ensures
        copy == *value,
;

/// `Vector::clone` (derived in `myelin_geometry`, a `Copy` type) returns an equal vector.
/// The derived `Clone` of the library's types that hold a vector calls it.
pub assume_specification[ <myelin_geometry::Vector as Clone>::clone ](value: &myelin_geometry::Vector) -> (copy: myelin_geometry::Vector)
    ensures
        copy == *value,
;

/// `Radians::clone` (derived in `myelin_geometry`, a `Copy` type) returns an equal angle.
/// The derived `Clone` of the library's types that hold an angle calls it.
pub assume_specification[ <myelin_geometry::Radians as Clone>::clone ](value: &myelin_geometry::Radians) -> (copy: myelin_geometry::Radians)
    ensures
        copy == *value,
;

/// `Radians::default()` (derived in `myelin_geometry`): the zero angle. Its value is a
/// floating-point number and is not stated here.
#[verifier::external_body]
pub(crate) fn default_rotation() -> Radians {
    Radians::default()
}

} // verus!
