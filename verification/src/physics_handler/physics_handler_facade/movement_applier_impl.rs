//! The movement applier of the grid world.
use super::MovementApplier;
use crate::binary64::round_half_even;
use crate::properties::{Location, Object, Rectangle};
use vstd::arithmetic::div_mod::lemma_fundamental_div_mod;
use vstd::prelude::*;

verus! {

/// `value` read as a 32-bit two's complement number
pub open spec fn as_signed(value: u32) -> int {
    if value <= i32::MAX {
        value as int
    } else {
        value - 0x1_0000_0000
    }
}

/// The spacing of binary32 numbers (24-bit significands) around `extent`
pub open spec fn binary32_spacing(extent: u32) -> nat {
    if extent < 0x100_0000 {
        1
    } else if extent < 0x200_0000 {
        2
    } else if extent < 0x400_0000 {
        4
    } else if extent < 0x800_0000 {
        8
    } else if extent < 0x1000_0000 {
        16
    } else if extent < 0x2000_0000 {
        32
    } else if extent < 0x4000_0000 {
        64
    } else if extent < 0x8000_0000 {
        128
    } else {
        256
    }
}

/// `extent` converted to binary32: the nearest multiple of the spacing there, a tie going
/// to the even multiple
pub open spec fn extent_to_binary32(extent: u32) -> nat {
    let spacing = binary32_spacing(extent);
    spacing * round_half_even(extent as nat / spacing, extent as nat % spacing, spacing)
}

/// Half of `extent` as measured on the grid: its binary32 conversion halved and rounded
/// half away from zero, and capped at `i32::MAX`
pub open spec fn half_extent(extent: u32) -> int {
    let half = (extent_to_binary32(extent) + 1) / 2;
    if half > i32::MAX {
        i32::MAX as int
    } else {
        half as int
    }
}

/// Whether a rectangle centered on (`x`, `y`) lies within the non-negative quadrant
pub open spec fn is_valid_position(x: int, y: int, rectangle: Rectangle) -> bool {
    &&& x - half_extent(rectangle.width) >= 0
    &&& y - half_extent(rectangle.length) >= 0
}

/// The x-coordinate that `object` moves to
pub open spec fn target_x(object: Object) -> int {
    as_signed(object.location.x) + object.movement.x
}

/// The y-coordinate that `object` moves to
pub open spec fn target_y(object: Object) -> int {
    as_signed(object.location.y) + object.movement.y
}

/// Whether `object` can take its next step: the target fits in 32 signed bits and
/// its rectangle stays within the non-negative quadrant there
pub open spec fn stays_in_bounds(object: Object) -> bool {
    &&& i32::MIN <= target_x(object) <= i32::MAX
    &&& i32::MIN <= target_y(object) <= i32::MAX
    &&& is_valid_position(target_x(object), target_y(object), object.rectangle)
}

/// `object` after one step by its movement vector
pub open spec fn moved_object(object: Object) -> Object {
    Object {
        location: Location { x: target_x(object) as u32, y: target_y(object) as u32 },
        ..object
    }
}

/// Moves the objects of the grid by their movement vectors
#[derive(Debug, Default)]
pub struct MovementApplierImpl;

impl MovementApplierImpl {
    pub fn new() -> (movement_applier: Self)
        ensures
            movement_applier == MovementApplierImpl,
    {
        Self {}
    }
}

impl MovementApplier for MovementApplierImpl {
    fn apply_movement(&self, object: &Object) -> (moved: Object)
        ensures
            moved == moved_object(*object),
            moved.location.x as int == as_signed(object.location.x) + object.movement.x,
            moved.location.y as int == as_signed(object.location.y) + object.movement.y,
            moved.rectangle == object.rectangle,
            moved.movement == object.movement,
            moved.kind == object.kind,
    {
        let new_x: i32 = to_signed(object.location.x) + object.movement.x;
        let new_y: i32 = to_signed(object.location.y) + object.movement.y;
        let valid: bool = is_valid_movement(new_x, new_y, &object.rectangle);
        assert(valid);
        Object { location: Location { x: new_x as u32, y: new_y as u32 }, ..*object }
    }
}

/// Reads `value` as a 32-bit two's complement number
fn to_signed(value: u32) -> (signed: i32)
    ensures
        signed == as_signed(value),
{
    if value <= 0x7fff_ffff {
        value as i32
    } else {
        let offset: i32 = (value - 0x8000_0000) as i32;
        offset + i32::MIN
    }
}

/// Whether a rectangle centered on (`new_x`, `new_y`) lies within the
/// non-negative quadrant
///
/// The edges are computed in 32 signed bits; they must not fall below `i32::MIN`.
pub fn is_valid_movement(new_x: i32, new_y: i32, rectangle: &Rectangle) -> (valid: bool)
    requires
        new_x - half_extent(rectangle.width) >= i32::MIN,
        new_y - half_extent(rectangle.length) >= i32::MIN,
    ensures
        valid == is_valid_position(new_x as int, new_y as int, *rectangle),
{
    let half_width: i64 = half_extent_of(rectangle.width);
    let half_length: i64 = half_extent_of(rectangle.length);
    let left_edge: i64 = new_x as i64 - half_width;
    let top_edge: i64 = new_y as i64 - half_length;
    left_edge >= 0 && top_edge >= 0
}

/// `half_extent(extent)`
fn half_extent_of(extent: u32) -> (half: i64)
    ensures
        half == half_extent(extent),
{
    let spacing: u64 = if extent < 0x100_0000 {
        1
    } else if extent < 0x200_0000 {
        2
    } else if extent < 0x400_0000 {
        4
    } else if extent < 0x800_0000 {
        8
    } else if extent < 0x1000_0000 {
        16
    } else if extent < 0x2000_0000 {
        32
    } else if extent < 0x4000_0000 {
        64
    } else if extent < 0x8000_0000 {
        128
    } else {
        256
    };
    let wide: u64 = extent as u64;
    let quotient: u64 = wide / spacing;
    let remainder: u64 = wide % spacing;
    proof {
        lemma_fundamental_div_mod(wide as int, spacing as int);
        assert((quotient + 1) * spacing <= 0x2_0000_0000) by (nonlinear_arith)
            requires
                wide == spacing * quotient + remainder,
                0 <= remainder,
                wide < 0x1_0000_0000,
                1 <= spacing <= 256,
        ;
    }
    let rounded: u64 = if 2 * remainder < spacing {
        quotient
    } else if 2 * remainder > spacing {
        quotient + 1
    } else if quotient % 2 == 0 {
        quotient
    } else {
        quotient + 1
    };
    proof {
        assert(rounded * spacing <= 0x2_0000_0000) by (nonlinear_arith)
            requires
                rounded <= quotient + 1,
                (quotient + 1) * spacing <= 0x2_0000_0000,
                spacing >= 1,
        ;
        assert(rounded * spacing == spacing * rounded) by (nonlinear_arith);
    }
    let converted: u64 = rounded * spacing;
    let half: u64 = (converted + 1) / 2;
    if half > 0x7fff_ffff {
        0x7fff_ffff
    } else {
        half as i64
    }
}

/// An object without movement that is within bounds stays where it is.
pub proof fn law_zero_movement_keeps_object(object: Object)
    requires
        object.movement == (crate::properties::MovementVector { x: 0, y: 0 }),
        stays_in_bounds(object),
    ensures
        moved_object(object) == object,
{
}

/// Moving only ever changes an object's location.
pub proof fn law_movement_changes_only_location(object: Object)
    ensures
        moved_object(object).rectangle == object.rectangle,
        moved_object(object).movement == object.movement,
        moved_object(object).kind == object.kind,
{
}

/// An object that stays in bounds moves exactly by its movement vector: on each axis its new
/// location is its old location, read as a signed number, plus the movement.
pub proof fn law_movement_reaches_the_target(object: Object)
    requires
        stays_in_bounds(object),
    ensures
        moved_object(object).location.x as int == as_signed(object.location.x) + object.movement.x,
        moved_object(object).location.y as int == as_signed(object.location.y) + object.movement.y,
{
    assert(half_extent(object.rectangle.width) >= 0);
    assert(half_extent(object.rectangle.length) >= 0);
}

/// An extent below `2^24` is exactly representable in binary32, so its half is the plain
/// half rounded up: `(extent + 1) / 2`.
pub proof fn law_small_extents_halve_exactly(extent: u32)
    requires
        extent < 0x100_0000,
    ensures
        half_extent(extent) == (extent + 1) / 2,
{
    assert(extent as nat / 1 == extent && extent as nat % 1 == 0);
    assert(extent_to_binary32(extent) == extent);
}

/// For extents below `2^24`, a rectangle centered on (`x`, `y`) is valid exactly when each
/// coordinate is at least half the corresponding extent, rounded up.
pub proof fn law_validity_for_small_extents(x: int, y: int, rectangle: Rectangle)
    requires
        rectangle.width < 0x100_0000,
        rectangle.length < 0x100_0000,
    ensures
        is_valid_position(x, y, rectangle) <==> (x >= (rectangle.width + 1) / 2 && y >= (
        rectangle.length + 1) / 2),
{
    law_small_extents_halve_exactly(rectangle.width);
    law_small_extents_halve_exactly(rectangle.length);
}

/// Half of every extent is its plain half up to binary32 rounding: twice the half differs
/// from the extent by at most 2 plus `2^-24` of the extent.
pub proof fn law_half_extent_is_about_half(extent: u32)
    ensures
        0x100_0000 * (2 * half_extent(extent) - extent) <= 0x200_0000 + extent,
        0x100_0000 * (extent - 2 * half_extent(extent)) <= 0x200_0000 + extent,
{
    let spacing: int = binary32_spacing(extent) as int;
    assert(spacing == 1 || extent >= 0x80_0000 * spacing);
    assert(1 <= spacing <= 256);
    let q: int = extent as int / spacing;
    let r: int = extent as int % spacing;
    lemma_fundamental_div_mod(extent as int, spacing);
    let rounded: int = round_half_even(q as nat, r as nat, spacing as nat) as int;
    assert(rounded == q || rounded == q + 1);
    let converted: int = extent_to_binary32(extent) as int;
    assert(converted == spacing * rounded);
    assert(2 * (converted - extent) <= spacing && 2 * (extent - converted) <= spacing)
        by (nonlinear_arith)
        requires
            extent == spacing * q + r,
            0 <= r < spacing,
            converted == spacing * rounded,
            rounded == q ==> 2 * r <= spacing,
            rounded == q + 1 ==> 2 * r >= spacing,
            rounded == q || rounded == q + 1,
    ;
    assert(spacing == 1 ==> converted == extent) by (nonlinear_arith)
        requires
            spacing == 1 ==> r == 0 && q == extent,
            converted == spacing * rounded,
            rounded == q ==> 2 * r <= spacing,
            rounded == q + 1 ==> 2 * r >= spacing,
            rounded == q || rounded == q + 1,
    ;
    assert(spacing < 256 ==> extent < 0x8000_0000);
    assert(converted <= 0x1_0000_0000) by (nonlinear_arith)
        requires
            2 * (converted - extent) <= spacing,
            extent < 0x1_0000_0000,
            spacing <= 256,
            spacing < 256 ==> extent < 0x8000_0000,
            spacing == 256 ==> converted == 256 * rounded,
            rounded <= q + 1,
            extent == spacing * q + r,
            0 <= r,
    ;
    let half: int = half_extent(extent);
    assert(2 * half - converted <= 1 && converted - 2 * half <= 2);
}

} // verus!
