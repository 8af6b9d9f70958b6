use myelin_environment::physics_handler::physics_handler_facade::movement_applier_impl::{
    is_valid_movement, MovementApplierImpl,
};
use myelin_environment::physics_handler::physics_handler_facade::MovementApplier;
use myelin_environment::properties::{Kind, Location, MovementVector, Object, Rectangle};

#[test]
fn applies_movement() {
    let initial_object = Object {
        rectangle: Rectangle {
            width: 6,
            length: 5,
        },
        location: Location { x: 10, y: 20 },
        movement: MovementVector { x: 6, y: 7 },
        kind: Kind::Organism,
    };

    let physics_handler = MovementApplierImpl::new();
    let new_object = physics_handler.apply_movement(&initial_object);

    let expected_object = Object {
        location: Location { x: 16, y: 27 },
        ..initial_object
    };
    assert_eq!(expected_object, new_object);
}

#[test]
fn allows_object_on_exact_origin() {
    let initial_object = Object {
        rectangle: Rectangle {
            width: 6,
            length: 4,
        },
        location: Location { x: 4, y: 2 },
        movement: MovementVector { x: -1, y: 0 },
        kind: Kind::Organism,
    };

    let physics_handler = MovementApplierImpl::new();
    let actual_object = physics_handler.apply_movement(&initial_object);

    let expected_object = Object {
        location: Location { x: 3, y: 2 },
        ..initial_object
    };
    assert_eq!(expected_object, actual_object);
}

#[test]
fn allows_object_on_exact_origin_by_rounding_down() {
    let initial_object = Object {
        rectangle: Rectangle {
            width: 5,
            length: 4,
        },
        location: Location { x: 4, y: 2 },
        movement: MovementVector { x: -1, y: 0 },
        kind: Kind::Organism,
    };

    let physics_handler = MovementApplierImpl::new();
    let actual_object = physics_handler.apply_movement(&initial_object);

    let expected_object = Object {
        location: Location { x: 3, y: 2 },
        ..initial_object
    };

    assert_eq!(expected_object, actual_object);
}

#[test]
fn ignores_zeroed_movement_vector() {
    let expected_object = Object {
        rectangle: Rectangle {
            width: 4,
            length: 6,
        },
        location: Location { x: 40, y: 22 },
        movement: MovementVector { x: 0, y: 0 },
        kind: Kind::Organism,
    };

    let physics_handler = MovementApplierImpl::new();
    let actual_object = physics_handler.apply_movement(&expected_object);

    assert_eq!(expected_object, actual_object);
}

#[test]
fn movement_keeps_kind_rectangle_and_movement() {
    let initial_object = Object {
        rectangle: Rectangle::new(2, 2),
        location: Location::new(5, 5),
        movement: MovementVector { x: 3, y: -2 },
        kind: Kind::Water,
    };
    let moved = MovementApplierImpl::new().apply_movement(&initial_object);
    assert_eq!(Location::new(8, 3), moved.location);
    assert_eq!(Kind::Water, moved.kind);
    assert_eq!(initial_object.rectangle, moved.rectangle);
    assert_eq!(initial_object.movement, moved.movement);
}

#[test]
fn movement_is_invalid_when_moving_out_of_bounds() {
    // x: 10 - 30 = -20, y: 20 - 20 = 0
    assert!(!is_valid_movement(-20, 0, &Rectangle::new(4, 5)));
}

#[test]
fn movement_is_invalid_when_rectangle_clips_into_negative_position() {
    assert!(!is_valid_movement(2, 2, &Rectangle::new(6, 4)));
    assert!(!is_valid_movement(3, 2, &Rectangle::new(4, 6)));
}

#[test]
fn movement_is_invalid_when_rectangle_clips_into_negative_position_by_rounding_up() {
    // half of 7 rounds up to 4
    assert!(!is_valid_movement(3, 2, &Rectangle::new(7, 4)));
}

#[test]
fn movement_is_valid_on_exact_origin() {
    assert!(is_valid_movement(3, 2, &Rectangle::new(6, 4)));
    assert!(is_valid_movement(3, 2, &Rectangle::new(5, 4)));
    assert!(is_valid_movement(0, 0, &Rectangle::new(0, 0)));
}

#[test]
fn movement_is_valid_at_extremes() {
    assert!(is_valid_movement(
        i32::MAX,
        i32::MAX,
        &Rectangle::new(u32::MAX - 1, u32::MAX - 1)
    ));
    // u32::MAX converts to 2^32 in binary32, whose half is capped at i32::MAX
    assert!(is_valid_movement(i32::MAX, i32::MAX, &Rectangle::new(u32::MAX, 0)));
    assert!(!is_valid_movement(i32::MIN, 0, &Rectangle::new(0, 0)));
}

#[test]
fn default_movement_vector_is_zero() {
    assert_eq!(MovementVector { x: 0, y: 0 }, MovementVector::default());
}

#[test]
fn large_extents_are_measured_in_binary32() {
    // 16777217 converts to 16777216 in binary32
    assert!(is_valid_movement(8388608, 0, &Rectangle::new(16777217, 0)));
    assert!(!is_valid_movement(8388607, 0, &Rectangle::new(16777217, 0)));
}

#[test]
fn half_extents_match_binary32_arithmetic() {
    let widths = [
        0u32, 1, 2, 3, 5, 16777215, 16777216, 16777217, 16777218, 16777219, 33554433,
        33554435, 33554438, 1234567891, 2147483647, 2147483648, 2147483649, 4000000001,
        4294967167, 4294967168, 4294967295,
    ];
    for width in widths.iter() {
        let half = (*width as f32 / 2.0).round() as i32;
        assert!(is_valid_movement(half, 0, &Rectangle::new(*width, 0)), "width {}", width);
        if half > 0 {
            assert!(!is_valid_movement(half - 1, 0, &Rectangle::new(*width, 0)), "width {}", width);
        }
    }
}
