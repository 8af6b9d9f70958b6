use myelin_environment::object::{Mobility, ObjectDescription};
use myelin_environment::object_builder::{ObjectBuilder, ObjectBuilderError};
use myelin_geometry::{Point, Polygon, PolygonBuilder, Radians, Vector};

fn unit_square() -> Polygon {
    PolygonBuilder::default()
        .vertex(0.0, 0.0)
        .vertex(0.0, 1.0)
        .vertex(1.0, 0.0)
        .vertex(1.0, 1.0)
        .build()
        .unwrap()
}

#[test]
fn test_object_builder_should_error_for_missing_shape() {
    let result = ObjectBuilder::default()
        .location(Point { x: 10.0, y: 10.0 })
        .rotation(Radians::try_new(0.0).unwrap())
        .mobility(Mobility::Immovable)
        .build();

    assert_eq!(
        Err(ObjectBuilderError {
            missing_shape: true,
            ..Default::default()
        }),
        result
    );
}

#[test]
fn test_object_builder_should_error_for_missing_location() {
    let result = ObjectBuilder::default()
        .shape(unit_square())
        .rotation(Radians::try_new(0.0).unwrap())
        .mobility(Mobility::Immovable)
        .build();

    assert_eq!(
        Err(ObjectBuilderError {
            missing_location: true,
            ..Default::default()
        }),
        result
    );
}

#[test]
fn test_object_builder_should_error_for_missing_mobility() {
    let result = ObjectBuilder::default()
        .shape(unit_square())
        .rotation(Radians::try_new(0.0).unwrap())
        .location(Point { x: 30.0, y: 40.0 })
        .build();

    assert_eq!(
        Err(ObjectBuilderError {
            missing_mobility: true,
            ..Default::default()
        }),
        result
    );
}

#[test]
fn test_object_builder_should_use_default_rotation() {
    let result = ObjectBuilder::default()
        .shape(unit_square())
        .location(Point { x: 30.0, y: 40.0 })
        .mobility(Mobility::Immovable)
        .build();

    let expected = ObjectDescription {
        shape: unit_square(),
        location: Point { x: 30.0, y: 40.0 },
        rotation: Radians::try_new(0.0).unwrap(),
        mobility: Mobility::Immovable,
        passable: false,
        associated_data: Vec::new(),
    };

    assert_eq!(Ok(expected), result);
}

#[test]
fn test_object_builder_uses_passable() {
    let result = ObjectBuilder::default()
        .shape(unit_square())
        .rotation(Radians::try_new(0.0).unwrap())
        .location(Point { x: 30.0, y: 40.0 })
        .mobility(Mobility::Immovable)
        .passable(true)
        .build();

    let expected = ObjectDescription {
        shape: Polygon::try_new(vec![
            Point { x: 0.0, y: 0.0 },
            Point { x: 0.0, y: 1.0 },
            Point { x: 1.0, y: 0.0 },
            Point { x: 1.0, y: 1.0 },
        ])
        .unwrap(),
        location: Point { x: 30.0, y: 40.0 },
        rotation: Radians::try_new(0.0).unwrap(),
        mobility: Mobility::Immovable,
        passable: true,
        associated_data: Vec::new(),
    };

    assert_eq!(Ok(expected), result);
}

#[test]
fn test_object_builder_should_error_with_everything_missing() {
    let result = ObjectBuilder::default().build();

    assert_eq!(
        Err(ObjectBuilderError {
            missing_shape: true,
            missing_location: true,
            missing_mobility: true,
        }),
        result
    );
}

#[test]
fn test_object_builder_should_build_object() {
    let result = ObjectBuilder::default()
        .shape(unit_square())
        .mobility(Mobility::Movable(Vector { x: -12.0, y: 5.0 }))
        .location(Point { x: 30.0, y: 40.0 })
        .rotation(Radians::try_new(1.1).unwrap())
        .build();

    let expected = ObjectDescription {
        location: Point { x: 30.0, y: 40.0 },
        rotation: Radians::try_new(1.1).unwrap(),
        mobility: Mobility::Movable(Vector { x: -12.0, y: 5.0 }),
        shape: Polygon::try_new(vec![
            Point { x: 0.0, y: 0.0 },
            Point { x: 0.0, y: 1.0 },
            Point { x: 1.0, y: 0.0 },
            Point { x: 1.0, y: 1.0 },
        ])
        .unwrap(),
        passable: false,
        associated_data: Vec::new(),
    };

    assert_eq!(Ok(expected), result);
}

#[test]
fn can_create_object_builder_from_object_description() {
    let object_description = ObjectDescription {
        location: Point { x: 30.0, y: 40.0 },
        rotation: Radians::try_new(1.1).unwrap(),
        mobility: Mobility::Movable(Vector { x: -12.0, y: 5.0 }),
        shape: Polygon::try_new(vec![
            Point { x: 0.0, y: 0.0 },
            Point { x: 0.0, y: 1.0 },
            Point { x: 1.0, y: 0.0 },
            Point { x: 1.0, y: 1.0 },
        ])
        .unwrap(),
        passable: true,
        associated_data: vec![1, 2, 3],
    };

    assert_eq!(
        object_description,
        ObjectBuilder::from(object_description.clone())
            .build()
            .unwrap()
    );
}

#[test]
fn builder_uses_associated_data() {
    let result = ObjectBuilder::default()
        .shape(unit_square())
        .location(Point { x: 1.0, y: 2.0 })
        .mobility(Mobility::Immovable)
        .associated_data(vec![7, 8])
        .build()
        .unwrap();
    assert_eq!(vec![7, 8], result.associated_data);
}

#[test]
fn reports_every_missing_setting_but_shape() {
    let result = ObjectBuilder::default().shape(unit_square()).build();
    assert_eq!(
        Err(ObjectBuilderError {
            missing_shape: false,
            missing_location: true,
            missing_mobility: true,
        }),
        result
    );
}
