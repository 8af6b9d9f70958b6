use myelin_environment::physics_handler::physics_handler_facade::{
    CollisionHandler, MovementApplier, PhysicsHandlerFacade,
};
use myelin_environment::physics_handler::PhysicsHandler;
use myelin_environment::properties::{Kind, Location, MovementVector, Object, Rectangle};
use std::cell::RefCell;
use std::rc::Rc;

/// Records the objects it is asked to move and answers with a fixed object
#[derive(Debug)]
struct MovementApplierMock {
    passed_objects: Rc<RefCell<Vec<Object>>>,
    answer: Object,
}

impl MovementApplier for MovementApplierMock {
    fn apply_movement(&self, object: &Object) -> Object {
        self.passed_objects.borrow_mut().push(*object);
        self.answer
    }
}

/// Records the collisions it is asked to handle and answers with a fixed object
#[derive(Debug)]
struct CollisionHandlerMock {
    passed_collisions: Rc<RefCell<Vec<(Object, Vec<Object>)>>>,
    answer: Object,
}

impl CollisionHandler for CollisionHandlerMock {
    fn handle_collisions(&self, object: &Object, collisions: &[&Object]) -> Object {
        let collisions: Vec<Object> = collisions.iter().map(|&&collision| collision).collect();
        self.passed_collisions
            .borrow_mut()
            .push((*object, collisions));
        self.answer
    }
}

fn container() -> Vec<Object> {
    vec![
        Object {
            rectangle: Rectangle {
                width: 6,
                length: 5,
            },
            location: Location { x: 10, y: 20 },
            movement: MovementVector { x: 6, y: 7 },
            kind: Kind::Organism,
        },
        Object {
            rectangle: Rectangle {
                width: 3,
                length: 4,
            },
            location: Location { x: 17, y: 23 },
            movement: MovementVector { x: -4, y: -3 },
            kind: Kind::Organism,
        },
        Object {
            rectangle: Rectangle {
                width: 4,
                length: 4,
            },
            location: Location { x: 42, y: 11 },
            movement: MovementVector { x: 0, y: -3 },
            kind: Kind::Organism,
        },
    ]
}

fn facade(
    passed_objects: &Rc<RefCell<Vec<Object>>>,
    passed_collisions: &Rc<RefCell<Vec<(Object, Vec<Object>)>>>,
) -> PhysicsHandlerFacade<MovementApplierMock, CollisionHandlerMock> {
    let container = container();
    PhysicsHandlerFacade::new(
        MovementApplierMock {
            passed_objects: passed_objects.clone(),
            answer: container[2],
        },
        CollisionHandlerMock {
            passed_collisions: passed_collisions.clone(),
            answer: container[1],
        },
    )
}

#[test]
fn passes_container_to_movement_applier() {
    let passed_objects = Rc::new(RefCell::new(Vec::new()));
    let passed_collisions = Rc::new(RefCell::new(Vec::new()));
    let physics_handler_facade = facade(&passed_objects, &passed_collisions);
    let container = container();

    for object in &container {
        assert_eq!(container[2], physics_handler_facade.apply_movement(object));
    }

    assert_eq!(container, *passed_objects.borrow());
    assert!(passed_collisions.borrow().is_empty());
}

#[test]
fn passes_collider_and_container_to_collision_handler() {
    let passed_objects = Rc::new(RefCell::new(Vec::new()));
    let passed_collisions = Rc::new(RefCell::new(Vec::new()));
    let physics_handler_facade = facade(&passed_objects, &passed_collisions);
    let container = container();

    let handled = physics_handler_facade.handle_collisions(&container[0], &[&container[1]]);

    assert_eq!(container[1], handled);
    assert_eq!(
        vec![(container[0], vec![container[1]])],
        *passed_collisions.borrow()
    );
    assert!(passed_objects.borrow().is_empty());
}
