use myelin_environment::object::{Action, Force, Mobility, ObjectBehavior, ObjectDescription, Torque};
use myelin_environment::object_builder::ObjectBuilder;
use myelin_environment::simulation_impl::{
    ActionError, BodyHandle, PhysicalBody, SimulationImpl, World, WorldInteractorImpl,
};
use myelin_environment::world_interactor::WorldInteractor;
use myelin_environment::Simulation;
use myelin_geometry::{Aabb, Point, Polygon, PolygonBuilder, Radians, Vector};
use std::cell::RefCell;
use std::collections::HashMap;
use std::rc::Rc;

type Calls = Rc<RefCell<Vec<String>>>;

/// A world that answers with preconfigured values and records every call
#[derive(Debug, Default)]
struct WorldMock {
    add_body_and_return: Option<(PhysicalBody, BodyHandle)>,
    remove_body_and_return: Option<(BodyHandle, Option<PhysicalBody>)>,
    body_and_return: Option<(BodyHandle, Option<PhysicalBody>)>,
    apply_force_and_return: Option<(BodyHandle, Force<f64>, Option<()>)>,
    simulated_timestep: Option<f64>,
    is_body_passable_and_return: Option<(BodyHandle, bool)>,
    bodies_in_area_and_return: Option<(Aabb, Vec<BodyHandle>)>,
    calls: Calls,
}

impl WorldMock {
    fn new(calls: &Calls) -> Self {
        WorldMock {
            calls: calls.clone(),
            ..Default::default()
        }
    }

    fn record(&self, call: &str) {
        self.calls.borrow_mut().push(call.to_string());
    }
}

impl World for WorldMock {
    type Scalar = f64;

    fn step(&mut self) {
        self.record("step");
    }

    fn add_body(&mut self, body: PhysicalBody) -> BodyHandle {
        self.record("add_body");
        let (expected_body, handle) = self
            .add_body_and_return
            .clone()
            .expect("add_body() was called unexpectedly");
        assert_eq!(expected_body, body);
        handle
    }

    fn remove_body(&mut self, body_handle: BodyHandle) -> Option<PhysicalBody> {
        self.record("remove_body");
        let (expected_handle, body) = self
            .remove_body_and_return
            .clone()
            .expect("remove_body() was called unexpectedly");
        assert_eq!(expected_handle, body_handle);
        body
    }

    fn body(&self, handle: BodyHandle) -> Option<PhysicalBody> {
        self.record("body");
        let (expected_handle, body) = self
            .body_and_return
            .clone()
            .expect("body() was called unexpectedly");
        assert_eq!(expected_handle, handle);
        body
    }

    fn apply_force(&mut self, body_handle: BodyHandle, force: Force<f64>) -> Option<()> {
        self.record("apply_force");
        let (expected_handle, expected_force, result) = self
            .apply_force_and_return
            .clone()
            .expect("apply_force() was called unexpectedly");
        assert_eq!(expected_handle, body_handle);
        assert_eq!(expected_force, force);
        result
    }

    fn set_simulated_timestep(&mut self, timestep: f64) {
        self.record("set_simulated_timestep");
        let expected_timestep = self
            .simulated_timestep
            .expect("set_simulated_timestep() was called unexpectedly");
        assert_eq!(expected_timestep, timestep);
    }

    fn is_body_passable(&self, body_handle: BodyHandle) -> bool {
        self.record("is_body_passable");
        let (expected_handle, passable) = self
            .is_body_passable_and_return
            .expect("is_body_passable() was called unexpectedly");
        assert_eq!(expected_handle, body_handle);
        passable
    }

    fn bodies_in_area(&self, area: Aabb) -> Vec<BodyHandle> {
        self.record("bodies_in_area");
        let (expected_area, handles) = self
            .bodies_in_area_and_return
            .clone()
            .expect("bodies_in_area() was called unexpectedly");
        assert_eq!(expected_area, area);
        handles
    }
}

/// A behavior that expects to be stepped with a given description and then answers
/// with a preconfigured action
#[derive(Debug, Default)]
struct ObjectBehaviorMock {
    step_and_return: Option<Box<(ObjectDescription, Option<Action<f64, ObjectBehaviorMock>>)>>,
    calls: Calls,
}

impl ObjectBehaviorMock {
    fn new(calls: &Calls) -> Self {
        ObjectBehaviorMock {
            step_and_return: None,
            calls: calls.clone(),
        }
    }

    fn expect_step_and_return(
        &mut self,
        own_description: ObjectDescription,
        action: Option<Action<f64, ObjectBehaviorMock>>,
    ) {
        self.step_and_return = Some(Box::new((own_description, action)));
    }
}

impl ObjectBehavior<f64, ObjectBehaviorMock> for ObjectBehaviorMock {
    fn step(
        &mut self,
        own_description: &ObjectDescription,
        _world_interactor: &dyn WorldInteractor,
    ) -> Option<Action<f64, ObjectBehaviorMock>> {
        self.calls.borrow_mut().push("behavior_step".to_string());
        let (expected_description, action) = *self
            .step_and_return
            .take()
            .expect("step() was called unexpectedly");
        assert_eq!(expected_description, *own_description);
        action
    }
}

fn was_called(calls: &Calls, call: &str) -> bool {
    calls.borrow().iter().any(|recorded| recorded == call)
}

fn shape() -> Polygon {
    PolygonBuilder::default()
        .vertex(-5.0, -5.0)
        .vertex(5.0, -5.0)
        .vertex(5.0, 5.0)
        .vertex(-5.0, 5.0)
        .build()
        .unwrap()
}

fn location() -> Point {
    Point { x: 30.0, y: 40.0 }
}

fn rotation() -> Radians {
    Radians::try_new(3.4).unwrap()
}

fn physical_body() -> PhysicalBody {
    PhysicalBody {
        shape: shape(),
        location: location(),
        rotation: rotation(),
        mobility: Mobility::Movable(Vector::default()),
        passable: false,
    }
}

fn object_description() -> ObjectDescription {
    ObjectBuilder::default()
        .location(location())
        .rotation(rotation())
        .shape(shape())
        .mobility(Mobility::Movable(Vector::default()))
        .passable(false)
        .build()
        .unwrap()
}

fn propagates_step_scenario() {
    let calls = Calls::default();
    let world = WorldMock::new(&calls);
    let mut simulation: SimulationImpl<WorldMock, ObjectBehaviorMock> = SimulationImpl::new(world);
    assert_eq!(Ok(()), simulation.step());
    assert!(was_called(&calls, "step"));
}

fn propagates_simulated_timestep_scenario() {
    let calls = Calls::default();
    let mut world = WorldMock::new(&calls);
    const EXPECTED_TIMESTEP: f64 = 1.0;
    world.simulated_timestep = Some(EXPECTED_TIMESTEP);
    let mut simulation: SimulationImpl<WorldMock, ObjectBehaviorMock> = SimulationImpl::new(world);
    simulation.set_simulated_timestep(EXPECTED_TIMESTEP);
    assert!(was_called(&calls, "set_simulated_timestep"));
}

fn propagates_zero_timestep_scenario() {
    let calls = Calls::default();
    let mut world = WorldMock::new(&calls);
    const EXPECTED_TIMESTEP: f64 = 0.0;
    world.simulated_timestep = Some(EXPECTED_TIMESTEP);
    let mut simulation: SimulationImpl<WorldMock, ObjectBehaviorMock> = SimulationImpl::new(world);
    simulation.set_simulated_timestep(EXPECTED_TIMESTEP);
    assert!(was_called(&calls, "set_simulated_timestep"));
}

fn returns_no_objects_when_empty_scenario() {
    let calls = Calls::default();
    let world = WorldMock::new(&calls);
    let simulation: SimulationImpl<WorldMock, ObjectBehaviorMock> = SimulationImpl::new(world);
    let objects = simulation.objects().unwrap();
    assert!(objects.is_empty());
    assert!(calls.borrow().is_empty());
}

fn converts_to_physical_body_scenario() {
    let calls = Calls::default();
    let mut world = WorldMock::new(&calls);
    world.add_body_and_return = Some((physical_body(), BodyHandle(1337)));

    let mut simulation = SimulationImpl::new(world);
    simulation.add_object(object_description(), ObjectBehaviorMock::new(&calls));
    assert!(was_called(&calls, "add_body"));
}

fn propagates_step_to_added_object_scenario() {
    let calls = Calls::default();
    let returned_handle = BodyHandle(1337);
    let mut world = WorldMock::new(&calls);
    world.add_body_and_return = Some((physical_body(), returned_handle));
    world.body_and_return = Some((returned_handle, Some(physical_body())));
    world.is_body_passable_and_return = Some((returned_handle, false));

    let mut object_behavior = ObjectBehaviorMock::new(&calls);
    object_behavior.expect_step_and_return(object_description(), None);

    let mut simulation = SimulationImpl::new(world);
    simulation.add_object(object_description(), object_behavior);
    assert_eq!(Ok(()), simulation.step());
    assert!(was_called(&calls, "behavior_step"));
    assert!(was_called(&calls, "step"));
}

fn returns_added_object_scenario() {
    let calls = Calls::default();
    let returned_handle = BodyHandle(1984);
    let mut world = WorldMock::new(&calls);
    world.add_body_and_return = Some((physical_body(), returned_handle));
    world.body_and_return = Some((returned_handle, Some(physical_body())));
    world.is_body_passable_and_return = Some((returned_handle, false));

    let mut simulation = SimulationImpl::new(world);
    let expected_object_description = object_description();
    simulation.add_object(
        expected_object_description.clone(),
        ObjectBehaviorMock::new(&calls),
    );

    let objects = simulation.objects().unwrap();
    assert_eq!(1, objects.len());

    let object_description = objects.iter().next().unwrap().1;
    assert_eq!(expected_object_description, *object_description);
    assert_eq!(Some(&expected_object_description), objects.get(&1984));
}

fn destroying_self_scenario() {
    let calls = Calls::default();
    let returned_handle = BodyHandle(1984);
    let mut world = WorldMock::new(&calls);
    world.add_body_and_return = Some((physical_body(), returned_handle));
    world.body_and_return = Some((returned_handle, Some(physical_body())));
    world.remove_body_and_return = Some((returned_handle, Some(physical_body())));
    world.is_body_passable_and_return = Some((returned_handle, false));

    let mut object_behavior = ObjectBehaviorMock::new(&calls);
    object_behavior.expect_step_and_return(object_description(), Some(Action::DestroySelf));

    let mut simulation = SimulationImpl::new(world);
    simulation.add_object(object_description(), object_behavior);
    assert_eq!(Ok(()), simulation.step());
    assert!(was_called(&calls, "remove_body"));
    assert!(was_called(&calls, "step"));
    assert!(simulation.objects().unwrap().is_empty());
}

fn destroy_removes_object_scenario() {
    let calls = Calls::default();
    let handle_one = BodyHandle(1);
    let handle_two = BodyHandle(2);
    let mut world = WorldMock::new(&calls);
    world.add_body_and_return = Some((physical_body(), handle_one));
    world.body_and_return = Some((handle_one, Some(physical_body())));
    world.is_body_passable_and_return = Some((handle_one, false));
    world.remove_body_and_return = Some((handle_two, Some(physical_body())));

    let mut object_behavior = ObjectBehaviorMock::new(&calls);
    object_behavior
        .expect_step_and_return(object_description(), Some(Action::Destroy(handle_two.0)));

    let mut simulation = SimulationImpl::new(world);
    simulation.add_object(object_description(), object_behavior);
    assert_eq!(Ok(()), simulation.step());
    assert!(was_called(&calls, "remove_body"));
    assert!(was_called(&calls, "step"));
}

fn force_application_is_propagated_scenario() {
    let calls = Calls::default();
    let returned_handle = BodyHandle(1984);
    let expected_force = Force {
        linear: Vector { x: 20.0, y: -5.0 },
        torque: Torque(-8.0),
    };
    let mut world = WorldMock::new(&calls);
    world.add_body_and_return = Some((physical_body(), returned_handle));
    world.body_and_return = Some((returned_handle, Some(physical_body())));
    world.is_body_passable_and_return = Some((returned_handle, false));
    world.apply_force_and_return = Some((returned_handle, expected_force.clone(), Some(())));

    let mut object_behavior = ObjectBehaviorMock::new(&calls);
    object_behavior
        .expect_step_and_return(object_description(), Some(Action::ApplyForce(expected_force)));

    let mut simulation = SimulationImpl::new(world);
    simulation.add_object(object_description(), object_behavior);
    assert_eq!(Ok(()), simulation.step());
    assert!(was_called(&calls, "apply_force"));
    assert!(was_called(&calls, "step"));
}

fn propagates_objects_in_area_scenario() {
    let calls = Calls::default();
    let area = Aabb {
        upper_left: Point { x: 30.0, y: 30.0 },
        lower_right: Point { x: 10.0, y: 10.0 },
    };
    let returned_handle = BodyHandle(1234);
    let mut world = WorldMock::new(&calls);
    world.add_body_and_return = Some((physical_body(), returned_handle));
    world.bodies_in_area_and_return = Some((area, vec![returned_handle]));
    world.body_and_return = Some((returned_handle, Some(physical_body())));
    world.is_body_passable_and_return = Some((returned_handle, false));

    let mut simulation = SimulationImpl::new(world);
    simulation.add_object(object_description(), ObjectBehaviorMock::new(&calls));

    let mut expected_objects = HashMap::new();
    expected_objects.insert(1234, object_description());

    assert_eq!(Some(expected_objects), simulation.objects_in_area(area));
}

#[test]
fn objects_are_none_when_the_world_lost_a_body() {
    let calls = Calls::default();
    let returned_handle = BodyHandle(1984);
    let mut world = WorldMock::new(&calls);
    world.add_body_and_return = Some((physical_body(), returned_handle));
    world.body_and_return = Some((returned_handle, None));

    let mut simulation = SimulationImpl::new(world);
    simulation.add_object(object_description(), ObjectBehaviorMock::new(&calls));
    assert_eq!(None, simulation.objects());
}

#[test]
fn objects_in_area_are_none_for_an_unknown_handle() {
    let calls = Calls::default();
    let area = Aabb {
        upper_left: Point { x: 30.0, y: 30.0 },
        lower_right: Point { x: 10.0, y: 10.0 },
    };
    let mut world = WorldMock::new(&calls);
    world.bodies_in_area_and_return = Some((area, vec![BodyHandle(99)]));
    world.body_and_return = Some((BodyHandle(99), Some(physical_body())));

    let simulation: SimulationImpl<WorldMock, ObjectBehaviorMock> = SimulationImpl::new(world);
    assert_eq!(None, simulation.objects_in_area(area));
}

#[test]
fn step_fails_when_the_world_lost_a_body() {
    let calls = Calls::default();
    let returned_handle = BodyHandle(5);
    let mut world = WorldMock::new(&calls);
    world.add_body_and_return = Some((physical_body(), returned_handle));
    world.body_and_return = Some((returned_handle, None));

    let mut simulation = SimulationImpl::new(world);
    simulation.add_object(object_description(), ObjectBehaviorMock::new(&calls));
    assert_eq!(Err(ActionError::InvalidHandle), simulation.step());
    assert!(!was_called(&calls, "step"));
}

#[test]
fn failed_force_application_is_an_invalid_handle() {
    let calls = Calls::default();
    let returned_handle = BodyHandle(3);
    let force = Force {
        linear: Vector { x: 1.0, y: 1.0 },
        torque: Torque(0.0),
    };
    let mut world = WorldMock::new(&calls);
    world.add_body_and_return = Some((physical_body(), returned_handle));
    world.body_and_return = Some((returned_handle, Some(physical_body())));
    world.is_body_passable_and_return = Some((returned_handle, false));
    world.apply_force_and_return = Some((returned_handle, force.clone(), None));

    let mut object_behavior = ObjectBehaviorMock::new(&calls);
    object_behavior.expect_step_and_return(object_description(), Some(Action::ApplyForce(force)));

    let mut simulation = SimulationImpl::new(world);
    simulation.add_object(object_description(), object_behavior);
    assert_eq!(Err(ActionError::InvalidHandle), simulation.step());
    assert_eq!("Invalid handle", ActionError::InvalidHandle.description());
}

#[test]
fn spawned_object_is_listed() {
    let calls = Calls::default();
    let handle = BodyHandle(8);
    let mut world = WorldMock::new(&calls);
    world.add_body_and_return = Some((physical_body(), handle));
    world.body_and_return = Some((handle, Some(physical_body())));
    world.is_body_passable_and_return = Some((handle, false));

    let mut simulation: SimulationImpl<WorldMock, ObjectBehaviorMock> = SimulationImpl::new(world);
    let mut spawned_description = object_description();
    spawned_description.associated_data = vec![4, 2];
    assert_eq!(
        Ok(()),
        simulation.handle_action(
            BodyHandle(1),
            Action::Spawn(spawned_description.clone(), ObjectBehaviorMock::new(&calls)),
        )
    );
    let objects = simulation.objects().unwrap();
    assert_eq!(Some(&spawned_description), objects.get(&8));
}

#[test]
fn destroying_self_without_an_object_is_an_invalid_handle() {
    let calls = Calls::default();
    let mut world = WorldMock::new(&calls);
    world.remove_body_and_return = Some((BodyHandle(4), Some(physical_body())));

    let mut simulation: SimulationImpl<WorldMock, ObjectBehaviorMock> = SimulationImpl::new(world);
    assert_eq!(
        Err(ActionError::InvalidHandle),
        simulation.handle_action(BodyHandle(4), Action::DestroySelf)
    );
}

#[test]
fn find_objects_in_area_is_propagated() {
    let triangle = PolygonBuilder::default()
        .vertex(-5.0, -5.0)
        .vertex(5.0, 5.0)
        .vertex(5.0, -5.0)
        .build()
        .unwrap();
    let object_description = ObjectBuilder::default()
        .location(Point { x: 10.0, y: 10.0 })
        .mobility(Mobility::Immovable)
        .shape(triangle.clone())
        .build()
        .unwrap();
    let area = Aabb {
        upper_left: Point { x: 10.0, y: 10.0 },
        lower_right: Point { x: 20.0, y: 0.0 },
    };
    let body = PhysicalBody {
        shape: triangle,
        location: Point { x: 10.0, y: 10.0 },
        rotation: Radians::default(),
        mobility: Mobility::Immovable,
        passable: false,
    };

    let calls = Calls::default();
    let mut world = WorldMock::new(&calls);
    world.bodies_in_area_and_return = Some((area, vec![BodyHandle(125)]));
    world.body_and_return = Some((BodyHandle(125), Some(body)));
    world.is_body_passable_and_return = Some((BodyHandle(125), false));
    let mut associated_data = HashMap::new();
    associated_data.insert(125, Vec::new());

    let mut objects = HashMap::new();
    objects.insert(125, object_description);

    let object_environment = WorldInteractorImpl::new(&world, &associated_data);
    assert_eq!(Some(objects), object_environment.find_objects_in_area(area));
}

#[test]
fn simulation_impl_propagates_step() {
    propagates_step_scenario();
}

#[test]
fn mod_propagates_step() {
    propagates_step_scenario();
}

#[test]
fn simulation_impl_propagates_simulated_timestep() {
    propagates_simulated_timestep_scenario();
}

#[test]
fn mod_propagates_simulated_timestep() {
    propagates_simulated_timestep_scenario();
}

#[test]
fn simulation_impl_propagates_zero_timestep() {
    propagates_zero_timestep_scenario();
}

#[test]
fn mod_propagates_zero_timestep() {
    propagates_zero_timestep_scenario();
}

#[test]
fn simulation_impl_returns_no_objects_when_empty() {
    returns_no_objects_when_empty_scenario();
}

#[test]
fn mod_returns_no_objects_when_empty() {
    returns_no_objects_when_empty_scenario();
}

#[test]
fn simulation_impl_converts_to_physical_body() {
    converts_to_physical_body_scenario();
}

#[test]
fn mod_converts_to_physical_body() {
    converts_to_physical_body_scenario();
}

#[test]
fn simulation_impl_propagates_step_to_added_object() {
    propagates_step_to_added_object_scenario();
}

#[test]
fn mod_propagates_step_to_added_object() {
    propagates_step_to_added_object_scenario();
}

#[test]
fn simulation_impl_returns_added_object() {
    returns_added_object_scenario();
}

#[test]
fn mod_returns_added_object() {
    returns_added_object_scenario();
}

#[test]
fn simulation_impl_destroy_removes_object() {
    destroy_removes_object_scenario();
}

#[test]
fn mod_destroy_removes_object() {
    destroy_removes_object_scenario();
}

#[test]
fn simulation_impl_force_application_is_propagated() {
    force_application_is_propagated_scenario();
}

#[test]
fn mod_force_application_is_propagated() {
    force_application_is_propagated_scenario();
}

#[test]
fn simulation_impl_propagates_objects_in_area() {
    propagates_objects_in_area_scenario();
}

#[test]
fn mod_propagates_objects_in_area() {
    propagates_objects_in_area_scenario();
}

#[test]
fn destroying_self_removes_object() {
    destroying_self_scenario();
}

#[test]
fn dying_removes_object() {
    destroying_self_scenario();
}

#[test]
fn spawned_object_destroying_itself_leaves_the_objects_as_they_were() {
    let calls = Calls::default();
    let handle = BodyHandle(8);
    let mut world = WorldMock::new(&calls);
    world.add_body_and_return = Some((physical_body(), handle));
    world.remove_body_and_return = Some((handle, Some(physical_body())));

    let mut simulation: SimulationImpl<WorldMock, ObjectBehaviorMock> = SimulationImpl::new(world);
    assert_eq!(
        Ok(()),
        simulation.handle_action(
            BodyHandle(1),
            Action::Spawn(object_description(), ObjectBehaviorMock::new(&calls)),
        )
    );
    assert_eq!(Ok(()), simulation.handle_action(handle, Action::DestroySelf));
    assert_eq!(Some(HashMap::new()), simulation.objects());
}

#[test]
fn destroying_another_object_removes_it_from_the_simulation() {
    let calls = Calls::default();
    let handle = BodyHandle(1);
    let mut world = WorldMock::new(&calls);
    world.add_body_and_return = Some((physical_body(), handle));
    world.remove_body_and_return = Some((handle, Some(physical_body())));

    let mut simulation = SimulationImpl::new(world);
    simulation.add_object(object_description(), ObjectBehaviorMock::new(&calls));
    assert_eq!(
        Ok(()),
        simulation.handle_action(BodyHandle(7), Action::Destroy(handle.0))
    );
    assert!(was_called(&calls, "remove_body"));
    assert_eq!(Some(HashMap::new()), simulation.objects());
}

#[test]
fn destroying_an_unknown_object_is_an_invalid_handle() {
    let calls = Calls::default();
    let mut world = WorldMock::new(&calls);
    world.remove_body_and_return = Some((BodyHandle(3), None));

    let mut simulation: SimulationImpl<WorldMock, ObjectBehaviorMock> = SimulationImpl::new(world);
    assert_eq!(
        Err(ActionError::InvalidHandle),
        simulation.handle_action(BodyHandle(1), Action::Destroy(3))
    );
}

#[test]
fn quiet_step_keeps_objects_and_steps_the_world_once() {
    let calls = Calls::default();
    let returned_handle = BodyHandle(7);
    let mut world = WorldMock::new(&calls);
    world.add_body_and_return = Some((physical_body(), returned_handle));
    world.body_and_return = Some((returned_handle, Some(physical_body())));
    world.is_body_passable_and_return = Some((returned_handle, false));

    let mut object_behavior = ObjectBehaviorMock::new(&calls);
    object_behavior.expect_step_and_return(object_description(), None);

    let mut simulation = SimulationImpl::new(world);
    simulation.add_object(object_description(), object_behavior);
    let objects_before = simulation.objects().unwrap();
    assert_eq!(Ok(()), simulation.step());
    let world_steps = calls.borrow().iter().filter(|call| *call == "step").count();
    assert_eq!(1, world_steps);
    assert_eq!(objects_before, simulation.objects().unwrap());
}
