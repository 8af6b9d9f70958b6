//! A `Simulation` that outsources all physical
//! behaviour into a separate `World` type
use crate::object::{Action, Force, Mobility, ObjectBehavior, ObjectDescription};
use crate::world_interactor::WorldInteractor;
use crate::{Id, Simulation, Snapshot};
use myelin_geometry::{Aabb, Point, Polygon, Radians};
use std::collections::HashMap;
use vstd::prelude::*;
use vstd::std_specs::iter::IteratorSpec;

pub mod object_environment;
pub mod time;
pub mod world;

pub use self::object_environment::WorldInteractorImpl;

verus! {

broadcast use vstd::std_specs::hash::group_hash_axioms;

/// A container for [`PhysicalBody`]s that will apply
/// physical laws to them on [`step`]
///
/// The contracts of its methods speak of a model of the world: the bodies it holds by
/// handle, the forces registered for its next step, the number of steps it has taken, its
/// timestep and the bodies it finds within an area, and of the form in which it holds a body
/// that it is given. A verified implementation defines these functions to describe its own
/// state; for an implementation that does not, they stay opaque, so that nothing is known of
/// them.
///
/// [`step`]: ./trait.World.html#tymethod.step
pub trait World {
    /// The scalar type in which forces and time are measured
    type Scalar;

    /// The bodies in the world, under the handles that [`add_body`] returned for them
    ///
    /// [`add_body`]: ./trait.World.html#tymethod.add_body
    #[verifier::opaque]
    closed spec fn bodies_spec(&self) -> Map<usize, PhysicalBody> {
        arbitrary()
    }

    /// The forces registered to be applied on the next step, by body handle
    #[verifier::opaque]
    closed spec fn forces_spec(&self) -> Map<usize, Force<Self::Scalar>> {
        arbitrary()
    }

    /// How many steps the world has taken
    #[verifier::opaque]
    closed spec fn steps_spec(&self) -> nat {
        arbitrary()
    }

    /// How much time is simulated for each step
    #[verifier::opaque]
    closed spec fn timestep_spec(&self) -> Self::Scalar {
        arbitrary()
    }

    /// Whether the world, given the body `placed`, may hold it as `held`: a world may bring a
    /// body into a form of its own, such as a simplified shape or a rounded rotation
    #[verifier::opaque]
    closed spec fn holds_as(placed: PhysicalBody, held: PhysicalBody) -> bool {
        arbitrary()
    }

    /// The handles of the bodies that lie in `area`, completely or in part
    #[verifier::opaque]
    closed spec fn bodies_in_area_spec(&self, area: Aabb) -> Seq<BodyHandle> {
        arbitrary()
    }

    /// Advance the simulation by one tick. This will apply
    /// forces to the objects and handle collisions;
    ///
    /// The bodies move, but none is added or removed; the registered forces are used up.
    fn step(&mut self)
        ensures
            final(self).bodies_spec().dom() == old(self).bodies_spec().dom(),
            final(self).forces_spec() == Map::<usize, Force<Self::Scalar>>::empty(),
            final(self).steps_spec() == old(self).steps_spec() + 1,
            final(self).timestep_spec() == old(self).timestep_spec(),
    ;

    /// Place a [`PhysicalBody`] in the world. Returns a
    /// unique [`BodyHandle`] that can be passed to [`body()`]
    /// in order to retrieve the [`PhysicalBody`] again
    ///
    /// [`body()`]: ./trait.World.html#tymethod.body
    fn add_body(&mut self, body: PhysicalBody) -> (handle: BodyHandle)
        ensures
            !old(self).bodies_spec().contains_key(handle.0),
            final(self).bodies_spec().contains_key(handle.0),
            final(self).bodies_spec().remove(handle.0) == old(self).bodies_spec(),
            Self::holds_as(body, final(self).bodies_spec()[handle.0]),
            final(self).bodies_spec()[handle.0].passable == body.passable,
            final(self).forces_spec() == old(self).forces_spec(),
            final(self).steps_spec() == old(self).steps_spec(),
            final(self).timestep_spec() == old(self).timestep_spec(),
    ;

    /// Removes a previously added [`PhysicalBody`] from the world.
    /// If `body_handle` was valid, this will return the removed physical body.
    fn remove_body(&mut self, body_handle: BodyHandle) -> (removed: Option<PhysicalBody>)
        ensures
            removed == old(self).bodies_spec().get(body_handle.0),
            final(self).bodies_spec() == old(self).bodies_spec().remove(body_handle.0),
            final(self).steps_spec() == old(self).steps_spec(),
            final(self).timestep_spec() == old(self).timestep_spec(),
    ;

    /// Returns a [`PhysicalBody`] that has previously been
    /// placed with [`add_body()`] by its [`BodyHandle`].
    ///
    /// # Errors
    /// Returns `None` if the [`BodyHandle`] did not correspond
    /// to any [`PhysicalBody`]
    ///
    /// [`add_body()`]: ./trait.World.html#tymethod.add_body
    fn body(&self, handle: BodyHandle) -> (body: Option<PhysicalBody>)
        ensures
            body == self.bodies_spec().get(handle.0),
    ;

    /// Register a force that will be applied to a body on the next
    /// step.
    /// # Errors
    /// Returns `None` if `body_handle` did not match any body.
    fn apply_force(&mut self, body_handle: BodyHandle, force: Force<Self::Scalar>) -> (applied:
        Option<()>)
        ensures
            applied is Some <==> old(self).bodies_spec().contains_key(body_handle.0),
            final(self).forces_spec() == if applied is Some {
                old(self).forces_spec().insert(body_handle.0, force)
            } else {
                old(self).forces_spec()
            },
            final(self).bodies_spec() == old(self).bodies_spec(),
            final(self).steps_spec() == old(self).steps_spec(),
            final(self).timestep_spec() == old(self).timestep_spec(),
    ;

    /// Sets how much time in seconds is simulated for each step.
    fn set_simulated_timestep(&mut self, timestep: Self::Scalar)
        ensures
            final(self).timestep_spec() == timestep,
            final(self).bodies_spec() == old(self).bodies_spec(),
            final(self).forces_spec() == old(self).forces_spec(),
            final(self).steps_spec() == old(self).steps_spec(),
    ;

    /// Checks if the given [`BodyHandle`] is marked passable
    fn is_body_passable(&self, body_handle: BodyHandle) -> (passable: bool)
        ensures
            self.bodies_spec().contains_key(body_handle.0) ==> passable
                == self.bodies_spec()[body_handle.0].passable,
    ;

    /// Returns all bodies either completely contained or intersecting
    /// with the area.
    fn bodies_in_area(&self, area: Aabb) -> (handles: Vec<BodyHandle>)
        ensures
            handles@ == self.bodies_in_area_spec(area),
            forall|i: int|
                0 <= i < handles@.len() ==> self.bodies_spec().contains_key(
                    #[trigger] handles@[i].0,
                ),
    ;
}

/// The pure physical representation of an object
/// that can be placed within a [`World`]
#[derive(Debug, PartialEq, Clone)]
pub struct PhysicalBody {
    /// The vertices defining the shape of the object
    /// in relation to its [`location`]
    ///
    /// [`location`]: ./struct.PhysicalBody.html#structfield.location
    pub shape: Polygon,
    /// The current global position of the center of the body
    pub location: Point,
    /// The body's rotation
    pub rotation: Radians,
    /// The current mobility of the object. If present,
    /// this is defined as a two dimensional vector relative to the
    /// objects center
    pub mobility: Mobility,
    /// Whether this object is passable or not
    pub passable: bool,
}

/// A unique identifier that can be used to retrieve a [`PhysicalBody`] from a
/// [`World`].
///
/// Don't construct any of these by yourself, only use the
/// instances that [`World`] provides you
#[derive(Debug, Copy, Clone, Eq, PartialEq, Ord, PartialOrd, Hash)]
pub struct BodyHandle(pub usize);

/// A unique identifier that represents either a [`BodyHandle`]
/// or a sensor's handle
///
/// You are allowed to construct this handle from either subhandles.
#[derive(Debug, Copy, Clone, Eq, PartialEq, Ord, PartialOrd, Hash)]
pub struct AnyHandle(pub usize);

impl From<BodyHandle> for AnyHandle {
    fn from(body_handle: BodyHandle) -> (handle: Self)
        ensures
            handle.0 == body_handle.0,
    {
        AnyHandle(body_handle.0)
    }
}

impl vstd::std_specs::convert::FromSpecImpl<BodyHandle> for AnyHandle {
    open spec fn obeys_from_spec() -> bool {
        true
    }

    open spec fn from_spec(body_handle: BodyHandle) -> AnyHandle {
        AnyHandle(body_handle.0)
    }
}

/// An error that can occur whenever an action is performed
#[derive(Debug, Clone, Copy, PartialEq, Eq)]
pub enum ActionError {
    /// The given handle was invalid
    InvalidHandle,
}

impl ActionError {
    /// A human readable description of the error
    pub fn description(&self) -> (description: &'static str)
        ensures
            description@ == "Invalid handle"@,
    {
        "Invalid handle"
    }
}

/// The handles of all entries of `map`, each exactly once.
pub(crate) fn handles_of<V>(map: &HashMap<usize, V>) -> (handles: Vec<usize>)
    ensures
        handles@.to_set() == map@.dom(),
        handles@.no_duplicates(),
{
    let mut handles: Vec<usize> = Vec::new();
    for handle in iter: map.keys()
        invariant
            handles@ == iter.seq().take(iter.index() as int).map_values(|h: &usize| *h),
            iter.seq() == vstd::std_specs::hash::spec_keys_iter(map).remaining(),
    {
        handles.push(*handle);
    }
    proof {
        let keys = vstd::std_specs::hash::spec_keys_iter(map).remaining();
        assert(handles@ =~= keys.unref());
    }
    handles
}


/// The handles and data of the objects in `associated_data`
pub open spec fn data_view(associated_data: Map<usize, Vec<u8>>) -> Map<usize, Seq<u8>> {
    associated_data.map_values(|data: Vec<u8>| data@)
}

/// The physical part of an object's description: the body that the world receives for it
pub open spec fn physical_body_of(description: ObjectDescription) -> PhysicalBody {
    PhysicalBody {
        shape: description.shape,
        location: description.location,
        rotation: description.rotation,
        mobility: description.mobility,
        passable: description.passable,
    }
}

/// `description` describes an object whose body is `body` and whose associated data is `data`
pub open spec fn describes_body(
    description: ObjectDescription,
    body: PhysicalBody,
    data: Seq<u8>,
) -> bool {
    &&& description.shape == body.shape
    &&& description.location == body.location
    &&& description.rotation == body.rotation
    &&& description.mobility == body.mobility
    &&& description.passable == body.passable
    &&& description.associated_data@ == data
}

/// `snapshot` describes exactly the objects under `handles`, each with its body in `bodies`
/// and its data in `objects`
pub open spec fn is_snapshot_of(
    snapshot: Map<usize, ObjectDescription>,
    bodies: Map<usize, PhysicalBody>,
    objects: Map<usize, Seq<u8>>,
    handles: Set<usize>,
) -> bool {
    &&& snapshot.dom() == handles
    &&& forall|handle: usize|
        #[trigger] snapshot.contains_key(handle) ==> describes_body(
            snapshot[handle],
            bodies[handle],
            objects[handle],
        )
}

/// The view of an optional snapshot
pub open spec fn snapshot_view(snapshot: Option<Snapshot>) -> Option<Map<usize, ObjectDescription>> {
    match snapshot {
        Some(snapshot) => Some(snapshot@),
        None => None,
    }
}

/// The numbers of the handles in `handles`
pub open spec fn handle_ids(handles: Seq<BodyHandle>) -> Seq<usize> {
    handles.map_values(|handle: BodyHandle| handle.0)
}

/// What a search of `area` answers in a simulation whose world is `world` and whose objects
/// are `objects`: the description of every body that the world finds there, or `None`
/// when the world finds a body that is not one of the objects
pub open spec fn answers_area<W: World>(
    world: W,
    objects: Map<usize, Seq<u8>>,
    area: Aabb,
    snapshot: Option<Map<usize, ObjectDescription>>,
) -> bool {
    let found = handle_ids(world.bodies_in_area_spec(area));
    match snapshot {
        Some(snapshot) => {
            &&& forall|i: int| 0 <= i < found.len() ==> objects.contains_key(#[trigger] found[i])
            &&& is_snapshot_of(snapshot, world.bodies_spec(), objects, found.to_set())
        },
        None => exists|i: int| 0 <= i < found.len() && !objects.contains_key(#[trigger] found[i]),
    }
}

/// Merges a body of the physical world with the non-physical data that the simulation
/// keeps of it into the description of the object.
pub fn object_description_from(
    physical_body: PhysicalBody,
    passable: bool,
    associated_data: Vec<u8>,
) -> (object_description: ObjectDescription)
    ensures
        object_description.shape == physical_body.shape,
        object_description.location == physical_body.location,
        object_description.rotation == physical_body.rotation,
        object_description.mobility == physical_body.mobility,
        object_description.passable == passable,
        object_description.associated_data == associated_data,
{
    ObjectDescription {
        shape: physical_body.shape,
        location: physical_body.location,
        rotation: physical_body.rotation,
        mobility: physical_body.mobility,
        passable,
        associated_data,
    }
}

/// Splits off the physical part of an object's description.
pub fn physical_body_from(object_description: ObjectDescription) -> (physical_body: PhysicalBody)
    ensures
        physical_body.shape == object_description.shape,
        physical_body.location == object_description.location,
        physical_body.rotation == object_description.rotation,
        physical_body.mobility == object_description.mobility,
        physical_body.passable == object_description.passable,
{
    PhysicalBody {
        shape: object_description.shape,
        location: object_description.location,
        rotation: object_description.rotation,
        mobility: object_description.mobility,
        passable: object_description.passable,
    }
}

fn clone_data(data: &Vec<u8>) -> (copy: Vec<u8>)
    ensures
        copy@ == data@,
{
    let mut copy: Vec<u8> = Vec::new();
    let mut index: usize = 0;
    while index < data.len()
        invariant
            index <= data@.len(),
            copy@ == data@.take(index as int),
        decreases data@.len() - index,
    {
        copy.push(data[index]);
        index = index + 1;
        assert(copy@ =~= data@.take(index as int));
    }
    assert(data@.take(data@.len() as int) =~= data@);
    copy
}

proof fn lemma_take_one_more_to_set<A>(s: Seq<A>, i: int)
    requires
        0 <= i < s.len(),
    ensures
        s.take(i + 1).to_set() == s.take(i).to_set().insert(s[i]),
{
    let longer = s.take(i + 1);
    let shorter = s.take(i);
    assert forall|x: A| longer.contains(x) <==> shorter.contains(x) || x == s[i] by {
        if longer.contains(x) {
            let j: int = choose|j: int| 0 <= j < longer.len() && longer[j] == x;
            if j < i {
                assert(shorter[j] == x);
            }
        }
        if shorter.contains(x) {
            let j: int = choose|j: int| 0 <= j < shorter.len() && shorter[j] == x;
            assert(longer[j] == x);
        }
        if x == s[i] {
            assert(longer[i] == x);
        }
    }
    assert(longer.to_set() =~= shorter.to_set().insert(s[i]));
}

/// Describes the object that the world knows under `body_handle`, with the data that
/// `associated_data` holds for it.
///
/// Returns `None` when the world has no such body or no data is held for it.
pub(crate) fn describe_body<W: World>(
    world: &W,
    associated_data: &HashMap<usize, Vec<u8>>,
    body_handle: BodyHandle,
) -> (object_description: Option<ObjectDescription>)
    ensures
        object_description is Some <==> (world.bodies_spec().contains_key(body_handle.0)
            && associated_data@.contains_key(body_handle.0)),
        object_description matches Some(description) ==> describes_body(
            description,
            world.bodies_spec()[body_handle.0],
            associated_data@[body_handle.0]@,
        ),
{
    let physical_body = match world.body(body_handle) {
        Some(physical_body) => physical_body,
        None => return None,
    };
    let data = match associated_data.get(&body_handle.0) {
        Some(data) => data,
        None => return None,
    };
    let passable = world.is_body_passable(body_handle);
    Some(object_description_from(physical_body, passable, clone_data(data)))
}

/// Describes every object of `associated_data`.
///
/// Returns `None` when the world has no body for one of them.
pub(crate) fn describe_all<W: World>(
    world: &W,
    associated_data: &HashMap<usize, Vec<u8>>,
) -> (snapshot: Option<Snapshot>)
    ensures
        snapshot is Some <==> associated_data@.dom().subset_of(world.bodies_spec().dom()),
        snapshot matches Some(snapshot) ==> is_snapshot_of(
            snapshot@,
            world.bodies_spec(),
            data_view(associated_data@),
            associated_data@.dom(),
        ),
{
    let handles = handles_of(associated_data);
    let mut snapshot: Snapshot = HashMap::new();
    let mut index: usize = 0;
    while index < handles.len()
        invariant
            index <= handles@.len(),
            handles@.to_set() == associated_data@.dom(),
            handles@.no_duplicates(),
            snapshot@.dom() == handles@.take(index as int).to_set(),
            forall|i: int|
                0 <= i < index ==> world.bodies_spec().contains_key(#[trigger] handles@[i]),
            forall|handle: usize|
                #[trigger] snapshot@.contains_key(handle) ==> describes_body(
                    snapshot@[handle],
                    world.bodies_spec()[handle],
                    data_view(associated_data@)[handle],
                ),
        decreases handles@.len() - index,
    {
        let handle: usize = handles[index];
        assert(handles@.to_set().contains(handle));
        let object_description = match describe_body(world, associated_data, BodyHandle(handle)) {
            Some(object_description) => object_description,
            None => {
                assert(!world.bodies_spec().contains_key(handle));
                return None;
            },
        };
        snapshot.insert(handle, object_description);
        index = index + 1;
        proof {
            lemma_take_one_more_to_set(handles@, index - 1);
        }
        assert(snapshot@.dom() =~= handles@.take(index as int).to_set());
    }
    assert(handles@.take(handles@.len() as int) =~= handles@);
    assert forall|handle: usize| associated_data@.dom().contains(handle) implies world.bodies_spec(
    ).dom().contains(handle) by {
        assert(handles@.to_set().contains(handle));
        let i: int = choose|i: int| 0 <= i < handles@.len() && handles@[i] == handle;
        assert(world.bodies_spec().contains_key(handles@[i]));
    }
    Some(snapshot)
}

/// Describes every object that the world reports within `area`.
///
/// Returns `None` when the world reports a body of which `associated_data` holds nothing.
pub(crate) fn describe_bodies_in_area<W: World>(
    world: &W,
    associated_data: &HashMap<usize, Vec<u8>>,
    area: Aabb,
) -> (snapshot: Option<Snapshot>)
    ensures
        answers_area(*world, data_view(associated_data@), area, snapshot_view(snapshot)),
{
    let handles = world.bodies_in_area(area);
    let ghost found = handle_ids(handles@);
    let mut snapshot: Snapshot = HashMap::new();
    let mut index: usize = 0;
    while index < handles.len()
        invariant
            index <= handles@.len(),
            handles@ == world.bodies_in_area_spec(area),
            found == handle_ids(handles@),
            forall|i: int|
                0 <= i < handles@.len() ==> world.bodies_spec().contains_key(
                    #[trigger] handles@[i].0,
                ),
            forall|i: int|
                0 <= i < index ==> data_view(associated_data@).contains_key(#[trigger] found[i]),
            snapshot@.dom() == found.take(index as int).to_set(),
            forall|handle: usize|
                #[trigger] snapshot@.contains_key(handle) ==> describes_body(
                    snapshot@[handle],
                    world.bodies_spec()[handle],
                    data_view(associated_data@)[handle],
                ),
        decreases handles@.len() - index,
    {
        let handle: BodyHandle = handles[index];
        assert(found[index as int] == handle.0);
        assert(world.bodies_spec().contains_key(handles@[index as int].0));
        let object_description = match describe_body(world, associated_data, handle) {
            Some(object_description) => object_description,
            None => {
                assert(!data_view(associated_data@).contains_key(found[index as int]));
                return None;
            },
        };
        snapshot.insert(handle.0, object_description);
        index = index + 1;
        proof {
            lemma_take_one_more_to_set(found, index - 1);
        }
        assert(snapshot@.dom() =~= found.take(index as int).to_set());
    }
    assert(found.take(found.len() as int) =~= found);
    Some(snapshot)
}

/// What the contracts see of a simulation: its world, the data of its objects and their
/// behaviors, by handle
pub struct SimulationState<W, B> {
    pub world: W,
    pub objects: Map<usize, Seq<u8>>,
    pub behaviors: Map<usize, B>,
}

/// The world `after` has taken as many steps as `before`, with the same timestep
pub open spec fn keeps_time<W: World>(before: W, after: W) -> bool {
    &&& after.steps_spec() == before.steps_spec()
    &&& after.timestep_spec() == before.timestep_spec()
}

/// `after` is `before` with the object that `description` describes added, with `behavior`:
/// its body is placed in the world under a fresh handle, under which the simulation keeps
/// its data and its behavior
pub open spec fn spawned<W: World, B>(
    before: SimulationState<W, B>,
    description: ObjectDescription,
    behavior: B,
    after: SimulationState<W, B>,
) -> bool {
    exists|handle: usize| #[trigger] spawned_under(before, description, behavior, after, handle)
}

/// [`spawned`], with `handle` the fresh handle of the new object
pub open spec fn spawned_under<W: World, B>(
    before: SimulationState<W, B>,
    description: ObjectDescription,
    behavior: B,
    after: SimulationState<W, B>,
    handle: usize,
) -> bool {
    &&& !before.world.bodies_spec().contains_key(handle)
    &&& after.world.bodies_spec().contains_key(handle)
    &&& after.world.bodies_spec().remove(handle) == before.world.bodies_spec()
    &&& W::holds_as(physical_body_of(description), after.world.bodies_spec()[handle])
    &&& after.world.bodies_spec()[handle].passable == description.passable
    &&& after.objects == before.objects.insert(handle, description.associated_data@)
    &&& after.behaviors == before.behaviors.insert(handle, behavior)
    &&& after.world.forces_spec() == before.world.forces_spec()
    &&& keeps_time(before.world, after.world)
}

/// `after` is `before` with the object under `handle` destroyed: its body leaves the world,
/// its data and its behavior leave the simulation
pub open spec fn destroyed<W: World, B>(
    before: SimulationState<W, B>,
    handle: usize,
    after: SimulationState<W, B>,
) -> bool {
    &&& after.world.bodies_spec() == before.world.bodies_spec().remove(handle)
    &&& after.objects == before.objects.remove(handle)
    &&& after.behaviors == before.behaviors.remove(handle)
    &&& keeps_time(before.world, after.world)
}

/// What carrying out `action`, chosen by the object under `body_handle`, does: `after` is
/// the state it leaves and `succeeded` whether it succeeds.
///
/// - `Spawn` adds the described object and always succeeds;
/// - `ApplyForce` registers the force for the acting body, and fails when the world has
///   no such body;
/// - `Destroy` destroys the object under the given identifier, and fails when the world
///   has no such body;
/// - `DestroySelf` destroys the acting object, and fails when the world or the simulation
///   does not hold it.
pub open spec fn acts<W: World, B>(
    before: SimulationState<W, B>,
    body_handle: BodyHandle,
    action: Action<W::Scalar, B>,
    after: SimulationState<W, B>,
    succeeded: bool,
) -> bool {
    match action {
        Action::Spawn(description, behavior) => succeeded && spawned(
            before,
            description,
            behavior,
            after,
        ),
        Action::ApplyForce(force) => {
            &&& succeeded == before.world.bodies_spec().contains_key(body_handle.0)
            &&& after.world.forces_spec() == if succeeded {
                before.world.forces_spec().insert(body_handle.0, force)
            } else {
                before.world.forces_spec()
            }
            &&& after.world.bodies_spec() == before.world.bodies_spec()
            &&& after.objects == before.objects
            &&& after.behaviors == before.behaviors
            &&& keeps_time(before.world, after.world)
        },
        Action::Destroy(id) => {
            &&& succeeded == before.world.bodies_spec().contains_key(id)
            &&& destroyed(before, id, after)
        },
        Action::DestroySelf => {
            &&& succeeded == (before.world.bodies_spec().contains_key(body_handle.0)
                && before.objects.contains_key(body_handle.0))
            &&& destroyed(before, body_handle.0, after)
        },
    }
}

/// `states` are the states that carrying out `actions` in turn passes through, starting
/// with the first: when `succeeded`, every action succeeds; otherwise the last action
/// carried out fails and the ones after it are left undone
pub open spec fn handled_in_turn<W: World, B>(
    states: Seq<SimulationState<W, B>>,
    actions: Seq<(BodyHandle, Action<W::Scalar, B>)>,
    succeeded: bool,
) -> bool {
    &&& 1 <= states.len() <= actions.len() + 1
    &&& succeeded ==> states.len() == actions.len() + 1
    &&& !succeeded ==> states.len() >= 2
    &&& forall|i: int|
        #![trigger states[i]]
        0 <= i < states.len() - 1 ==> acts(
            states[i],
            actions[i].0,
            actions[i].1,
            states[i + 1],
            succeeded || i < states.len() - 2,
        )
}

/// The world `after` is the world `before` after one step
pub open spec fn world_stepped<W: World>(before: W, after: W) -> bool {
    &&& after.bodies_spec().dom() == before.bodies_spec().dom()
    &&& after.forces_spec() == Map::<usize, Force<W::Scalar>>::empty()
    &&& after.steps_spec() == before.steps_spec() + 1
    &&& after.timestep_spec() == before.timestep_spec()
}

/// The object under `handle` in `before`, described as it is there, may choose `chosen` and
/// leave its behavior as `after`, in the state that `after` is in
pub open spec fn may_choose<W: World, B: ObjectBehavior<W::Scalar, B>>(
    before: SimulationState<W, B>,
    handle: usize,
    chosen: Option<Action<W::Scalar, B>>,
    after: B,
) -> bool {
    exists|own_description: ObjectDescription|
        #![trigger before.behaviors[handle].chooses(own_description, chosen, after.behavior_state())]
        {
            &&& describes_body(
                own_description,
                before.world.bodies_spec()[handle],
                before.objects[handle],
            )
            &&& before.behaviors[handle].chooses(own_description, chosen, after.behavior_state())
        }
}

/// `actions` are what the objects of `before` chose, each seeing its own description, and
/// `chosen_behaviors` are the behaviors as choosing left them, each
/// under its own object's handle: the object that took an action may choose it, and every
/// other object may choose none
pub open spec fn chose<W: World, B: ObjectBehavior<W::Scalar, B>>(
    before: SimulationState<W, B>,
    actions: Seq<(BodyHandle, Action<W::Scalar, B>)>,
    chosen_behaviors: Map<usize, B>,
) -> bool {
    &&& forall|i: int|
        0 <= i < actions.len() ==> #[trigger] may_choose(
            before,
            actions[i].0.0,
            Some(actions[i].1),
            chosen_behaviors[actions[i].0.0],
        )
    &&& forall|handle: usize|
        #[trigger] before.objects.contains_key(handle) && (forall|i: int|
            0 <= i < actions.len() ==> actions[i].0.0 != handle) ==> may_choose(
            before,
            handle,
            None,
            chosen_behaviors[handle],
        )
}

/// A step of a simulation from `before` to `after`: the objects that were there before
/// choose `actions`, at most one each, each seeing its own description; these are carried
/// out in turn (through `states`),
/// with the behaviors as choosing left them; when all of them succeed, the world takes one
/// step, and otherwise the simulation stays as the failed action left it
pub open spec fn stepped<W: World, B: ObjectBehavior<W::Scalar, B>>(
    before: SimulationState<W, B>,
    actions: Seq<(BodyHandle, Action<W::Scalar, B>)>,
    states: Seq<SimulationState<W, B>>,
    after: SimulationState<W, B>,
    succeeded: bool,
) -> bool {
    &&& forall|i: int|
        0 <= i < actions.len() ==> before.objects.contains_key(#[trigger] actions[i].0.0)
    &&& forall|i: int, j: int| 0 <= i < j < actions.len() ==> actions[i].0 != actions[j].0
    &&& chose(before, actions, states[0].behaviors)
    &&& handled_in_turn(states, actions, succeeded)
    &&& states[0].world == before.world
    &&& states[0].objects == before.objects
    &&& states[0].behaviors.dom() == before.behaviors.dom()
    &&& if succeeded {
        &&& world_stepped(states.last().world, after.world)
        &&& after.objects == states.last().objects
        &&& after.behaviors == states.last().behaviors
    } else {
        after == states.last()
    }
}

/// Carrying out `actions` in turn leads from `before` to `after`; all of them succeed
/// exactly when `succeeded`
pub open spec fn handles_in_turn<W: World, B>(
    before: SimulationState<W, B>,
    actions: Seq<(BodyHandle, Action<W::Scalar, B>)>,
    after: SimulationState<W, B>,
    succeeded: bool,
) -> bool {
    exists|states: Seq<SimulationState<W, B>>|
        {
            &&& #[trigger] handled_in_turn(states, actions, succeeded)
            &&& states[0] == before
            &&& states.last() == after
        }
}

/// One step of a simulation leads from `before` to `after`, and succeeds exactly when
/// `succeeded`: see [`stepped`]
pub open spec fn steps_to<W: World, B: ObjectBehavior<W::Scalar, B>>(
    before: SimulationState<W, B>,
    after: SimulationState<W, B>,
    succeeded: bool,
) -> bool {
    exists|
        actions: Seq<(BodyHandle, Action<W::Scalar, B>)>,
        states: Seq<SimulationState<W, B>>,
    | #[trigger] stepped(before, actions, states, after, succeeded)
}

/// Implementation of [`Simulation`] that uses a physical
/// [`World`] in order to apply physics to objects.
///
/// The simulation keeps, for every object, its behavior and the data associated with it,
/// under the handle of the object's body in the world.
#[derive(Debug)]
pub struct SimulationImpl<W: World, B> {
    world: W,
    behaviors: HashMap<usize, B>,
    associated_data: HashMap<usize, Vec<u8>>,
}

impl<W: World, B> SimulationImpl<W, B> {
    /// The world in which the objects' bodies live
    pub closed spec fn world_spec(&self) -> W {
        self.world
    }

    /// The objects of the simulation: their handles and the data associated with them
    pub closed spec fn objects_spec(&self) -> Map<usize, Seq<u8>> {
        data_view(self.associated_data@)
    }

    /// The behaviors of the objects, by handle
    pub closed spec fn behaviors_spec(&self) -> Map<usize, B> {
        self.behaviors@
    }

    /// The world, the objects and the behaviors of the simulation
    pub open spec fn state(&self) -> SimulationState<W, B> {
        SimulationState {
            world: self.world_spec(),
            objects: self.objects_spec(),
            behaviors: self.behaviors_spec(),
        }
    }

    /// Every object of the simulation has a behavior, every behavior belongs to an
    /// object, and the world holds the body of every object.
    pub open spec fn wf(&self) -> bool {
        &&& self.behaviors_spec().dom() == self.objects_spec().dom()
        &&& self.objects_spec().dom().subset_of(self.world_spec().bodies_spec().dom())
    }

    /// Create a new SimulationImpl by injecting a [`World`]
    pub fn new(world: W) -> (simulation: Self)
        ensures
            simulation.world_spec() == world,
            simulation.objects_spec() == Map::<usize, Seq<u8>>::empty(),
            simulation.behaviors_spec() == Map::<usize, B>::empty(),
            simulation.wf(),
    {
        let simulation = SimulationImpl {
            world,
            behaviors: HashMap::new(),
            associated_data: HashMap::new(),
        };
        assert(simulation.objects_spec() =~= Map::<usize, Seq<u8>>::empty());
        simulation
    }

    /// Describes the object whose body has the handle `body_handle`.
    ///
    /// Returns `None` when the world has no such body or the simulation holds no object
    /// under that handle.
    fn convert_to_object_description(&self, body_handle: BodyHandle) -> (object_description:
        Option<ObjectDescription>)
        ensures
            object_description is Some <==> (self.world_spec().bodies_spec().contains_key(
                body_handle.0,
            ) && self.objects_spec().contains_key(body_handle.0)),
            object_description matches Some(description) ==> describes_body(
                description,
                self.world_spec().bodies_spec()[body_handle.0],
                self.objects_spec()[body_handle.0],
            ),
    {
        describe_body(&self.world, &self.associated_data, body_handle)
    }

    /// Places an object in the world and keeps its behavior and data
    fn add_object_with_handle(
        &mut self,
        object_description: ObjectDescription,
        object_behavior: B,
    ) -> (body_handle: BodyHandle)
        ensures
            spawned_under(
                old(self).state(),
                object_description,
                object_behavior,
                final(self).state(),
                body_handle.0,
            ),
            old(self).wf() ==> final(self).wf(),
    {
        let ghost description = object_description;
        let associated_data = clone_data(&object_description.associated_data);
        let physical_body = physical_body_from(object_description);
        assert(physical_body == physical_body_of(description));
        let body_handle = self.world.add_body(physical_body);
        self.behaviors.insert(body_handle.0, object_behavior);
        self.associated_data.insert(body_handle.0, associated_data);
        assert(self.objects_spec() =~= old(self).objects_spec().insert(
            body_handle.0,
            description.associated_data@,
        ));
        body_handle
    }

    fn spawn(&mut self, object_description: ObjectDescription, object_behavior: B) -> (result:
        Result<(), ActionError>)
        ensures
            result is Ok,
            spawned(old(self).state(), object_description, object_behavior, final(self).state()),
            old(self).wf() ==> final(self).wf(),
    {
        let body_handle = self.add_object_with_handle(object_description, object_behavior);
        Ok(())
    }

    fn apply_force(&mut self, body_handle: BodyHandle, force: Force<W::Scalar>) -> (result: Result<
        (),
        ActionError,
    >)
        ensures
            acts(
                old(self).state(),
                body_handle,
                Action::ApplyForce(force),
                final(self).state(),
                result is Ok,
            ),
            result is Err ==> result == Err::<(), ActionError>(ActionError::InvalidHandle),
            old(self).wf() ==> final(self).wf(),
    {
        to_action_result(self.world.apply_force(body_handle, force))
    }

    fn destroy(&mut self, object_id: Id) -> (result: Result<(), ActionError>)
        ensures
            result is Ok <==> old(self).world_spec().bodies_spec().contains_key(object_id),
            destroyed(old(self).state(), object_id, final(self).state()),
            result is Err ==> result == Err::<(), ActionError>(ActionError::InvalidHandle),
            old(self).wf() ==> final(self).wf(),
    {
        let removed_body = self.world.remove_body(BodyHandle(object_id));
        let removed_data = self.associated_data.remove(&object_id);
        let removed_behavior = self.behaviors.remove(&object_id);
        assert(self.objects_spec() =~= old(self).objects_spec().remove(object_id));
        to_action_result(removed_body)
    }

    fn destroy_self(&mut self, body_handle: BodyHandle) -> (result: Result<(), ActionError>)
        ensures
            result is Ok <==> (old(self).world_spec().bodies_spec().contains_key(body_handle.0)
                && old(self).objects_spec().contains_key(body_handle.0)),
            destroyed(old(self).state(), body_handle.0, final(self).state()),
            result is Err ==> result == Err::<(), ActionError>(ActionError::InvalidHandle),
            old(self).wf() ==> final(self).wf(),
    {
        let removed_body = self.world.remove_body(body_handle);
        let removed_data = self.associated_data.remove(&body_handle.0);
        let removed_behavior = self.behaviors.remove(&body_handle.0);
        assert(self.objects_spec() =~= old(self).objects_spec().remove(body_handle.0));
        match removed_body {
            Some(_) => to_action_result(removed_data),
            None => Err(ActionError::InvalidHandle),
        }
    }

    /// Carries out an action that the object with the handle `body_handle` has chosen.
    ///
    /// # Errors
    /// Returns [`ActionError::InvalidHandle`] when the world does not know the body that the
    /// action is about, or, for [`Action::DestroySelf`], when the simulation holds no object
    /// under `body_handle`.
    pub fn handle_action(&mut self, body_handle: BodyHandle, action: Action<W::Scalar, B>) -> (result:
        Result<(), ActionError>)
        ensures
            acts(old(self).state(), body_handle, action, final(self).state(), result is Ok),
            result is Err ==> result == Err::<(), ActionError>(ActionError::InvalidHandle),
            old(self).wf() ==> final(self).wf(),
    {
        match action {
            Action::Spawn(object_description, object_behavior) => self.spawn(
                object_description,
                object_behavior,
            ),
            Action::ApplyForce(force) => self.apply_force(body_handle, force),
            Action::Destroy(object_id) => self.destroy(object_id),
            Action::DestroySelf => self.destroy_self(body_handle),
        }
    }

    /// Carries out `actions` in turn, each chosen by the object whose handle it is paired
    /// with, and stops at the first that fails.
    ///
    /// # Errors
    /// Returns the error of the action that failed.
    pub fn handle_actions(&mut self, actions: Vec<(BodyHandle, Action<W::Scalar, B>)>) -> (result:
        Result<(), ActionError>)
        ensures
            handles_in_turn(old(self).state(), actions@, final(self).state(), result is Ok),
            result is Err ==> result == Err::<(), ActionError>(ActionError::InvalidHandle),
            old(self).wf() ==> final(self).wf(),
    {
        let ghost all = actions@;
        assert(all.len() == actions.len());
        let ghost mut states: Seq<SimulationState<W, B>> = seq![self.state()];
        let mut remaining = actions;
        let mut index: usize = 0;
        while remaining.len() > 0
            invariant
                index + remaining@.len() == all.len(),
                all.len() <= usize::MAX,
                all == actions@,
                remaining@ == all.subrange(index as int, all.len() as int),
                states.len() == index + 1,
                states[0] == old(self).state(),
                states.last() == self.state(),
                forall|i: int|
                    #![trigger states[i]]
                    0 <= i < index ==> acts(
                        states[i],
                        all[i].0,
                        all[i].1,
                        states[i + 1],
                        true,
                    ),
                old(self).wf() ==> self.wf(),
            decreases remaining@.len(),
        {
            let ghost previous = states;
            let (body_handle, action) = remaining.remove(0);
            assert(all[index as int] == (body_handle, action));
            let result = self.handle_action(body_handle, action);
            proof {
                states = previous.push(self.state());
                assert forall|i: int| 0 <= i <= index implies states[i] == previous[i] by {}
                assert(acts(
                    states[index as int],
                    all[index as int].0,
                    all[index as int].1,
                    states[index + 1],
                    result is Ok,
                ));
            }
            match result {
                Ok(()) => {},
                Err(error) => {
                    assert(handled_in_turn(states, all, false));
                    assert(states[0] == old(self).state());
                    assert(states.last() == self.state());
                    assert(handles_in_turn(old(self).state(), all, self.state(), false));
                    return Err(error);
                },
            }
            index = index + 1;
            assert(remaining@ =~= all.subrange(index as int, all.len() as int));
        }
        assert(handled_in_turn(states, all, true));
        assert(states[0] == old(self).state());
        assert(states.last() == self.state());
        assert(handles_in_turn(old(self).state(), all, self.state(), true));
        Ok(())
    }
}

impl<W: World, B: ObjectBehavior<W::Scalar, B>> Simulation<W::Scalar, B> for SimulationImpl<W, B> {
    /// Lets every object choose an action, seeing its own description and, through a
    /// [`WorldInteractor`], the objects around it; then carries out the chosen actions in
    /// turn and advances the world by one tick.
    ///
    /// [`WorldInteractor`]: crate::world_interactor::WorldInteractor
    fn step(&mut self) -> (result: Result<(), ActionError>)
        ensures
            result is Err ==> result == Err::<(), ActionError>(ActionError::InvalidHandle),
            old(self).wf() ==> final(self).wf(),
            old(self).wf() ==> steps_to(old(self).state(), final(self).state(), result is Ok),
            old(self).objects_spec().dom().is_empty() && old(self).behaviors_spec().dom().is_empty()
                ==> {
                &&& result is Ok
                &&& final(self).objects_spec() == old(self).objects_spec()
                &&& final(self).behaviors_spec() == old(self).behaviors_spec()
            },
    {
        let ghost nothing_to_do = old(self).objects_spec().dom().is_empty() && old(
            self,
        ).behaviors_spec().dom().is_empty();
        let handles = handles_of(&self.associated_data);
        proof {
            if nothing_to_do && handles@.len() > 0 {
                assert(handles@.to_set().contains(handles@[0]));
                assert(self.objects_spec().dom().contains(handles@[0]));
            }
        }
        let mut own_descriptions: Vec<ObjectDescription> = Vec::new();
        let mut index: usize = 0;
        while index < handles.len()
            invariant
                index <= handles@.len(),
                own_descriptions@.len() == index,
                handles@.to_set() == old(self).objects_spec().dom(),
                forall|i: int|
                    0 <= i < index ==> describes_body(
                        #[trigger] own_descriptions@[i],
                        old(self).world_spec().bodies_spec()[handles@[i]],
                        old(self).objects_spec()[handles@[i]],
                    ),
                self.world_spec() == old(self).world_spec(),
                self.objects_spec() == old(self).objects_spec(),
                self.behaviors_spec() == old(self).behaviors_spec(),
                nothing_to_do ==> handles@.len() == 0,
                nothing_to_do == (old(self).objects_spec().dom().is_empty() && old(
                    self,
                ).behaviors_spec().dom().is_empty()),
            decreases handles@.len() - index,
        {
            assert(handles@.to_set().contains(handles@[index as int]));
            match self.convert_to_object_description(BodyHandle(handles[index])) {
                Some(own_description) => own_descriptions.push(own_description),
                None => {
                    assert(!old(self).wf());
                    return Err(ActionError::InvalidHandle);
                },
            }
            index = index + 1;
        }

        let mut actions: Vec<(BodyHandle, Action<W::Scalar, B>)> = Vec::new();
        let ghost mut positions: Seq<int> = Seq::empty();
        let interactor = WorldInteractorImpl::new(&self.world, &self.associated_data);
        let mut index: usize = 0;
        while index < handles.len()
            invariant
                index <= handles@.len(),
                own_descriptions@.len() == handles@.len(),
                forall|i: int|
                    0 <= i < handles@.len() ==> describes_body(
                        #[trigger] own_descriptions@[i],
                        old(self).world_spec().bodies_spec()[handles@[i]],
                        old(self).objects_spec()[handles@[i]],
                    ),
                handles@.to_set() == old(self).objects_spec().dom(),
                handles@.no_duplicates(),
                forall|k: int|
                    index <= k < handles@.len() ==> self.behaviors@.get(#[trigger] handles@[k])
                        == old(self).behaviors@.get(handles@[k]),
                forall|i: int|
                    0 <= i < actions@.len() ==> #[trigger] may_choose(
                        old(self).state(),
                        actions@[i].0.0,
                        Some(actions@[i].1),
                        self.behaviors@[actions@[i].0.0],
                    ),
                old(self).wf() ==> forall|k: int|
                    #![trigger handles@[k]]
                    0 <= k < index && (forall|i: int|
                        0 <= i < positions.len() ==> positions[i] != k) ==> may_choose(
                        old(self).state(),
                        handles@[k],
                        None,
                        self.behaviors@[handles@[k]],
                    ),
                actions@.len() <= index,
                positions.len() == actions@.len(),
                forall|i: int|
                    0 <= i < positions.len() ==> 0 <= #[trigger] positions[i] < index
                        && actions@[i].0.0 == handles@[positions[i]],
                forall|i: int, j: int|
                    0 <= i < j < positions.len() ==> positions[i] < positions[j],
                self.world_spec() == old(self).world_spec(),
                self.associated_data@ == old(self).associated_data@,
                self.behaviors@.dom() == old(self).behaviors@.dom(),
                nothing_to_do ==> handles@.len() == 0,
                nothing_to_do == (old(self).objects_spec().dom().is_empty() && old(
                    self,
                ).behaviors_spec().dom().is_empty()),
            decreases handles@.len() - index,
        {
            let handle: usize = handles[index];
            let ghost behaviors_before = self.behaviors@;
            let ghost actions_before = actions@;
            let ghost positions_before = positions;
            assert(handles@.to_set().contains(handle));
            let ghost chosen_action: Option<Action<W::Scalar, B>> = None;
            match self.behaviors.remove(&handle) {
                Some(mut object_behavior) => {
                    let ghost chooser = object_behavior;
                    assert(chooser == old(self).behaviors@[handle]);
                    let action = object_behavior.step(&own_descriptions[index], &interactor);
                    let ghost left = object_behavior;
                    self.behaviors.insert(handle, object_behavior);
                    assert(self.behaviors@ =~= behaviors_before.insert(handle, left));
                    assert(self.behaviors@.dom() =~= old(self).behaviors@.dom());
                    assert(describes_body(
                        own_descriptions@[index as int],
                        old(self).world_spec().bodies_spec()[handle],
                        old(self).objects_spec()[handle],
                    ));
                    assert(old(self).state().behaviors[handle] == chooser);
                    assert(old(self).state().behaviors[handle].chooses(
                        own_descriptions@[index as int],
                        action,
                        left.behavior_state(),
                    ));
                    assert(may_choose(old(self).state(), handle, action, left));
                    assert(self.behaviors@[handle] == left);
                    proof {
                        chosen_action = action;
                        assert forall|i: int| 0 <= i < actions_before.len() implies self.behaviors@[
                            actions_before[i].0.0] == behaviors_before[actions_before[i].0.0] by {
                            assert(actions_before[i].0.0 == handles@[positions_before[i]]);
                            assert(handles@[positions_before[i]] != handles@[index as int]);
                        }
                    }
                    if let Some(action) = action {
                        actions.push((BodyHandle(handle), action));
                        proof {
                            positions = positions.push(index as int);
                            assert(actions@[actions@.len() - 1] == (BodyHandle(handle), action));
                            assert forall|i: int| 0 <= i < actions@.len() implies #[trigger] may_choose(
                                old(self).state(),
                                actions@[i].0.0,
                                Some(actions@[i].1),
                                self.behaviors@[actions@[i].0.0],
                            ) by {
                                if i < actions_before.len() {
                                    assert(actions@[i] == actions_before[i]);
                                }
                            }
                        }
                    }
                },
                None => {
                    assert(!old(self).wf());
                },
            }
            proof {
                assert forall|i: int| 0 <= i < actions_before.len() implies self.behaviors@[
                    actions_before[i].0.0] == behaviors_before[actions_before[i].0.0] by {
                    assert(actions_before[i].0.0 == handles@[positions_before[i]]);
                    assert(handles@[positions_before[i]] != handles@[index as int]);
                }
                assert forall|i: int| 0 <= i < actions@.len() implies #[trigger] may_choose(
                    old(self).state(),
                    actions@[i].0.0,
                    Some(actions@[i].1),
                    self.behaviors@[actions@[i].0.0],
                ) by {
                    if i < actions_before.len() {
                        assert(actions@[i] == actions_before[i]);
                        assert(may_choose(
                            old(self).state(),
                            actions_before[i].0.0,
                            Some(actions_before[i].1),
                            behaviors_before[actions_before[i].0.0],
                        ));
                    }
                }
                assert forall|k: int| index < k < handles@.len() implies self.behaviors@.get(
                    #[trigger] handles@[k],
                ) == old(self).behaviors@.get(handles@[k]) by {
                    assert(handles@[k] != handles@[index as int]);
                }
                if old(self).wf() {
                    assert(self.behaviors@.contains_key(handle));
                    assert forall|k: int|
                        #![trigger handles@[k]]
                        0 <= k < index + 1 && (forall|i: int|
                            0 <= i < positions.len() ==> positions[i] != k) implies may_choose(
                        old(self).state(),
                        handles@[k],
                        None,
                        self.behaviors@[handles@[k]],
                    ) by {
                        if k < index {
                            assert forall|i: int|
                                0 <= i < positions_before.len() implies positions_before[i]
                                != k by {
                                assert(positions[i] == positions_before[i]);
                            }
                            assert(handles@[k] != handles@[index as int]);
                            assert(self.behaviors@[handles@[k]] == behaviors_before[handles@[k]]);
                        } else {
                            if positions.len() > positions_before.len() {
                                assert(positions[positions.len() - 1] == k);
                            }
                        }
                    }
                }
            }
            index = index + 1;
        }

        proof {
            if nothing_to_do {
                assert(self.behaviors@ =~= old(self).behaviors@);
            }
            assert forall|i: int| 0 <= i < actions@.len() implies old(
                self,
            ).objects_spec().contains_key(#[trigger] actions@[i].0.0) by {
                assert(handles@.to_set().contains(handles@[positions[i]]));
            }
            assert forall|i: int, j: int| 0 <= i < j < actions@.len() implies actions@[i].0
                != actions@[j].0 by {
                assert(positions[i] < positions[j]);
                assert(handles@[positions[i]] != handles@[positions[j]]);
            }
            if old(self).wf() {
                assert forall|handle: usize|
                    #[trigger] old(self).state().objects.contains_key(handle) && (forall|i: int|
                        0 <= i < actions@.len() ==> actions@[i].0.0 != handle) implies may_choose(
                    old(self).state(),
                    handle,
                    None,
                    self.behaviors@[handle],
                ) by {
                    assert(handles@.to_set().contains(handle));
                    let k: int = choose|k: int| 0 <= k < handles@.len() && handles@[k] == handle;
                    assert forall|i: int| 0 <= i < positions.len() implies positions[i] != k by {
                        assert(actions@[i].0.0 == handles@[positions[i]]);
                    }
                }
            }
        }
        assert(self.objects_spec() == old(self).objects_spec());
        let ghost start = self.state();
        let ghost chosen = actions@;
        let handled = self.handle_actions(actions);
        let ghost states = choose|states: Seq<SimulationState<W, B>>|
            {
                &&& #[trigger] handled_in_turn(states, chosen, handled is Ok)
                &&& states[0] == start
                &&& states.last() == self.state()
            };
        match handled {
            Ok(()) => {},
            Err(error) => {
                proof {
                    if old(self).wf() {
                        assert(stepped(old(self).state(), chosen, states, self.state(), false));
                        assert(steps_to(old(self).state(), self.state(), false));
                    }
                }
                return Err(error);
            },
        }
        proof {
            if nothing_to_do {
                assert(states.len() == 1);
            }
        }
        self.world.step();
        proof {
            if old(self).wf() {
                assert(stepped(old(self).state(), chosen, states, self.state(), true));
                assert(steps_to(old(self).state(), self.state(), true));
            }
        }
        Ok(())
    }

    /// Places the object's body in the world and keeps its behavior and data under the
    /// handle that the world gives the body.
    fn add_object(&mut self, object_description: ObjectDescription, object_behavior: B)
        ensures
            spawned(old(self).state(), object_description, object_behavior, final(self).state()),
            old(self).wf() ==> final(self).wf(),
    {
        let body_handle = self.add_object_with_handle(object_description, object_behavior);
    }

    /// Describes every object of the simulation; `None` when the world lacks the body of
    /// one of them
    fn objects(&self) -> (snapshot: Option<Snapshot>)
        ensures
            snapshot is Some <==> self.objects_spec().dom().subset_of(
                self.world_spec().bodies_spec().dom(),
            ),
            snapshot matches Some(snapshot) ==> is_snapshot_of(
                snapshot@,
                self.world_spec().bodies_spec(),
                self.objects_spec(),
                self.objects_spec().dom(),
            ),
    {
        assert(self.objects_spec().dom() =~= self.associated_data@.dom());
        describe_all(&self.world, &self.associated_data)
    }

    /// Describes every object whose body the world finds in `area`; `None` when the world
    /// finds a body that is not an object of the simulation
    fn objects_in_area(&self, area: Aabb) -> (snapshot: Option<Snapshot>)
        ensures
            answers_area(self.world_spec(), self.objects_spec(), area, snapshot_view(snapshot)),
    {
        describe_bodies_in_area(&self.world, &self.associated_data, area)
    }

    /// Hands the timestep to the world
    fn set_simulated_timestep(&mut self, timestep: W::Scalar)
        ensures
            final(self).world_spec().timestep_spec() == timestep,
            final(self).world_spec().bodies_spec() == old(self).world_spec().bodies_spec(),
            final(self).world_spec().forces_spec() == old(self).world_spec().forces_spec(),
            final(self).world_spec().steps_spec() == old(self).world_spec().steps_spec(),
            final(self).objects_spec() == old(self).objects_spec(),
            final(self).behaviors_spec() == old(self).behaviors_spec(),
            old(self).wf() ==> final(self).wf(),
    {
        self.world.set_simulated_timestep(timestep)
    }
}

/// `Ok` when something was found, [`ActionError::InvalidHandle`] otherwise.
fn to_action_result<T>(found: Option<T>) -> (result: Result<(), ActionError>)
    ensures
        result is Ok <==> found is Some,
        result is Err ==> result == Err::<(), ActionError>(ActionError::InvalidHandle),
{
    match found {
        Some(_) => Ok(()),
        None => Err(ActionError::InvalidHandle),
    }
}

/// Once an object has been added, a snapshot of all objects lists it, under a handle that
/// no object had before, beside the objects that were there before: with its data and
/// passability exactly as described, and with the body in the form in which the world holds
/// the described one.
pub proof fn law_added_object_is_listed<W: World, B>(
    before: SimulationState<W, B>,
    description: ObjectDescription,
    behavior: B,
    after: SimulationState<W, B>,
    snapshot: Map<usize, ObjectDescription>,
)
    requires
        before.objects.dom().subset_of(before.world.bodies_spec().dom()),
        spawned(before, description, behavior, after),
        is_snapshot_of(snapshot, after.world.bodies_spec(), after.objects, after.objects.dom()),
    ensures
        exists|handle: usize|
            {
                &&& !before.objects.contains_key(handle)
                &&& #[trigger] snapshot.contains_key(handle)
                &&& describes_body(
                    snapshot[handle],
                    after.world.bodies_spec()[handle],
                    description.associated_data@,
                )
                &&& W::holds_as(physical_body_of(description), after.world.bodies_spec()[handle])
                &&& snapshot[handle].passable == description.passable
                &&& snapshot.dom() == before.objects.dom().insert(handle)
            },
{
    let handle: usize = choose|handle: usize|
        spawned_under(before, description, behavior, after, handle);
    assert(snapshot.contains_key(handle));
}

/// In a step, every object keeps its own behavior: the behavior found under an object's
/// handle once the objects have chosen is the one that this object's own behavior left,
/// choosing from the object's own description.
pub proof fn law_each_object_keeps_its_behavior<W: World, B: ObjectBehavior<W::Scalar, B>>(
    before: SimulationState<W, B>,
    actions: Seq<(BodyHandle, Action<W::Scalar, B>)>,
    states: Seq<SimulationState<W, B>>,
    after: SimulationState<W, B>,
    succeeded: bool,
    handle: usize,
)
    requires
        stepped(before, actions, states, after, succeeded),
        before.objects.contains_key(handle),
    ensures
        exists|own_description: ObjectDescription, chosen: Option<Action<W::Scalar, B>>|
            {
                &&& describes_body(
                    own_description,
                    before.world.bodies_spec()[handle],
                    before.objects[handle],
                )
                &&& #[trigger] before.behaviors[handle].chooses(
                    own_description,
                    chosen,
                    states[0].behaviors[handle].behavior_state(),
                )
            },
{
    if exists|i: int| 0 <= i < actions.len() && actions[i].0.0 == handle {
        let i: int = choose|i: int| 0 <= i < actions.len() && actions[i].0.0 == handle;
        assert(may_choose(before, actions[i].0.0, Some(actions[i].1), states[0].behaviors[
            actions[i].0.0]));
    } else {
        assert(may_choose(before, handle, None, states[0].behaviors[handle]));
    }
}

/// A step in which no object acts keeps the objects and their behaviors' handles, keeps
/// which bodies the world holds, and advances the world by exactly one tick, spending the
/// forces that were registered.
pub proof fn law_quiet_step_only_advances_the_world<W: World, B: ObjectBehavior<W::Scalar, B>>(
    before: SimulationState<W, B>,
    states: Seq<SimulationState<W, B>>,
    after: SimulationState<W, B>,
)
    requires
        stepped(before, Seq::empty(), states, after, true),
    ensures
        after.objects == before.objects,
        after.behaviors.dom() == before.behaviors.dom(),
        after.world.bodies_spec().dom() == before.world.bodies_spec().dom(),
        after.world.steps_spec() == before.world.steps_spec() + 1,
        after.world.forces_spec() == Map::<usize, Force<W::Scalar>>::empty(),
        after.world.timestep_spec() == before.world.timestep_spec(),
{
    assert(states.len() == 1);
    assert(states.last() == states[0]);
}

/// An object spawned under a fresh handle that then destroys itself leaves the world, the
/// objects and the behaviors of a simulation as they were.
pub proof fn law_spawned_object_destroying_itself_restores<W: World, B>(
    before: SimulationState<W, B>,
    description: ObjectDescription,
    behavior: B,
    middle: SimulationState<W, B>,
    handle: usize,
    after: SimulationState<W, B>,
)
    requires
        before.behaviors.dom() == before.objects.dom(),
        spawned(before, description, behavior, middle),
        !before.objects.contains_key(handle),
        middle.objects.contains_key(handle),
        destroyed(middle, handle, after),
    ensures
        after.world.bodies_spec() == before.world.bodies_spec(),
        after.objects == before.objects,
        after.behaviors == before.behaviors,
{
    let fresh: usize = choose|fresh: usize|
        spawned_under(before, description, behavior, middle, fresh);
    assert(fresh == handle);
    assert(after.world.bodies_spec() =~= before.world.bodies_spec());
    assert(after.objects =~= before.objects);
    assert(after.behaviors =~= before.behaviors);
}

} // verus!
