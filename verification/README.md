# myelin_environment

The physical environment of a simulation and the objects that live in it, as a
Verus library.

- `src/` is the verified library:
  - `simulation_impl`: a simulation that keeps, for each object, its behavior and
    associated data under the handle of its body in a physical `World`, lets the
    objects act on every step and carries out their actions; the collision filter
    that ignores the handles of passable bodies, and the packing of a collider's
    slot index and generation into one handle;
    the contracts speak of a model of the `World` (its bodies, pending forces,
    step count and timestep) that the trait declares for its implementations;
  - `object`, `object_builder`: descriptions of objects and a builder for them;
  - `associate_lists`: pairs the elements of two lists, stretching the shorter one
    evenly over the longer one, with the index arithmetic of binary64 numbers;
  - `binary64`: round-to-nearest binary64 conversion, division and multiplication of
    non-negative values, carried out exactly on integers;
  - `properties`, `physics_handler`: the integer grid model, moving its objects
    within the non-negative quadrant, with extents measured as binary32 numbers;
  - `geometry`: the geometry types of `myelin_geometry` that descriptions carry.
- `app/` holds what the library cannot: the nphysics-backed `World`, rotation
  translation and force application on floats, serde copies of the descriptions
  and the check of a timestep before it is handed to a simulation.
- `tests/` runs the library on concrete values.
