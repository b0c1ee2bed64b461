# bevy_ecs stages, verified

Stages order the generations of a world's components: a component added at
some stage is visible at that stage and every later one, invisible before it,
and only the stage that added it may change or remove it.

- `src/stage.rs`: `Stage`, `StageMarker`, `StageComponentId`, and the laws on
  stage numbers and sparse-set positions.
- `src/component.rs`: `ComponentId`.
- `src/storage.rs`: the `SparseSetIndex` trait.
- `src/world.rs`: `World`, a store of staged components, with the contracts of
  its operations and the laws of stage visibility and immutability.
- `tests/`: the stage scenarios, each system replayed as calls on a `World`.
