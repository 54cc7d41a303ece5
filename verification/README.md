# game_engine

A small 2D physics engine whose integer logic is verified with Verus.

## Layout

- `src/` — the verified library.
  - `engine/entity/` and `engine/entity_component_storage.rs`: entities and
    their component storage, generic over the rigid-body and render-body
    types, with every list kept aligned to one slot per entity.
  - `engine/event/`: key and mouse events.
  - `engine/game_engine.rs`: the game loop's update schedule, a step
    function that decides whether another update runs in the current frame
    (at most five per frame).
  - `engine/physics_engine/broadphase/spatial_subdivision/`: the
    four-pass spatial subdivision broad phase. An object's bounding circle,
    measured against the grid, becomes a home cell, up to three phantom cells
    and control bits; the cells of all objects are sorted and scanned into
    runs of one grid cell. Pass `i + 1` (of 1 to 4) takes the runs of parity
    class `i` and lists the objects of their pairs, skipping a pair only where
    both objects occupy the home class of one of them and that class's pass
    comes before the current pass (the two need not share a grid cell of that
    class). Its contracts say exactly which candidate lists each pass
    returns. Its proof functions state, for cells whose keys tell distinct
    grid cells apart (as on any grid below 1000 columns and rows), that
    every pair sharing a cell that the skip rule does not leave to an earlier
    pass is tested, that every list holds at least two objects, and that no
    object is listed twice in one pass.
  - `engine/physics_engine/broadphase/blockmap.rs`: the block-map broad
    phase, which lists for each grid cell the bodies of its 3×3
    neighbourhood; adjacent bodies are proved to share a list.
  - `engine/physics_engine/broadphase/occupancy.rs`: counting home and
    phantom occupants per cell.
  - `engine/physics_engine/narrowphase/naive.rs`: which shape-pair test the
    narrow phase runs for each pair of candidates, and the collision graph
    built from the tests' reports.
  - `engine/physics_engine/collision`, `constraint`: candidate lists and the
    collision handler and constraint resolver types.
- `tests/` — tests of the library on concrete values.
- `app/` — the floating-point and windowing side: rigid bodies, geometry,
  the separating-axis test, constraints, the Verlet integrator, the
  floating-point front ends of the broad phases (which measure circles
  against the grid and hand the library integers), and the conversion of
  window events.
