# base

Building blocks of a particle simulation, with the integer core verified in
Verus.

- `src/` is the verified library:
  - `storage`, `aos_vec_storage`: element storages and batch removal by
    swap-removal (`remove_indices`), with the elements that survive stated
    exactly;
  - `collision_registry`: contact pairs, smaller index first;
  - `grid_key`, `grid`, `grid_pairs`: the spatial hash grid over integer cell
    keys, its traversal order, and the proof that a traversal visits every pair
    of particles in the same or neighbouring cells exactly once;
  - `soa_view`, `soa_storage`: borrow bookkeeping and capacity arithmetic of
    structure-of-arrays columns;
  - `component`, `model`: components addressed by identifier and kind;
  - `property`, `change`: property trees, their flattening, and change
    collection;
  - `schedule`, `flags`, `solver`, `mesh`: spawn timing, jitter seeds, collision
    switches and small records.
- `app/` holds the floating-point physics (over `glam` vectors), the raw-memory
  column storage and the simulation loop, built on the library.
- `tests/` exercises the library.
