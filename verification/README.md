# stag_toolkit

Real-time solutions for 3D games, with the index logic verified by Verus.

- `src/` is the verified library:
  - `math::volumetric`: dense 3D volume grids (linearize / delinearize with clamping,
    margin padding, splitting into worker slices); `math::primqueue`: a ring buffer of
    samples; `math::sdf`: kinds of distance-field shapes and operations.
  - `mesh::topology`: edges and triangles as vertex indices, the map of edges, index
    replacement, degenerate-triangle removal and unused-vertex removal;
    `mesh::trimesh`: the triangle mesh (join, edge collapse, merging and planar
    decimation driven by a caller's geometric test, optimization);
    `mesh::strip`: triangle strips.
  - `extension`: the Godot-extension flavour: its triangle mesh, its volume grid with
    32-bit coordinates, packed index arrays and the slots of mesh surface arrays.
  - `simulation::rope`: which bound points enclose a point of a rope.
  - `utils`: how many workers a workload needs; `classes`: settings enums.
- `app/` holds the floating-point geometry around it (face normals and angles, distance
  tests, smooth normals, volume blurring, queue statistics, the rope simulation) and the
  machine's thread count.
- `tests/` exercises the library on concrete values.
