# water

A smoothed-particle water simulation rendered with OpenGL, whose integer logic is a
verified Verus library.

- `src/` (the `water` library, verified):
  - `cells.rs`: lattice cells and the lexicographic walk over boxes of cells.
  - `grid.rs`: the spatial hash from cells to particle indices.
  - `water.rs`: the particle lattice (ghost walls, empty gap, fluid block), the grids of
    fluid and ghost particles, the flattened grid that the compute shader reads, and the
    neighbourhood walk of the force passes.
  - `mesh.rs`: reading OBJ lines and sharing vertices among face corners.
  - `input.rs`: window input state and camera steps.
  - `gl_messages.rs`: OpenGL debug message reports and shader stages.
  - `pipeline.rs`: the compute passes of a step and their work group counts.
- `app/`: the program: window, OpenGL calls, file reading, and the floating-point physics
  (kernels, forces, integration, camera rotation), which use the library for every
  decision over cells, grids and input.
- `tests/`: tests of the library.
