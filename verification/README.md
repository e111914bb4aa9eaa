# inf3d

The rules of a voxel open-world game as a Verus library: path finding, ground
contact, the camera's decisions, menus and saves, a streamed tile world, a voxel
city, and the document model of a voxel model editor. What the functions do is
stated in their `requires` and `ensures` and proved by Verus; public proof
functions state what holds across functions.

## Layout

- `src/`: the verified library.
  - `grid`, `grid_map`, `columns`, `text`, `ieee`: integer grids, maps and sets over
    them, texts, and floating-point numbers as bit patterns with their order.
  - `column_table`, `dice`: the engine's hash tables and the random number streams,
    with what is relied on of them.
  - `pathfinding`: exact step costs, the search and its model, lines of sight,
    straightening, snapping.
  - `physics`, `gameplay`, `camera`, `quality`, `monitor`, `blocked`, `overrides`,
    `terrain`, `city`, `grass`, `mesh_grid`: the game's rules.
  - `menu`: save slots, screens, the test map.
  - `tiles`: tiles, chunks, biomes, stairs, trees, streaming.
  - `editor`: palette, voxel volume, parts, rig documents, `.vox` files, painting.
- `tests/`: tests on concrete values.
- `app/`: the programs: windows, files, noise and floating-point geometry.

Floating-point numbers appear in the library only as IEEE-754 bit patterns
(`ieee::Single`, `ieee::Double`): it compares them but does no arithmetic on them.
Sums, products and samples are computed in `app/`.
