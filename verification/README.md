# repercussion

The rules of a small mining game, verified with Verus.

- `src/` is the verified library:
  - `tiles.rs`: the tile map in fixed point (health, fall height), its
    construction, lookups, the jaunter chain, the window of tiles around a
    point, and the map's tick (support settling, collapse, falling rocks),
    with the laws that the tick keeps.
  - `map.rs`: building, drilling and blasting tiles, and the wallet.
  - `components.rs`: the decisions of the game's components (drills, the
    demon holder, climbing, demon kinds, animation choice).
  - `draw_batch.rs`: quads batched by texture page, with valid indices.
  - `game_state.rs`: materials, shader text, options versions (through
    `semver`), the light pass plan.
  - `game.rs`: screen transitions and entity bookkeeping.
- `tests/` runs the library on concrete values.
- `app/` is the program around it: drawing, sound, input, the entity world,
  saving and loading, and the float physics.
