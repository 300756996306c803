# roxlap_game_demo

The decision and data logic of a small voxel space-mining demo, written as a
Verus-verified library, with the game program around it in `app/`.

- `src/generation/chunks.rs` — chunk coordinates, the sorted sphere of
  chunks around a centre, the set of generated chunks and the chunks still
  missing.
- `src/systems/chunk_population.rs` — which chunks one tick populates and
  which sprite model slots their asteroids own.
- `src/input.rs`, `src/systems/miner_input.rs` — key bindings, the set of
  held keys, and the roll/translation axes they command.
- `src/world.rs` — the dense voxel grids of the ground plane and of the
  asteroid ball, packed by `roxlap_cavegen`.
- `src/fonts.rs` — text cursor layout and RGBA glyph fill.
- `src/systems/performance_info.rs`, `src/timing.rs` — frame statistics.
- `app/` — SDL window and events, the legion schedule, the GPU renderer, and
  the floating-point physics, autopilot and thrusters.
