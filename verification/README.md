# voxel_world

The logic of a voxel world, verified with Verus: what a chunk holds, how it is lit,
meshed, generated, edited and saved, how the simulation steps, and how settings are
kept.

- `src/world/` chunks, light, visibility, meshes, level of detail, terrain, edits
- `src/sim/` the fixed-step simulation and its reactions
- `src/settings/` graphics and session settings, their limits and their file
- `src/ui.rs`, `src/stash.rs`, `src/sky.rs` the command line, the inventory, the sky
- `tests/` examples that run the library
- `app/` what stands around it: floating-point noise and sky colours, the settings file,
  and what the renderer is told

Contracts speak of spec functions on plain values. The properties that relate several
functions are public proof functions named `lemma_..`, next to what they are about.
