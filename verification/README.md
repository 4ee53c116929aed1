# ft_vox

A voxel world engine's core, written in Verus and verified.

- `src/` is the library. Every module states its contracts over mathematical
  models (sequences, sets, maps) and proves them: block kinds and atlas tiles
  (`map_types`, `basic_map`), terrain columns (`worldgen`), chunk meshing
  (`mesh`, `basic_mesh`), the ring-buffer windows of chunks around the eye
  (`grid`, `grid3`, `terrain_cache`, `chunk_cache`), the terrain job queue
  that hands workers mesh jobs before generation jobs (`terrain_manager`), the offsets visited
  nearest first (`coords`, `coords3`, `level_sort`), two LRU caches
  (`lru_cache`, `lru_cache_arc`), the noise permutation table (`noise`),
  keyboard edge detection (`input`), movement modes (`player`), the font
  sheet (`font`), the server's chunk-watch bookkeeping (`watchers`), mod
  checks (`mods`, `tmap`) and the terrain worker count (`workers`).
- `tests/` exercises the library on concrete values.
- `app/` is the game server (`ft_vox [port]`) and the floating-point and
  networking pieces of the game that need no window: wire messages,
  gradient noise, terrain generation, the player's body and view culling.
