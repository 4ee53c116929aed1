//! Verified core of a voxel world engine: block kinds and their atlas tiles,
//! terrain column generation, chunk meshing, the sliding chunk windows that
//! follow the player (flat and cubic), the terrain workers' job queue, the
//! chunk offsets visited nearest first, two LRU caches, the noise permutation
//! table, keyboard edge detection, the server's chunk-watch bookkeeping, and
//! mod compatibility checks.

pub mod basic_map;
pub mod basic_mesh;
pub mod chunk_cache;
pub mod coords;
pub mod coords3;
pub mod font;
pub mod grid;
pub mod grid3;
pub mod input;
pub mod level_sort;
pub mod lru_cache;
pub mod lru_cache_arc;
pub mod map_types;
pub mod mesh;
pub mod mods;
pub mod noise;
pub mod player;
pub mod terrain_cache;
pub mod terrain_manager;
pub mod tmap;
pub mod watchers;
pub mod workers;
pub mod worldgen;
