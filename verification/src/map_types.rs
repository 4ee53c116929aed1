//! Block kinds of the world and the texture-atlas tiles they are drawn with.

use vstd::prelude::*;

verus! {

/// Width (and depth) of a chunk, in blocks.
pub const CHUNK_SIZE: usize = 16;

/// Height of the world, in blocks.
pub const MAP_HEIGHT: usize = 256;

/// Number of blocks in one chunk.
pub const CHUNK_VOLUME: usize = 65536;

/// A cell of the texture atlas, as (row, column).
pub type Tile = (u16, u16);

/// The four atlas corners of one quad, each as (column, row).
pub type QuadTexCoords = [[u16; 2]; 4];

#[derive(Clone, Copy, PartialEq, Eq, Structural, Debug)]
pub enum Cube {
    Empty,
    Solid(Solid),
    Translucent(Translucent),
    FilteredSolid(FilteredSolid),
    Plantlike(Plantlike),
    Harvestable(Harvestable),
    Custom(Custom),
}

#[derive(Clone, Copy, PartialEq, Eq, Structural, Debug)]
pub enum Solid {
    Bedrock,
    Dirt,
    Stone,
    PlankOak,
    PlankBirch,
    PlankJungle,
    PlankSpruce,
    SmoothStone,
    SmoothStoneSlabs,
    Bricks,
    TNT,
    Cobblestone,
    Sand,
    Gravel,
    OakLog,
    BlockOfIron,
    BlockOfGold,
    BlockOfDiamond,
    GoldOre,
    IronOre,
    CoalOre,
    Bookshelf,
    MossyCobblestone,
    Obsidian,
    Sponge,
    DiamondOre,
    RedstoneOre,
    StoneBricks,
    WoolWhite,
    SnowBlock,
    SnowyGrassBlock,
    Clay,
    Jukebox,
    Mycelium,
}

#[derive(Clone, Copy, PartialEq, Eq, Structural, Debug)]
pub enum Translucent {
    Glass,
    OakLeaves,
    MonsterSpawner,
    Ice,
}

#[derive(Clone, Copy, PartialEq, Eq, Structural, Debug)]
pub enum FilteredSolid {
    GrassBlock,
}

#[derive(Clone, Copy, PartialEq, Eq, Structural, Debug)]
pub enum Plantlike {
    Grass,
    FlowerRed,
    FlowerYellow,
    MushroomRed,
    MushroomBrown,
    TreeSamplingOak,
    TreeSamplingBirch,
    TreeSamplingJungle,
    TreeSamplingSpruce,
    TreeSamplingLikeIDK,
    DeadBush,
    Cobweb,
}

#[derive(Clone, Copy, PartialEq, Eq, Structural, Debug)]
pub enum Harvestable {
    Wheat1,
    Wheat2,
    Wheat3,
    Wheat4,
    Wheat5,
    Wheat6,
    Wheat7,
    Wheat8,
    NetherWart1,
    NetherWart2,
    NetherWart3,
}

#[derive(Clone, Copy, PartialEq, Eq, Structural, Debug)]
pub enum Custom {
    Cactus,
}

/// The blocks of a chunk, indexed by `z * CHUNK_SIZE * CHUNK_SIZE + y *
/// CHUNK_SIZE + x`. The biome tint of each column is kept by the renderer.
pub struct Chunk {
    pub cubes: Vec<Cube>,
}

/// Whether a block hides the faces of solid neighbours.
pub open spec fn spec_is_solid(c: Cube) -> bool {
    c is Solid || c is FilteredSolid
}

/// Whether a block hides the faces of translucent neighbours.
pub open spec fn spec_is_translucent_or_solid(c: Cube) -> bool {
    c is Translucent || c is Solid || c is FilteredSolid
}

impl Cube {
    pub fn is_solid(&self) -> (r: bool)
        ensures
            r == spec_is_solid(*self),
    {
        match self {
            Cube::Solid(_) | Cube::FilteredSolid(_) => true,
            _ => false,
        }
    }

    pub fn is_translucent_or_solid(&self) -> (r: bool)
        ensures
            r == spec_is_translucent_or_solid(*self),
    {
        match self {
            Cube::Translucent(_) | Cube::Solid(_) | Cube::FilteredSolid(_) => true,
            _ => false,
        }
    }
}

/// Corners of a side quad facing +x, or of any quad drawn in the same winding
/// (top, bottom, and the single-tile blocks).
pub open spec fn spec_quad_px(t: Tile) -> QuadTexCoords {
    let (y, x) = t;
    [[(x + 1) as u16, (y + 1) as u16], [x, (y + 1) as u16], [x, y], [(x + 1) as u16, y]]
}

/// Corners of a side quad facing -x.
pub open spec fn spec_quad_nx(t: Tile) -> QuadTexCoords {
    let (y, x) = t;
    [[(x + 1) as u16, y], [x, y], [x, (y + 1) as u16], [(x + 1) as u16, (y + 1) as u16]]
}

/// Corners of a side quad facing +y.
pub open spec fn spec_quad_py(t: Tile) -> QuadTexCoords {
    let (y, x) = t;
    [[x, (y + 1) as u16], [(x + 1) as u16, (y + 1) as u16], [(x + 1) as u16, y], [x, y]]
}

/// Corners of a side quad facing -y.
pub open spec fn spec_quad_ny(t: Tile) -> QuadTexCoords {
    let (y, x) = t;
    [[x, y], [(x + 1) as u16, y], [(x + 1) as u16, (y + 1) as u16], [x, (y + 1) as u16]]
}

/// Atlas tiles stay far below the edge of a `u16`.
pub open spec fn tile_ok(t: Tile) -> bool {
    t.0 < 64 && t.1 < 64
}

pub fn quad_px(t: Tile) -> (r: QuadTexCoords)
    requires
        tile_ok(t),
    ensures
        r == spec_quad_px(t),
{
    let (y, x) = t;
    [[x + 1, y + 1], [x, y + 1], [x, y], [x + 1, y]]
}

pub fn quad_nx(t: Tile) -> (r: QuadTexCoords)
    requires
        tile_ok(t),
    ensures
        r == spec_quad_nx(t),
{
    let (y, x) = t;
    [[x + 1, y], [x, y], [x, y + 1], [x + 1, y + 1]]
}

pub fn quad_py(t: Tile) -> (r: QuadTexCoords)
    requires
        tile_ok(t),
    ensures
        r == spec_quad_py(t),
{
    let (y, x) = t;
    [[x, y + 1], [x + 1, y + 1], [x + 1, y], [x, y]]
}

pub fn quad_ny(t: Tile) -> (r: QuadTexCoords)
    requires
        tile_ok(t),
    ensures
        r == spec_quad_ny(t),
{
    let (y, x) = t;
    [[x, y], [x + 1, y], [x + 1, y + 1], [x, y + 1]]
}

/// The (side, top, bottom) atlas tiles of each solid block.
pub open spec fn spec_solid_tiles(s: Solid) -> (Tile, Tile, Tile) {
    match s {
        Solid::Bedrock => ((1, 1), (1, 1), (1, 1)),
        Solid::Dirt => ((0, 2), (0, 2), (0, 2)),
        Solid::Stone => ((0, 1), (0, 1), (0, 1)),
        Solid::PlankOak => ((0, 4), (0, 4), (0, 4)),
        Solid::PlankBirch => ((13, 6), (13, 6), (13, 6)),
        Solid::PlankJungle => ((12, 7), (12, 7), (12, 7)),
        Solid::PlankSpruce => ((12, 6), (12, 6), (12, 6)),
        Solid::SmoothStone => ((0, 6), (0, 6), (0, 6)),
        Solid::SmoothStoneSlabs => ((0, 5), (0, 6), (0, 6)),
        Solid::Bricks => ((0, 7), (0, 7), (0, 7)),
        Solid::TNT => ((0, 8), (0, 9), (0, 10)),
        Solid::Cobblestone => ((1, 0), (1, 0), (1, 0)),
        Solid::Sand => ((1, 2), (1, 2), (1, 2)),
        Solid::Gravel => ((1, 3), (1, 3), (1, 3)),
        Solid::OakLog => ((1, 4), (1, 5), (1, 5)),
        Solid::BlockOfIron => ((1, 6), (1, 6), (1, 6)),
        Solid::BlockOfGold => ((1, 7), (1, 7), (1, 7)),
        Solid::BlockOfDiamond => ((1, 8), (1, 8), (1, 8)),
        Solid::GoldOre => ((2, 0), (2, 0), (2, 0)),
        Solid::IronOre => ((2, 1), (2, 1), (2, 1)),
        Solid::CoalOre => ((2, 2), (2, 2), (2, 2)),
        Solid::Bookshelf => ((2, 3), (0, 4), (0, 4)),
        Solid::MossyCobblestone => ((2, 4), (2, 4), (2, 4)),
        Solid::Obsidian => ((2, 5), (2, 5), (2, 5)),
        Solid::Sponge => ((3, 0), (3, 0), (3, 0)),
        Solid::DiamondOre => ((3, 2), (3, 2), (3, 2)),
        Solid::RedstoneOre => ((3, 3), (3, 3), (3, 3)),
        Solid::StoneBricks => ((3, 5), (3, 5), (3, 5)),
        Solid::WoolWhite => ((4, 0), (4, 0), (4, 0)),
        Solid::SnowBlock => ((4, 2), (4, 2), (4, 2)),
        Solid::SnowyGrassBlock => ((4, 4), (4, 2), (0, 2)),
        Solid::Clay => ((4, 8), (4, 8), (4, 8)),
        Solid::Jukebox => ((4, 10), (4, 11), (4, 10)),
        Solid::Mycelium => ((4, 13), (4, 14), (0, 2)),
    }
}

impl Solid {
    /// The (side, top, bottom) atlas tiles of this block.
    pub fn tiles(&self) -> (r: (Tile, Tile, Tile))
        ensures
            r == spec_solid_tiles(*self),
            tile_ok(r.0) && tile_ok(r.1) && tile_ok(r.2),
    {
        match self {
            Solid::Bedrock => ((1, 1), (1, 1), (1, 1)),
            Solid::Dirt => ((0, 2), (0, 2), (0, 2)),
            Solid::Stone => ((0, 1), (0, 1), (0, 1)),
            Solid::PlankOak => ((0, 4), (0, 4), (0, 4)),
            Solid::PlankBirch => ((13, 6), (13, 6), (13, 6)),
            Solid::PlankJungle => ((12, 7), (12, 7), (12, 7)),
            Solid::PlankSpruce => ((12, 6), (12, 6), (12, 6)),
            Solid::SmoothStone => ((0, 6), (0, 6), (0, 6)),
            Solid::SmoothStoneSlabs => ((0, 5), (0, 6), (0, 6)),
            Solid::Bricks => ((0, 7), (0, 7), (0, 7)),
            Solid::TNT => ((0, 8), (0, 9), (0, 10)),
            Solid::Cobblestone => ((1, 0), (1, 0), (1, 0)),
            Solid::Sand => ((1, 2), (1, 2), (1, 2)),
            Solid::Gravel => ((1, 3), (1, 3), (1, 3)),
            Solid::OakLog => ((1, 4), (1, 5), (1, 5)),
            Solid::BlockOfIron => ((1, 6), (1, 6), (1, 6)),
            Solid::BlockOfGold => ((1, 7), (1, 7), (1, 7)),
            Solid::BlockOfDiamond => ((1, 8), (1, 8), (1, 8)),
            Solid::GoldOre => ((2, 0), (2, 0), (2, 0)),
            Solid::IronOre => ((2, 1), (2, 1), (2, 1)),
            Solid::CoalOre => ((2, 2), (2, 2), (2, 2)),
            Solid::Bookshelf => ((2, 3), (0, 4), (0, 4)),
            Solid::MossyCobblestone => ((2, 4), (2, 4), (2, 4)),
            Solid::Obsidian => ((2, 5), (2, 5), (2, 5)),
            Solid::Sponge => ((3, 0), (3, 0), (3, 0)),
            Solid::DiamondOre => ((3, 2), (3, 2), (3, 2)),
            Solid::RedstoneOre => ((3, 3), (3, 3), (3, 3)),
            Solid::StoneBricks => ((3, 5), (3, 5), (3, 5)),
            Solid::WoolWhite => ((4, 0), (4, 0), (4, 0)),
            Solid::SnowBlock => ((4, 2), (4, 2), (4, 2)),
            Solid::SnowyGrassBlock => ((4, 4), (4, 2), (0, 2)),
            Solid::Clay => ((4, 8), (4, 8), (4, 8)),
            Solid::Jukebox => ((4, 10), (4, 11), (4, 10)),
            Solid::Mycelium => ((4, 13), (4, 14), (0, 2)),
        }
    }

    /// Atlas corners of the +x face.
    pub fn tex_coord_px(&self) -> (r: QuadTexCoords)
        ensures
            r == spec_quad_px(spec_solid_tiles(*self).0),
    {
        quad_px(self.tiles().0)
    }

    /// Atlas corners of the -x face.
    pub fn tex_coord_nx(&self) -> (r: QuadTexCoords)
        ensures
            r == spec_quad_nx(spec_solid_tiles(*self).0),
    {
        quad_nx(self.tiles().0)
    }

    /// Atlas corners of the +y face.
    pub fn tex_coord_py(&self) -> (r: QuadTexCoords)
        ensures
            r == spec_quad_py(spec_solid_tiles(*self).0),
    {
        quad_py(self.tiles().0)
    }

    /// Atlas corners of the -y face.
    pub fn tex_coord_ny(&self) -> (r: QuadTexCoords)
        ensures
            r == spec_quad_ny(spec_solid_tiles(*self).0),
    {
        quad_ny(self.tiles().0)
    }

    /// Atlas corners of the top face.
    pub fn tex_coord_pz(&self) -> (r: QuadTexCoords)
        ensures
            r == spec_quad_px(spec_solid_tiles(*self).1),
    {
        quad_px(self.tiles().1)
    }

    /// Atlas corners of the bottom face.
    pub fn tex_coord_nz(&self) -> (r: QuadTexCoords)
        ensures
            r == spec_quad_px(spec_solid_tiles(*self).2),
    {
        quad_px(self.tiles().2)
    }
}

/// The atlas tile of each translucent block.
pub open spec fn spec_translucent_tile(t: Translucent) -> Tile {
    match t {
        Translucent::Glass => (3, 1),
        Translucent::OakLeaves => (3, 4),
        Translucent::MonsterSpawner => (4, 1),
        Translucent::Ice => (4, 3),
    }
}

impl Translucent {
    pub fn tile(&self) -> (r: Tile)
        ensures
            r == spec_translucent_tile(*self),
            tile_ok(r),
    {
        match self {
            Translucent::Glass => (3, 1),
            Translucent::OakLeaves => (3, 4),
            Translucent::MonsterSpawner => (4, 1),
            Translucent::Ice => (4, 3),
        }
    }

    /// Atlas corners of every face of the block.
    pub fn tex_coord(&self) -> (r: QuadTexCoords)
        ensures
            r == spec_quad_px(spec_translucent_tile(*self)),
    {
        quad_px(self.tile())
    }
}

/// The atlas tile of each plant.
pub open spec fn spec_plantlike_tile(p: Plantlike) -> Tile {
    match p {
        Plantlike::Grass => (2, 7),
        Plantlike::FlowerRed => (0, 12),
        Plantlike::FlowerYellow => (0, 13),
        Plantlike::MushroomRed => (1, 12),
        Plantlike::MushroomBrown => (1, 13),
        Plantlike::TreeSamplingOak => (0, 15),
        Plantlike::TreeSamplingBirch => (4, 15),
        Plantlike::TreeSamplingJungle => (1, 14),
        Plantlike::TreeSamplingSpruce => (3, 15),
        Plantlike::TreeSamplingLikeIDK => (3, 8),
        Plantlike::DeadBush => (3, 7),
        Plantlike::Cobweb => (0, 11),
    }
}

impl Plantlike {
    pub fn tile(&self) -> (r: Tile)
        ensures
            r == spec_plantlike_tile(*self),
            tile_ok(r),
    {
        match self {
            Plantlike::Grass => (2, 7),
            Plantlike::FlowerRed => (0, 12),
            Plantlike::FlowerYellow => (0, 13),
            Plantlike::MushroomRed => (1, 12),
            Plantlike::MushroomBrown => (1, 13),
            Plantlike::TreeSamplingOak => (0, 15),
            Plantlike::TreeSamplingBirch => (4, 15),
            Plantlike::TreeSamplingJungle => (1, 14),
            Plantlike::TreeSamplingSpruce => (3, 15),
            Plantlike::TreeSamplingLikeIDK => (3, 8),
            Plantlike::DeadBush => (3, 7),
            Plantlike::Cobweb => (0, 11),
        }
    }

    /// Atlas corners of both crossed quads of the plant.
    pub fn tex_coord(&self) -> (r: QuadTexCoords)
        ensures
            r == spec_quad_px(spec_plantlike_tile(*self)),
    {
        quad_px(self.tile())
    }
}

/// The atlas tile of each crop stage.
pub open spec fn spec_harvestable_tile(h: Harvestable) -> Tile {
    match h {
        Harvestable::Wheat1 => (5, 8),
        Harvestable::Wheat2 => (5, 9),
        Harvestable::Wheat3 => (5, 10),
        Harvestable::Wheat4 => (5, 11),
        Harvestable::Wheat5 => (5, 12),
        Harvestable::Wheat6 => (5, 13),
        Harvestable::Wheat7 => (5, 14),
        Harvestable::Wheat8 => (5, 15),
        Harvestable::NetherWart1 => (14, 2),
        Harvestable::NetherWart2 => (14, 3),
        Harvestable::NetherWart3 => (14, 4),
    }
}

impl Harvestable {
    pub fn tile(&self) -> (r: Tile)
        ensures
            r == spec_harvestable_tile(*self),
            tile_ok(r),
    {
        match self {
            Harvestable::Wheat1 => (5, 8),
            Harvestable::Wheat2 => (5, 9),
            Harvestable::Wheat3 => (5, 10),
            Harvestable::Wheat4 => (5, 11),
            Harvestable::Wheat5 => (5, 12),
            Harvestable::Wheat6 => (5, 13),
            Harvestable::Wheat7 => (5, 14),
            Harvestable::Wheat8 => (5, 15),
            Harvestable::NetherWart1 => (14, 2),
            Harvestable::NetherWart2 => (14, 3),
            Harvestable::NetherWart3 => (14, 4),
        }
    }

    /// Atlas corners of the four crop quads.
    pub fn tex_coord(&self) -> (r: QuadTexCoords)
        ensures
            r == spec_quad_px(spec_harvestable_tile(*self)),
    {
        quad_px(self.tile())
    }
}

/// The base and overlay tiles of a filtered block, each as (side, top, bottom).
pub open spec fn spec_filtered_tiles(f: FilteredSolid) -> ((Tile, Tile, Tile), (Tile, Tile, Tile)) {
    match f {
        FilteredSolid::GrassBlock => (((0, 3), (0, 0), (0, 2)), ((2, 6), (11, 4), (11, 5))),
    }
}

impl FilteredSolid {
    pub fn tiles(&self) -> (r: ((Tile, Tile, Tile), (Tile, Tile, Tile)))
        ensures
            r == spec_filtered_tiles(*self),
            tile_ok(r.0.0) && tile_ok(r.0.1) && tile_ok(r.0.2),
            tile_ok(r.1.0) && tile_ok(r.1.1) && tile_ok(r.1.2),
    {
        match self {
            FilteredSolid::GrassBlock => (((0, 3), (0, 0), (0, 2)), ((2, 6), (11, 4), (11, 5))),
        }
    }

    /// Base and overlay corners of the +x face.
    pub fn extras_px(&self) -> (r: (QuadTexCoords, QuadTexCoords))
        ensures
            r == (spec_quad_px(spec_filtered_tiles(*self).0.0), spec_quad_px(
                spec_filtered_tiles(*self).1.0,
            )),
    {
        let (base, overlay) = self.tiles();
        (quad_px(base.0), quad_px(overlay.0))
    }

    /// Base and overlay corners of the -x face.
    pub fn extras_nx(&self) -> (r: (QuadTexCoords, QuadTexCoords))
        ensures
            r == (spec_quad_nx(spec_filtered_tiles(*self).0.0), spec_quad_nx(
                spec_filtered_tiles(*self).1.0,
            )),
    {
        let (base, overlay) = self.tiles();
        (quad_nx(base.0), quad_nx(overlay.0))
    }

    /// Base and overlay corners of the +y face.
    pub fn extras_py(&self) -> (r: (QuadTexCoords, QuadTexCoords))
        ensures
            r == (spec_quad_py(spec_filtered_tiles(*self).0.0), spec_quad_py(
                spec_filtered_tiles(*self).1.0,
            )),
    {
        let (base, overlay) = self.tiles();
        (quad_py(base.0), quad_py(overlay.0))
    }

    /// Base and overlay corners of the -y face.
    pub fn extras_ny(&self) -> (r: (QuadTexCoords, QuadTexCoords))
        ensures
            r == (spec_quad_ny(spec_filtered_tiles(*self).0.0), spec_quad_ny(
                spec_filtered_tiles(*self).1.0,
            )),
    {
        let (base, overlay) = self.tiles();
        (quad_ny(base.0), quad_ny(overlay.0))
    }

    /// Base and overlay corners of the top face.
    pub fn extras_pz(&self) -> (r: (QuadTexCoords, QuadTexCoords))
        ensures
            r == (spec_quad_px(spec_filtered_tiles(*self).0.1), spec_quad_px(
                spec_filtered_tiles(*self).1.1,
            )),
    {
        let (base, overlay) = self.tiles();
        (quad_px(base.1), quad_px(overlay.1))
    }

    /// Base and overlay corners of the bottom face.
    pub fn extras_nz(&self) -> (r: (QuadTexCoords, QuadTexCoords))
        ensures
            r == (spec_quad_px(spec_filtered_tiles(*self).0.2), spec_quad_px(
                spec_filtered_tiles(*self).1.2,
            )),
    {
        let (base, overlay) = self.tiles();
        (quad_px(base.2), quad_px(overlay.2))
    }
}

} // verus!
