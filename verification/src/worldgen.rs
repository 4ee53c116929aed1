//! Terrain generation: which block fills each height of a column, given the
//! column's surface height, whether it lies in a sandy area, and the random
//! rolls for its surface decoration.

use crate::map_types::{
    Chunk, Cube, Custom, FilteredSolid, Plantlike, Solid, Translucent, CHUNK_SIZE, CHUNK_VOLUME,
    MAP_HEIGHT,
};
use vstd::prelude::*;

verus! {

/// Blocks at or below this height that are above the surface are ice.
pub const WATER_LEVEL: usize = 111;

/// What the noise decided for one column, besides its height.
#[derive(Clone, Copy, PartialEq, Eq, Structural, Debug)]
pub struct Column {
    /// Height of the surface block.
    pub height: usize,
    /// The column lies in a dry, sandy area.
    pub is_sand: bool,
    /// Decoration roll passed the desert threshold.
    pub desert_plant: bool,
    /// Decoration roll passed the grassland threshold.
    pub grass_plant: bool,
    /// Variant roll is above the dead-bush threshold.
    pub bush: bool,
    /// Variant roll is at or below the dead-bush threshold.
    pub cactus: bool,
    /// Variant roll calls for a red flower.
    pub red_flower: bool,
    /// Variant roll calls for a yellow flower.
    pub yellow_flower: bool,
}

/// A column whose surface lies inside the world.
pub open spec fn column_ok(c: Column) -> bool {
    c.height < MAP_HEIGHT
}

/// The block at height `z` of column `c`.
pub open spec fn spec_column_cube(z: int, c: Column) -> Cube {
    let h = c.height as int;
    let water = WATER_LEVEL as int;
    if z == 0 {
        Cube::Solid(Solid::Bedrock)
    } else if h + 1 == z && c.is_sand && z > water && c.desert_plant && c.cactus {
        Cube::Custom(Custom::Cactus)
    } else if h < z {
        if z <= water {
            Cube::Translucent(Translucent::Ice)
        } else {
            Cube::Empty
        }
    } else if h == z {
        if z <= water {
            Cube::Translucent(Translucent::Ice)
        } else if c.is_sand && c.desert_plant {
            if c.bush {
                Cube::Plantlike(Plantlike::DeadBush)
            } else {
                Cube::Custom(Custom::Cactus)
            }
        } else if !c.is_sand && c.grass_plant {
            if c.red_flower {
                Cube::Plantlike(Plantlike::FlowerRed)
            } else if c.yellow_flower {
                Cube::Plantlike(Plantlike::FlowerYellow)
            } else {
                Cube::Plantlike(Plantlike::Grass)
            }
        } else {
            Cube::Empty
        }
    } else if h == z + 1 {
        if !c.is_sand && h == water {
            Cube::Solid(Solid::Dirt)
        } else if !c.is_sand && h < water {
            Cube::Solid(Solid::Gravel)
        } else if c.is_sand {
            Cube::Solid(Solid::Sand)
        } else {
            Cube::FilteredSolid(FilteredSolid::GrassBlock)
        }
    } else if h == z + 2 {
        if !c.is_sand && h >= water {
            Cube::Solid(Solid::Dirt)
        } else if !c.is_sand {
            Cube::Solid(Solid::Gravel)
        } else {
            Cube::Solid(Solid::Sand)
        }
    } else {
        Cube::Solid(Solid::Stone)
    }
}

/// The block at height `z` of column `c`.
pub fn column_cube(z: usize, c: &Column) -> (r: Cube)
    requires
        column_ok(*c),
    ensures
        r == spec_column_cube(z as int, *c),
        z == 0 ==> r == Cube::Solid(Solid::Bedrock),
        0 < z && z + 3 <= c.height ==> r == Cube::Solid(Solid::Stone),
        z > c.height + 1 ==> r == if z <= WATER_LEVEL {
            Cube::Translucent(Translucent::Ice)
        } else {
            Cube::Empty
        },
        0 < z < c.height ==> spec_is_solid_ground(r),
{
    let h = c.height;
    if z == 0 {
        Cube::Solid(Solid::Bedrock)
    } else if h + 1 == z && c.is_sand && z > WATER_LEVEL && c.desert_plant && c.cactus {
        Cube::Custom(Custom::Cactus)
    } else if h < z {
        if z <= WATER_LEVEL {
            Cube::Translucent(Translucent::Ice)
        } else {
            Cube::Empty
        }
    } else if h == z {
        if z <= WATER_LEVEL {
            Cube::Translucent(Translucent::Ice)
        } else if c.is_sand && c.desert_plant {
            if c.bush {
                Cube::Plantlike(Plantlike::DeadBush)
            } else {
                Cube::Custom(Custom::Cactus)
            }
        } else if !c.is_sand && c.grass_plant {
            if c.red_flower {
                Cube::Plantlike(Plantlike::FlowerRed)
            } else if c.yellow_flower {
                Cube::Plantlike(Plantlike::FlowerYellow)
            } else {
                Cube::Plantlike(Plantlike::Grass)
            }
        } else {
            Cube::Empty
        }
    } else if h == z + 1 {
        if !c.is_sand && h == WATER_LEVEL {
            Cube::Solid(Solid::Dirt)
        } else if !c.is_sand && h < WATER_LEVEL {
            Cube::Solid(Solid::Gravel)
        } else if c.is_sand {
            Cube::Solid(Solid::Sand)
        } else {
            Cube::FilteredSolid(FilteredSolid::GrassBlock)
        }
    } else if h == z + 2 {
        if !c.is_sand && h >= WATER_LEVEL {
            Cube::Solid(Solid::Dirt)
        } else if !c.is_sand {
            Cube::Solid(Solid::Gravel)
        } else {
            Cube::Solid(Solid::Sand)
        }
    } else {
        Cube::Solid(Solid::Stone)
    }
}

/// The decoration on the surface of a column above the water: a sandy column
/// whose desert roll passed grows a dead bush when its variant roll is above
/// the dead-bush threshold and a cactus otherwise; a grassy column whose
/// grassland roll passed grows a red flower when the red roll is set, else a
/// yellow flower when the yellow roll is set, else grass; any other column
/// has nothing on its surface. Flowers and grass grow only off sand, dead
/// bushes only on it. A sandy column whose desert roll passed and whose
/// variant roll calls for a cactus has a second cactus block on top; above
/// any other surface there is air.
pub proof fn lemma_surface_decoration(c: Column)
    requires
        column_ok(c),
        c.height > WATER_LEVEL,
    ensures
        ({
            let s = spec_column_cube(c.height as int, c);
            &&& c.is_sand && c.desert_plant ==> {
                &&& (s == Cube::Plantlike(Plantlike::DeadBush) <==> c.bush)
                &&& (s == Cube::Custom(Custom::Cactus) <==> !c.bush)
            }
            &&& !c.is_sand && c.grass_plant ==> {
                &&& (s == Cube::Plantlike(Plantlike::FlowerRed) <==> c.red_flower)
                &&& (s == Cube::Plantlike(Plantlike::FlowerYellow) <==> (!c.red_flower && c.yellow_flower))
                &&& (s == Cube::Plantlike(Plantlike::Grass) <==> (!c.red_flower && !c.yellow_flower))
            }
            &&& !(c.is_sand && c.desert_plant) && !(!c.is_sand && c.grass_plant) ==> s == Cube::Empty
            &&& (s == Cube::Plantlike(Plantlike::FlowerRed) || s == Cube::Plantlike(Plantlike::FlowerYellow)
                || s == Cube::Plantlike(Plantlike::Grass)) ==> !c.is_sand
            &&& s == Cube::Plantlike(Plantlike::DeadBush) ==> c.is_sand
            &&& c.height + 1 < MAP_HEIGHT ==> spec_column_cube(c.height + 1, c) == if c.is_sand
                && c.desert_plant && c.cactus {
                Cube::Custom(Custom::Cactus)
            } else {
                Cube::Empty
            }
        }),
{
}

/// The layers of a column: bedrock at the bottom, stone up to three below
/// the surface; the two layers under the surface are sand in a sandy column;
/// in another column they are dirt under grass above the water, dirt at the
/// water level, and gravel below it; a surface at or below the water, and
/// the air above it up to the water level, are ice.
pub proof fn lemma_column_layers(c: Column, z: int)
    requires
        column_ok(c),
        0 <= z < MAP_HEIGHT,
    ensures
        ({
            let h = c.height as int;
            let w = WATER_LEVEL as int;
            let b = spec_column_cube(z, c);
            &&& z == 0 ==> b == Cube::Solid(Solid::Bedrock)
            &&& 0 < z && z + 3 <= h ==> b == Cube::Solid(Solid::Stone)
            &&& 0 < z && h - 2 <= z < h && c.is_sand ==> b == Cube::Solid(Solid::Sand)
            &&& 0 < z && z == h - 1 && !c.is_sand ==> b == if h > w {
                Cube::FilteredSolid(FilteredSolid::GrassBlock)
            } else if h == w {
                Cube::Solid(Solid::Dirt)
            } else {
                Cube::Solid(Solid::Gravel)
            }
            &&& 0 < z && z == h - 2 && !c.is_sand ==> b == if h >= w {
                Cube::Solid(Solid::Dirt)
            } else {
                Cube::Solid(Solid::Gravel)
            }
            &&& 0 < z && h <= z <= w ==> b == Cube::Translucent(Translucent::Ice)
            &&& z > w && z > h + 1 ==> b == Cube::Empty
        }),
{
}

/// Ground that hides the faces next to it: everything strictly between the
/// bedrock and the surface is solid.
pub open spec fn spec_is_solid_ground(c: Cube) -> bool {
    c is Solid || c is FilteredSolid
}

/// Index of block (x, y, z) in a chunk: layers of `z`, rows of `y`.
pub open spec fn cube_index(x: int, y: int, z: int) -> int {
    z * (CHUNK_SIZE * CHUNK_SIZE) as int + y * CHUNK_SIZE as int + x
}

/// The cubes of a chunk whose columns, in the order `y * CHUNK_SIZE + x`, are
/// `columns`.
pub fn generate_cubes(columns: &Vec<Column>) -> (r: Chunk)
    requires
        columns@.len() == CHUNK_SIZE * CHUNK_SIZE,
        forall|i: int| 0 <= i < columns@.len() ==> column_ok(#[trigger] columns@[i]),
    ensures
        r.cubes@.len() == CHUNK_VOLUME,
        forall|x: int, y: int, z: int|
            0 <= x < CHUNK_SIZE && 0 <= y < CHUNK_SIZE && 0 <= z < MAP_HEIGHT ==> r.cubes@[#[trigger] cube_index(x, y, z)]
                == spec_column_cube(z, columns@[y * CHUNK_SIZE as int + x]),
{
    let mut cubes: Vec<Cube> = Vec::new();
    let mut z: usize = 0;
    while z < MAP_HEIGHT
        invariant
            z <= MAP_HEIGHT,
            columns@.len() == CHUNK_SIZE * CHUNK_SIZE,
            forall|i: int| 0 <= i < columns@.len() ==> column_ok(#[trigger] columns@[i]),
            cubes@.len() == z * 256,
            forall|x: int, y: int, zz: int|
                0 <= x < CHUNK_SIZE && 0 <= y < CHUNK_SIZE && 0 <= zz < z ==> cubes@[#[trigger] cube_index(x, y, zz)]
                    == spec_column_cube(zz, columns@[y * CHUNK_SIZE as int + x]),
        decreases MAP_HEIGHT - z,
    {
        let mut i: usize = 0;
        while i < 256
            invariant
                z < MAP_HEIGHT,
                i <= 256,
                columns@.len() == CHUNK_SIZE * CHUNK_SIZE,
                forall|k: int| 0 <= k < columns@.len() ==> column_ok(#[trigger] columns@[k]),
                cubes@.len() == z * 256 + i,
                forall|x: int, y: int, zz: int|
                    0 <= x < CHUNK_SIZE && 0 <= y < CHUNK_SIZE && 0 <= zz < z ==> cubes@[#[trigger] cube_index(x, y, zz)]
                        == spec_column_cube(zz, columns@[y * CHUNK_SIZE as int + x]),
                forall|k: int| 0 <= k < i ==> cubes@[z * 256 + k] == spec_column_cube(z as int, #[trigger] columns@[k]),
            decreases 256 - i,
        {
            let cube = column_cube(z, &columns[i]);
            cubes.push(cube);
            i = i + 1;
        }
        proof {
            assert forall|x: int, y: int, zz: int|
                0 <= x < CHUNK_SIZE && 0 <= y < CHUNK_SIZE && 0 <= zz < z + 1 implies cubes@[#[trigger] cube_index(x, y, zz)]
                    == spec_column_cube(zz, columns@[y * CHUNK_SIZE as int + x]) by {
                if zz == z {
                    let k = y * 16 + x;
                    assert(0 <= k < 256);
                    assert(cube_index(x, y, zz) == z * 256 + k);
                }
            }
        }
        z = z + 1;
    }
    Chunk { cubes }
}

} // verus!
