use ft_vox::basic_mesh::create_vertices;
use ft_vox::font::glyph_cell;
use ft_vox::basic_map::{chunk_from_density, Cube as BasicCube, Solid as BasicSolid, CHUNK_SIZE as BASIC_CHUNK_SIZE};
use ft_vox::map_types::{Cube, Custom, FilteredSolid, Plantlike, Solid, Translucent};
use ft_vox::worldgen::{column_cube, generate_cubes, Column, WATER_LEVEL};

#[test]
fn solidity_of_cube_kinds() {
    assert!(Cube::Solid(Solid::Stone).is_solid());
    assert!(Cube::FilteredSolid(FilteredSolid::GrassBlock).is_solid());
    assert!(!Cube::Translucent(Translucent::Glass).is_solid());
    assert!(!Cube::Empty.is_solid());
    assert!(!Cube::Plantlike(Plantlike::Grass).is_solid());
    assert!(!Cube::Custom(Custom::Cactus).is_solid());
    assert!(Cube::Translucent(Translucent::Ice).is_translucent_or_solid());
    assert!(Cube::Solid(Solid::Dirt).is_translucent_or_solid());
    assert!(!Cube::Plantlike(Plantlike::FlowerRed).is_translucent_or_solid());
    assert!(!Cube::Empty.is_translucent_or_solid());
}

#[test]
fn solid_atlas_corners() {
    assert_eq!(Solid::Dirt.tex_coord_px(), [[3, 1], [2, 1], [2, 0], [3, 0]]);
    assert_eq!(Solid::Dirt.tex_coord_nx(), [[3, 0], [2, 0], [2, 1], [3, 1]]);
    assert_eq!(Solid::Dirt.tex_coord_py(), [[2, 1], [3, 1], [3, 0], [2, 0]]);
    assert_eq!(Solid::Dirt.tex_coord_ny(), [[2, 0], [3, 0], [3, 1], [2, 1]]);
    assert_eq!(Solid::TNT.tex_coord_pz(), [[10, 1], [9, 1], [9, 0], [10, 0]]);
    assert_eq!(Solid::TNT.tex_coord_nz(), [[11, 1], [10, 1], [10, 0], [11, 0]]);
    assert_eq!(Translucent::Glass.tex_coord(), [[2, 4], [1, 4], [1, 3], [2, 3]]);
}

#[test]
fn basic_cubes() {
    assert!(BasicCube::Solid(BasicSolid::Stone).is_solid());
    assert!(!BasicCube::Empty.is_solid());
    let grass = BasicCube::Solid(BasicSolid::Grass);
    assert_eq!(grass.tex_coord_px(), [[4, 1], [3, 1], [3, 0], [4, 0]]);
    assert_eq!(grass.tex_coord_pz(), [[0, 0], [1, 0], [1, 1], [0, 1]]);
    assert_eq!(grass.tex_coord_nz(), [[3, 0], [2, 0], [2, 1], [3, 1]]);
}

#[test]
fn basic_chunk_from_density() {
    let n = BASIC_CHUNK_SIZE * BASIC_CHUNK_SIZE * BASIC_CHUNK_SIZE;
    let mut signs = vec![false; n];
    signs[0] = true;
    signs[n - 1] = true;
    let cubes = chunk_from_density(&signs);
    assert_eq!(cubes.len(), 2197);
    assert_eq!(cubes[0], BasicCube::Solid(BasicSolid::Grass));
    assert_eq!(cubes[1], BasicCube::Empty);
    assert_eq!(cubes[n - 1], BasicCube::Solid(BasicSolid::Grass));
}

fn plain_column(height: usize) -> Column {
    Column {
        height,
        is_sand: false,
        desert_plant: false,
        grass_plant: false,
        bush: false,
        cactus: false,
        red_flower: false,
        yellow_flower: false,
    }
}

#[test]
fn column_layers_of_a_grassland_column() {
    let c = plain_column(130);
    assert_eq!(column_cube(0, &c), Cube::Solid(Solid::Bedrock));
    assert_eq!(column_cube(50, &c), Cube::Solid(Solid::Stone));
    assert_eq!(column_cube(127, &c), Cube::Solid(Solid::Stone));
    assert_eq!(column_cube(128, &c), Cube::Solid(Solid::Dirt));
    assert_eq!(column_cube(129, &c), Cube::FilteredSolid(FilteredSolid::GrassBlock));
    assert_eq!(column_cube(130, &c), Cube::Empty);
    assert_eq!(column_cube(200, &c), Cube::Empty);
}

#[test]
fn column_under_water_freezes() {
    let c = plain_column(100);
    assert_eq!(column_cube(98, &c), Cube::Solid(Solid::Gravel));
    assert_eq!(column_cube(99, &c), Cube::Solid(Solid::Gravel));
    assert_eq!(column_cube(100, &c), Cube::Translucent(Translucent::Ice));
    assert_eq!(column_cube(WATER_LEVEL, &c), Cube::Translucent(Translucent::Ice));
    assert_eq!(column_cube(WATER_LEVEL + 1, &c), Cube::Empty);
}

#[test]
fn column_decorations() {
    let mut c = plain_column(130);
    c.grass_plant = true;
    c.red_flower = true;
    assert_eq!(column_cube(130, &c), Cube::Plantlike(Plantlike::FlowerRed));
    c.red_flower = false;
    assert_eq!(column_cube(130, &c), Cube::Plantlike(Plantlike::Grass));
    let mut d = plain_column(130);
    d.is_sand = true;
    d.desert_plant = true;
    d.cactus = true;
    assert_eq!(column_cube(129, &d), Cube::Solid(Solid::Sand));
    assert_eq!(column_cube(130, &d), Cube::Custom(Custom::Cactus));
    assert_eq!(column_cube(131, &d), Cube::Custom(Custom::Cactus));
    assert_eq!(column_cube(132, &d), Cube::Empty);
    d.bush = true;
    d.cactus = false;
    assert_eq!(column_cube(130, &d), Cube::Plantlike(Plantlike::DeadBush));
}

#[test]
fn generated_chunk_follows_its_columns() {
    let mut columns = vec![plain_column(130); 256];
    columns[17] = plain_column(120);
    let chunk = generate_cubes(&columns);
    assert_eq!(chunk.cubes.len(), 65536);
    assert_eq!(chunk.cubes[0], Cube::Solid(Solid::Bedrock));
    assert_eq!(chunk.cubes[129 * 256], Cube::FilteredSolid(FilteredSolid::GrassBlock));
    assert_eq!(chunk.cubes[119 * 256 + 16 + 1], Cube::FilteredSolid(FilteredSolid::GrassBlock));
    assert_eq!(chunk.cubes[129 * 256 + 16 + 1], Cube::Empty);
}

#[test]
fn font_glyph_cells_follow_ascii() {
    assert_eq!(glyph_cell('0'), Some((0, 3)));
    assert_eq!(glyph_cell('9'), Some((9, 3)));
    assert_eq!(glyph_cell(':'), Some((10, 3)));
    assert_eq!(glyph_cell('A'), Some((1, 4)));
    assert_eq!(glyph_cell('O'), Some((15, 4)));
    assert_eq!(glyph_cell('P'), Some((0, 5)));
    assert_eq!(glyph_cell('Z'), Some((10, 5)));
    assert_eq!(glyph_cell('a'), Some((1, 6)));
    assert_eq!(glyph_cell('z'), Some((10, 7)));
    assert_eq!(glyph_cell(' '), Some((0, 2)));
    assert_eq!(glyph_cell(';'), None);
    assert_eq!(glyph_cell('!'), None);
    assert_eq!(glyph_cell('é'), None);
}

#[test]
fn basic_cube_mesh() {
    let (v, i) = create_vertices(3, -4, 5, 2);
    assert_eq!(v.len(), 24);
    assert_eq!(v[0].block, [3, -4, 5]);
    assert_eq!(v[0].corner, [0, 0, 1]);
    assert_eq!(v[4].corner, [0, 1, 0]);
    assert_eq!(v[4].tex, [1, 0]);
    assert_eq!(v[23].corner, [1, 0, 0]);
    assert_eq!(v[23].tex, [0, 1]);
    assert_eq!(i.len(), 36);
    assert_eq!(&i[0..6], &[48, 49, 50, 50, 51, 48]);
    assert_eq!(&i[30..36], &[68, 69, 70, 70, 71, 68]);
}
