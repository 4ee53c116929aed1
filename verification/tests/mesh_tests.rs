use ft_vox::map_types::{Chunk, Cube, Custom, FilteredSolid, Harvestable, Plantlike, Solid, Translucent};
use ft_vox::mesh::{
    create_mesh_for_chunk, create_vertices_for_custom, create_vertices_for_filtered_solid,
    create_vertices_for_harvestable, create_vertices_for_plantlike, create_vertices_for_solid,
    create_vertices_for_translucent, TintSource,
};

fn empty_chunk() -> Chunk {
    Chunk { cubes: vec![Cube::Empty; 65536] }
}

#[test]
fn solid_block_with_one_open_face() {
    let (v, i) = create_vertices_for_solid(Solid::Dirt, 5, -3, 7, false, true, true, true, true, true, 8);
    assert_eq!(v.len(), 4);
    assert_eq!(i, vec![8, 9, 10, 10, 11, 8]);
    assert_eq!(v[0].block, [5, -3, 7]);
    assert_eq!(v[0].offset, [16, 0, 0]);
    assert_eq!(v[2].offset, [16, 16, 16]);
    assert_eq!(v[0].tex, [3, 1]);
    assert_eq!(v[3].tex, [3, 0]);
    assert_eq!(v[0].tint, TintSource::Untinted);
}

#[test]
fn solid_block_fully_hidden_or_fully_open() {
    let (v, i) = create_vertices_for_solid(Solid::Stone, 0, 0, 0, true, true, true, true, true, true, 0);
    assert!(v.is_empty());
    assert!(i.is_empty());
    let (v, i) = create_vertices_for_solid(Solid::Stone, 0, 0, 0, false, false, false, false, false, false, 0);
    assert_eq!(v.len(), 24);
    assert_eq!(i.len(), 36);
    assert_eq!(i[35], 20);
    assert_eq!(v[16].offset, [0, 0, 16]);
}

#[test]
fn translucent_block_open_top() {
    let (v, i) = create_vertices_for_translucent(Translucent::Glass, 1, 2, 3, true, true, true, true, false, true, 0);
    assert_eq!(v.len(), 4);
    assert_eq!(i, vec![0, 1, 2, 2, 3, 0]);
    assert_eq!(v[0].offset, [0, 0, 16]);
    assert_eq!(v[0].tex, [2, 4]);
}

#[test]
fn filtered_block_takes_column_tints() {
    let tints = [TintSource::Center(0), TintSource::Center(1), TintSource::Center(16), TintSource::Center(17)];
    let (v, _) = create_vertices_for_filtered_solid(
        FilteredSolid::GrassBlock, 0, 0, 0, true, true, true, true, false, true, tints, 0,
    );
    assert_eq!(v.len(), 4);
    // Top face corners (0,0), (1,0), (1,1), (0,1) of the column grid.
    assert_eq!(v[0].tint, TintSource::Center(0));
    assert_eq!(v[1].tint, TintSource::Center(1));
    assert_eq!(v[2].tint, TintSource::Center(17));
    assert_eq!(v[3].tint, TintSource::Center(16));
}

#[test]
fn plants_crops_and_cacti() {
    let (v, i) = create_vertices_for_plantlike(Plantlike::Grass, 0, 0, 0, 4);
    assert_eq!(v.len(), 8);
    assert_eq!(i, vec![4, 5, 6, 6, 7, 4, 8, 9, 10, 10, 11, 8]);
    let (v, i) = create_vertices_for_harvestable(Harvestable::Wheat1, 0, 0, 0, 0);
    assert_eq!(v.len(), 16);
    assert_eq!(i.len(), 24);
    assert_eq!(v[0].offset, [12, 0, 0]);
    let ((ov, oi), (tv, ti)) = create_vertices_for_custom(Custom::Cactus, 0, 0, 0, 3, 0);
    assert!(ov.is_empty() && oi.is_empty());
    assert_eq!(tv.len(), 24);
    assert_eq!(ti.len(), 36);
    assert_eq!(tv[0].offset, [15, 0, 0]);
    assert_eq!(tv[0].tex, [7, 5]);
}

#[test]
fn empty_chunk_has_no_buffers() {
    let c = empty_chunk();
    let m = create_mesh_for_chunk(&c, 0, 0, &c, &c, &c, &c);
    assert!(m.opaque_buffers.is_empty());
    assert!(m.translucent_buffers.is_empty());
}

#[test]
fn lone_block_meshes_all_faces() {
    let mut c = empty_chunk();
    let e = empty_chunk();
    c.cubes[0] = Cube::Solid(Solid::Stone);
    c.cubes[1] = Cube::Custom(Custom::Cactus);
    let m = create_mesh_for_chunk(&c, 2, -1, &e, &e, &e, &e);
    assert_eq!(m.opaque_buffers.len(), 1);
    assert_eq!(m.opaque_buffers[0].0.len(), 24);
    assert_eq!(m.opaque_buffers[0].1.len(), 36);
    assert_eq!(m.opaque_buffers[0].0[0].block, [32, -16, 0]);
    assert_eq!(m.translucent_buffers.len(), 1);
    assert_eq!(m.translucent_buffers[0].0.len(), 24);
    assert_eq!(m.translucent_buffers[0].0[0].block, [33, -16, 0]);
}

#[test]
fn touching_blocks_hide_shared_faces() {
    let mut c = empty_chunk();
    let e = empty_chunk();
    c.cubes[0] = Cube::Solid(Solid::Stone);
    c.cubes[1] = Cube::Solid(Solid::Stone);
    let m = create_mesh_for_chunk(&c, 0, 0, &e, &e, &e, &e);
    assert_eq!(m.opaque_buffers.len(), 1);
    assert_eq!(m.opaque_buffers[0].0.len(), 40);
    let mut f = empty_chunk();
    for k in 0..65536 {
        f.cubes[k] = Cube::Solid(Solid::Stone);
    }
    // A full chunk surrounded by full chunks draws only its top and bottom.
    let m = create_mesh_for_chunk(&f, 0, 0, &f, &f, &f, &f);
    let total: usize = m.opaque_buffers.iter().map(|b| b.0.len()).sum();
    assert_eq!(total, 2 * 256 * 4);
    for b in m.opaque_buffers.iter() {
        assert!(b.1.iter().all(|&ix| (ix as usize) < b.0.len()));
    }
}

#[test]
fn many_faces_split_into_buffers() {
    let mut c = empty_chunk();
    let e = empty_chunk();
    // Separated blocks: every other block of every other row and layer.
    for z in (0..256).step_by(2) {
        for y in (0..16).step_by(2) {
            for x in (0..16).step_by(2) {
                c.cubes[z * 256 + y * 16 + x] = Cube::Solid(Solid::Stone);
            }
        }
    }
    let m = create_mesh_for_chunk(&c, 0, 0, &e, &e, &e, &e);
    let total: usize = m.opaque_buffers.iter().map(|b| b.0.len()).sum();
    assert_eq!(total, 128 * 64 * 24);
    assert!(m.opaque_buffers.len() > 1);
    for (k, b) in m.opaque_buffers.iter().enumerate() {
        assert!(b.0.len() <= 60024);
        if k + 1 < m.opaque_buffers.len() {
            assert!(b.0.len() > 60000);
        }
        assert_eq!(b.1.len() * 4, b.0.len() * 6);
        assert!(b.1.iter().all(|&ix| (ix as usize) < b.0.len()));
    }
}

#[test]
fn solid_block_near_the_index_limit() {
    let (v, i) = create_vertices_for_solid(Solid::Dirt, 0, 0, 0, false, true, true, true, true, true, 65530);
    assert_eq!(v.len(), 4);
    assert_eq!(i, vec![65530, 65531, 65532, 65532, 65533, 65530]);
}

#[test]
fn crop_near_the_index_limit() {
    let (v, i) = create_vertices_for_harvestable(Harvestable::Wheat1, 0, 0, 0, 65520);
    assert_eq!(v.len(), 16);
    assert_eq!(i[23], 65532);
}

#[test]
fn mesh_buffers_close_between_blocks() {
    let mut c = empty_chunk();
    for i in 0..65536usize {
        let (x, y, z) = (i % 16, (i / 16) % 16, i / 256);
        if (x + y + z) % 2 == 0 {
            c.cubes[i] = Cube::Solid(Solid::Stone);
        }
    }
    let e = empty_chunk();
    let m = create_mesh_for_chunk(&c, 0, 0, &e, &e, &e, &e);
    assert_eq!(m.opaque_buffers.len(), 14);
    for b in 0..13 {
        assert_eq!(m.opaque_buffers[b].0.len(), 60024);
        assert_eq!(m.opaque_buffers[b].1.len(), 90036);
    }
    assert_eq!(m.opaque_buffers[13].0.len(), 6120);
    assert!(m.translucent_buffers.is_empty());
}
