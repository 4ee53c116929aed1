use ft_vox::chunk_cache::ChunkCache;
use ft_vox::coords3::{calculate_coords3, get_coords3};
use ft_vox::grid3::RingGrid3;

#[test]
fn ball_offsets_nearest_first() {
    let c = calculate_coords3(1);
    assert_eq!(c, vec![(0, 0, 0), (-1, 0, 0), (0, -1, 0), (0, 0, -1), (0, 0, 1), (0, 1, 0), (1, 0, 0)]);
    assert_eq!(calculate_coords3(0), vec![(0, 0, 0)]);
    let c = calculate_coords3(2);
    assert_eq!(c.len(), 33);
    assert_eq!(c[7], (-1, -1, 0));
    assert_eq!(get_coords3(1, 3).len(), 27);
    assert_eq!(get_coords3(1, 3)[0], (-1, -1, -1));
}

#[test]
fn cube_grid_keeps_overlap_on_small_moves() {
    let mut g: RingGrid3<u32> = RingGrid3::new(1, 0, 0, 0, true, true, true);
    g.set(2, 2, 2, Some(1));
    g.set(-1, 0, 0, Some(2));
    g.set(0, 0, 2, Some(3));
    assert_eq!(g.get(2, 2, 2), Some(1));
    assert!(g.has(-1, 0, 0));
    assert!(g.recenter(1, 0, 1, true, true, true));
    assert_eq!(g.get(2, 2, 2), Some(1));
    assert_eq!(g.get(-1, 0, 0), None);
    assert_eq!(g.get(0, 0, 2), Some(3));
    assert_eq!(g.get(3, 0, 0), None);
    assert!(!g.recenter(1, 0, 5, true, true, true));
    assert_eq!(g.get(2, 2, 2), None);
    g.set(9, 9, 9, Some(4));
    assert_eq!(g.get(9, 9, 9), None);
}

#[test]
fn chunk_jobs_then_mesh_job() {
    let mut c: ChunkCache<u32, &'static str> = ChunkCache::new(1, 0, 0, 0, true, true, true);
    let mut handed = Vec::new();
    while let Some(p) = c.next_chunk_job() {
        handed.push(p);
    }
    assert_eq!(handed.len(), 7);
    assert_eq!(handed[0], (0, 0, 0));
    assert!(c.next_mesh_job().is_none());
    for (k, p) in handed.iter().enumerate() {
        c.chunk_arrived(p.0, p.1, p.2, k as u32);
    }
    let (p, chunks) = c.next_mesh_job().expect("the center has all six neighbours");
    assert_eq!(p, (0, 0, 0));
    // Order: itself, +x, -x, +y, -y, +z, -z.
    assert_eq!(chunks, vec![0, 6, 1, 5, 2, 4, 3]);
    assert!(c.next_mesh_job().is_none());
    c.mesh_arrived(0, 0, 0, "mesh");
    assert_eq!(c.get_mesh(0, 0, 0), Some("mesh"));
    assert_eq!(c.get_available(), vec![((0, 0, 0), "mesh")]);
    assert_eq!(c.get_chunk(1, 0, 0), Some(6));
}

#[test]
fn far_jump_forgets_jobs() {
    let mut c: ChunkCache<u32, u32> = ChunkCache::new(1, 0, 0, 0, true, true, true);
    assert_eq!(c.next_chunk_job(), Some((0, 0, 0)));
    c.set_eye(10, 0, 0, true, true, true);
    c.set_eye(0, 0, 0, true, true, true);
    assert_eq!(c.next_chunk_job(), Some((0, 0, 0)));
    c.chunk_arrived(0, 0, 0, 5);
    c.set_eye(1, 0, 0, true, true, true);
    assert_eq!(c.get_chunk(0, 0, 0), Some(5));
    c.set_cache_distance(2);
    assert_eq!(c.get_chunk(0, 0, 0), None);
    c.set_chunk(1, 1, 1, Some(7));
    c.set_mesh(1, 1, 1, Some(8));
    c.reset();
    assert_eq!(c.get_chunk(1, 1, 1), None);
    assert_eq!(c.get_mesh(1, 1, 1), None);
}

#[test]
fn meshes_follow_the_eye_window() {
    let mut c: ChunkCache<u8, u16> = ChunkCache::new(1, 0, 0, 0, true, true, true);
    c.set_mesh(0, 0, 0, Some(7));
    c.set_mesh(-1, 0, 0, Some(9));
    c.set_chunk(0, 0, 0, Some(1));
    c.set_eye(1, 0, 0, true, true, true);
    assert_eq!(c.get_mesh(0, 0, 0), Some(7));
    assert_eq!(c.get_chunk(0, 0, 0), Some(1));
    assert_eq!(c.get_mesh(-1, 0, 0), None);
}
