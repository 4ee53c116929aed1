use ft_vox::terrain_cache::{BufferCache, MapCache};
use ft_vox::terrain_manager::{TerrainManager, TerrainWorkerJob};

#[test]
fn map_cache_hands_out_jobs_nearest_first() {
    let mut m: MapCache<u32> = MapCache::new(1, 0, 0, true, true);
    assert_eq!(m.next_chunk_job(), Some((0, 0)));
    assert_eq!(m.next_chunk_job(), Some((-1, 0)));
    assert_eq!(m.next_chunk_job(), Some((0, -1)));
    assert_eq!(m.next_chunk_job(), Some((0, 1)));
    assert_eq!(m.next_chunk_job(), Some((1, 0)));
    assert_eq!(m.next_chunk_job(), None);
}

#[test]
fn map_cache_skips_held_chunks() {
    let mut m: MapCache<u32> = MapCache::new(1, 0, 0, true, true);
    m.set(0, 0, Some(1));
    assert_eq!(m.next_chunk_job(), Some((-1, 0)));
    assert_eq!(m.get(0, 0), Some(1));
}

#[test]
fn map_cache_mesh_job_when_neighbourhood_complete() {
    let mut m: MapCache<u32> = MapCache::new(2, 0, 0, true, true);
    assert!(m.chunk_arrived(1, 0, 11).is_empty());
    assert!(m.chunk_arrived(-1, 0, 12).is_empty());
    assert!(m.chunk_arrived(0, 1, 13).is_empty());
    assert!(m.chunk_arrived(0, -1, 14).is_empty());
    let jobs = m.chunk_arrived(0, 0, 10);
    assert_eq!(jobs.len(), 1);
    assert_eq!(jobs[0].0, (0, 0));
    assert_eq!(jobs[0].1, vec![10, 11, 12, 13, 14]);
}

#[test]
fn map_cache_arrival_outside_window_is_dropped() {
    let mut m: MapCache<u32> = MapCache::new(1, 0, 0, true, true);
    let jobs = m.chunk_arrived(10, 10, 1);
    assert!(jobs.is_empty());
    assert_eq!(m.get(10, 10), None);
}

#[test]
fn map_cache_eye_move_and_reset() {
    let mut m: MapCache<u32> = MapCache::new(1, 0, 0, true, true);
    m.set(2, 0, Some(5));
    m.set(-1, 0, Some(6));
    m.set_eye(1, 0, true, true);
    assert_eq!(m.get(2, 0), Some(5));
    assert_eq!(m.get(-1, 0), None);
    m.reset();
    assert_eq!(m.get(2, 0), None);
    m.set(1, 1, Some(3));
    m.set_cache_distance(1);
    assert_eq!(m.get(1, 1), Some(3));
    m.set_cache_distance(2);
    assert_eq!(m.get(1, 1), None);
}

#[test]
fn buffer_cache_store_tracks_farthest() {
    let mut b: BufferCache<u32> = BufferCache::new(2, 0, 0, true, true);
    assert_eq!(b.farthest_distance_sq(), 0);
    b.store(1, 1, 7);
    assert_eq!(b.farthest_distance_sq(), 2);
    b.store(0, 1, 8);
    assert_eq!(b.farthest_distance_sq(), 2);
    b.store(2, 0, 9);
    assert_eq!(b.farthest_distance_sq(), 4);
    assert_eq!(b.get(1, 1), Some(7));
}

#[test]
fn buffer_cache_available_nearest_first() {
    let mut b: BufferCache<u32> = BufferCache::new(1, 0, 0, true, true);
    b.set(1, 0, Some(3));
    b.set(0, 0, Some(1));
    b.set(2, 2, Some(9));
    let a = b.available();
    assert_eq!(a, vec![((0, 0), 1), ((1, 0), 3)]);
}

#[test]
fn map_cache_far_jump_forgets_pending_generations() {
    let mut m: MapCache<u32> = MapCache::new(1, 0, 0, true, true);
    assert_eq!(m.next_chunk_job(), Some((0, 0)));
    m.set_eye(1, 0, true, true);
    assert_eq!(m.next_chunk_job(), Some((1, 0)));
    m.set_eye(10, 0, true, true);
    m.set_eye(0, 0, true, true);
    assert_eq!(m.next_chunk_job(), Some((0, 0)));
}

#[test]
fn terrain_manager_mesh_jobs_go_before_generation() {
    let mut t: TerrainManager<u32, u16, u8> = TerrainManager::new(2, 0, 0, true, true);
    match t.next_job() {
        Some(TerrainWorkerJob::Generate(p)) => assert_eq!(p, (0, 0)),
        _ => panic!("expected a generation job"),
    }
    t.chunk_arrived(1, 0, 11);
    t.chunk_arrived(-1, 0, 12);
    t.chunk_arrived(0, 1, 13);
    t.chunk_arrived(0, -1, 14);
    t.chunk_arrived(0, 0, 10);
    match t.next_job() {
        Some(TerrainWorkerJob::Mesh { position, chunks }) => {
            assert_eq!(position, (0, 0));
            assert_eq!(chunks, vec![10, 11, 12, 13, 14]);
        }
        _ => panic!("expected a mesh job"),
    }
    match t.next_job() {
        Some(TerrainWorkerJob::Generate((x, y))) => {
            assert_eq!(x.abs(), 1);
            assert_eq!(y.abs(), 1);
        }
        _ => panic!("expected a generation job"),
    }
}

#[test]
fn terrain_manager_mesh_jobs_keep_arrival_order() {
    let mut t: TerrainManager<u32, u16, u8> = TerrainManager::new(3, 0, 0, true, true);
    for (x, y, c) in [(0, 0, 1), (1, 0, 2), (-1, 0, 3), (0, 1, 4), (0, -1, 5), (2, 0, 6), (1, 1, 7)] {
        t.chunk_arrived(x, y, c);
    }
    t.chunk_arrived(1, -1, 8);
    let mut positions = Vec::new();
    while let Some(TerrainWorkerJob::Mesh { position, .. }) = t.next_job() {
        positions.push(position);
    }
    assert_eq!(positions, vec![(0, 0), (1, 0)]);
}

#[test]
fn terrain_manager_store_buffer_updates_window() {
    let mut t: TerrainManager<u32, u16, u8> = TerrainManager::new(2, 0, 0, true, true);
    t.store_buffer(1, 1, 7);
    t.set_eye(1, 0, true, true);
    t.set_cache_distance(2);
    match t.next_job() {
        Some(TerrainWorkerJob::Generate(p)) => assert_eq!(p, (1, 0)),
        _ => panic!("expected a generation job"),
    }
}

#[test]
fn terrain_manager_hands_out_arrived_meshes_in_order() {
    let mut t: TerrainManager<u32, u16, u8> = TerrainManager::new(2, 0, 0, true, true);
    assert_eq!(t.next_arrived_mesh(), None);
    t.mesh_arrived(1, 0, 100);
    t.mesh_arrived(0, 1, 200);
    assert_eq!(t.next_arrived_mesh(), Some(((1, 0), 100)));
    assert_eq!(t.next_arrived_mesh(), Some(((0, 1), 200)));
    assert_eq!(t.next_arrived_mesh(), None);
}

#[test]
fn map_cache_get_outside_window_is_none() {
    let mut m: MapCache<u32> = MapCache::new(1, 0, 0, true, true);
    m.set(5, 5, Some(3));
    assert_eq!(m.get(5, 5), None);
    assert_eq!(m.get(-3, 0), None);
}

#[test]
fn terrain_manager_small_move_keeps_buffers_in_both_windows() {
    let mut t: TerrainManager<u32, u16, u8> = TerrainManager::new(1, 0, 0, true, true);
    t.store_buffer(0, 0, 5);
    t.chunk_arrived(0, 0, 3);
    t.set_eye(1, 0, true, true);
    t.set_eye(-3, 0, true, true);
    match t.next_job() {
        Some(TerrainWorkerJob::Generate(p)) => assert_eq!(p, (-3, 0)),
        _ => panic!("expected a generation job"),
    }
}
