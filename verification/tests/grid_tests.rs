use ft_vox::coords::{calculate_coords, get_coords};
use ft_vox::grid::{rem_euclid, RingGrid2};
use ft_vox::level_sort::sort_by_level;

#[test]
fn rem_euclid_of_negative_values() {
    assert_eq!(rem_euclid(-1, 4), 3);
    assert_eq!(rem_euclid(-4, 4), 0);
    assert_eq!(rem_euclid(-5, 4), 3);
    assert_eq!(rem_euclid(7, 4), 3);
    assert_eq!(rem_euclid(i32::MIN, 256), 0);
}

#[test]
fn ring_grid_set_and_get_inside_window() {
    let mut g: RingGrid2<u32> = RingGrid2::new(1, 0, 0, true, true);
    assert_eq!(g.distance(), 1);
    g.set(2, 2, Some(5));
    g.set(-1, -1, Some(6));
    assert_eq!(g.get(2, 2), Some(5));
    assert_eq!(g.get(-1, -1), Some(6));
    assert!(g.has(2, 2));
    assert_eq!(g.get(0, 0), None);
}

#[test]
fn ring_grid_ignores_writes_outside_window() {
    let mut g: RingGrid2<u32> = RingGrid2::new(1, 0, 0, true, true);
    // The window spans -1..=2 on each axis; 3 shares a slot with -1.
    g.set(3, 0, Some(9));
    assert_eq!(g.get(3, 0), None);
    assert_eq!(g.get(-1, 0), None);
    g.set(-2, 0, Some(9));
    assert_eq!(g.get(2, 0), None);
}

#[test]
fn ring_grid_small_shift_keeps_overlap() {
    let mut g: RingGrid2<u32> = RingGrid2::new(1, 0, 0, true, true);
    g.set(2, 2, Some(5));
    g.set(-1, 0, Some(6));
    g.set(0, 1, Some(7));
    g.recenter(1, 0, true, true);
    assert_eq!(g.center_exec(), (1, 0, true, true));
    assert_eq!(g.get(2, 2), Some(5));
    assert_eq!(g.get(0, 1), Some(7));
    // -1 left the window; 3 took its slot and starts empty.
    assert_eq!(g.get(-1, 0), None);
    assert_eq!(g.get(3, 0), None);
}

#[test]
fn ring_grid_half_chunk_change_moves_window() {
    let mut g: RingGrid2<u32> = RingGrid2::new(1, 0, 0, true, true);
    g.set(2, 0, Some(1));
    g.set(0, 0, Some(2));
    // Same chunk, lower half: the window becomes -2..=1.
    g.recenter(0, 0, false, true);
    assert_eq!(g.get(2, 0), None);
    assert_eq!(g.get(0, 0), Some(2));
}

#[test]
fn ring_grid_long_jump_empties_everything() {
    let mut g: RingGrid2<u32> = RingGrid2::new(1, 0, 0, true, true);
    g.set(1, 1, Some(5));
    g.recenter(3, 1, true, true);
    assert_eq!(g.get(1, 1), None);
    assert_eq!(g.get(2, 1), None);
}

#[test]
fn get_coords_lists_square_disc_in_order() {
    let c = get_coords(1, 1);
    assert_eq!(c, vec![(-1, 0), (0, -1), (0, 0), (0, 1), (1, 0)]);
    let c = get_coords(1, 2);
    assert_eq!(c.len(), 9);
    assert_eq!(c[0], (-1, -1));
    assert_eq!(c[8], (1, 1));
}

#[test]
fn calculate_coords_nearest_first() {
    let c = calculate_coords(1);
    assert_eq!(c, vec![(0, 0), (-1, 0), (0, -1), (0, 1), (1, 0)]);
    let c = calculate_coords(2);
    assert_eq!(c.len(), 13);
    assert_eq!(c[0], (0, 0));
    assert_eq!(&c[5..9], &[(-1, -1), (-1, 1), (1, -1), (1, 1)]);
    assert_eq!(&c[9..13], &[(-2, 0), (0, -2), (0, 2), (2, 0)]);
    assert_eq!(calculate_coords(0), vec![(0, 0)]);
}

#[test]
fn sort_by_level_keeps_order_within_a_level() {
    let pairs: Vec<(u32, char)> = vec![(2, 'a'), (0, 'b'), (2, 'c'), (1, 'd'), (0, 'e'), (2, 'a')];
    let r = sort_by_level(&pairs, 3);
    assert_eq!(r, vec![(0, 'b'), (0, 'e'), (1, 'd'), (2, 'a'), (2, 'c'), (2, 'a')]);
}
