use ft_vox::noise::{gradient2, gradient3, lattice, Axis, NoiseTable};

#[test]
fn table_matches_seeded_shuffle() {
    let t = NoiseTable::new(42);
    let first: Vec<u8> = (0..8).map(|i| t.at(i)).collect();
    assert_eq!(first, vec![36, 4, 130, 30, 8, 62, 164, 37]);
    assert_eq!(t.at(255), 129);
    let z = NoiseTable::new(0);
    let first: Vec<u8> = (0..8).map(|i| z.at(i)).collect();
    assert_eq!(first, vec![216, 60, 34, 4, 22, 6, 128, 30]);
}

#[test]
fn table_is_a_repeated_permutation() {
    let t = NoiseTable::new(12345);
    let mut seen = [false; 256];
    for i in 0..256 {
        let v = t.at(i) as usize;
        assert!(!seen[v]);
        seen[v] = true;
        assert_eq!(t.at(i + 256), t.at(i));
    }
}

#[test]
fn corner_hashes_follow_the_table() {
    let t = NoiseTable::new(7);
    let p = |i: usize| t.at(i) as usize;
    let (xi, yi) = (3, 200);
    let a = p(xi) + yi;
    let b = p(xi + 1) + yi;
    let h = t.corner_hashes2(xi, yi);
    assert_eq!(h, [t.at(p(a)), t.at(p(b)), t.at(p(a + 1)), t.at(p(b + 1))]);
    let zi = 255;
    let h3 = t.corner_hashes3(xi, yi, zi);
    let aa = p(a) + zi;
    let bb = p(b + 1) + zi;
    assert_eq!(h3[0], t.at(aa));
    assert_eq!(h3[7], t.at(bb + 1));
}

#[test]
fn lattice_wraps_negative_coordinates() {
    assert_eq!(lattice(-1), 255);
    assert_eq!(lattice(256), 0);
    assert_eq!(lattice(300), 44);
    assert_eq!(lattice(-257), 255);
}

#[test]
fn gradients_from_hashes() {
    let g = gradient2(3);
    assert!(g.negate_u && g.negate_v);
    let g = gradient2(6);
    assert!(g.negate_u && !g.negate_v);
    let g = gradient3(13);
    assert_eq!(g.u, Axis::Y);
    assert_eq!(g.v, Axis::Z);
    assert!(g.negate_u && !g.negate_v);
    let g = gradient3(14);
    assert_eq!(g.v, Axis::X);
    assert!(!g.negate_u && g.negate_v);
    let g = gradient3(2);
    assert_eq!((g.u, g.v), (Axis::X, Axis::Y));
}
