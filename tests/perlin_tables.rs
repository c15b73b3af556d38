use rand::rngs::SmallRng;
use rand::SeedableRng;
use rtweekend::perlin::{generate_perm, shuffle, PerlinTables, POINT_COUNT};

fn is_permutation(p: &[u8]) -> bool {
    let mut seen = [false; 256];
    for &v in p {
        if seen[v as usize] {
            return false;
        }
        seen[v as usize] = true;
    }
    p.len() == POINT_COUNT
}

#[test]
fn perm_is_a_shuffled_permutation() {
    let mut rng = SmallRng::seed_from_u64(42);
    let p = generate_perm(&mut rng);
    assert!(is_permutation(&p));
    let identity: Vec<u8> = (0..=255u8).collect();
    assert_ne!(p, identity);
}

#[test]
fn shuffle_with_own_positions_keeps_identity() {
    // Each position drawn for itself: every swap leaves the table unchanged.
    let draws: Vec<u32> = (0..255u32).map(|k| 255 - k).collect();
    let p = shuffle(&draws);
    let identity: Vec<u8> = (0..=255u8).collect();
    assert_eq!(p, identity);
}

#[test]
fn corner_is_deterministic() {
    let mut rng = SmallRng::seed_from_u64(11);
    let t = PerlinTables::new(&mut rng);
    for &(x, y, z) in &[(0, 0, 0), (3, -7, 12), (-300, 1000, 5)] {
        assert_eq!(t.corner(x, y, z), t.corner(x, y, z));
    }
}

#[test]
fn corner_repeats_every_256_cells() {
    let mut rng = SmallRng::seed_from_u64(12);
    let t = PerlinTables::new(&mut rng);
    assert_eq!(t.corner(1, 2, 3), t.corner(257, 2 - 256, 3 + 512));
    assert_eq!(t.corner(-1, 0, 0), t.corner(255, 0, 0));
    assert_eq!(t.corner(i32::MIN, 0, 0), t.corner(0, 0, 0));
    assert_eq!(t.corner(i32::MAX, 0, 0), t.corner(255, 0, 0));
}

#[test]
fn corner_is_xor_of_tables() {
    // Tables from the same seed: the corner at (a, 0, 0) and (0, 0, 0) differ
    // exactly by the difference of the x table, so distinct cells along x
    // give distinct corners.
    let mut rng = SmallRng::seed_from_u64(13);
    let t = PerlinTables::new(&mut rng);
    let mut seen = [false; 256];
    for x in 0..256 {
        let c = t.corner(x, 17, -4) as usize;
        assert!(!seen[c]);
        seen[c] = true;
    }
}

#[test]
fn shuffle_with_zero_draws_rotates_left() {
    let p = shuffle(&vec![0u32; 255]);
    for i in 0..255 {
        assert_eq!(p[i] as usize, i + 1);
    }
    assert_eq!(p[255], 0);
}

#[test]
fn shuffle_with_neighbour_draws_rotates_right() {
    // Draw k swaps position 255 - k with the one just below it.
    let draws: Vec<u32> = (0..255u32).map(|k| 254 - k).collect();
    let p = shuffle(&draws);
    assert_eq!(p[0], 255);
    for i in 1..256 {
        assert_eq!(p[i] as usize, i - 1);
    }
}
