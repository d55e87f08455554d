use rand::Rng;
use red_sand::fixed::SCALE;
use red_sand::noise::{make_perlin_noise, sample, COORD_MAX};

#[test]
fn sample_is_deterministic_for_fixed_coordinates() {
    let mut rng = rand::thread_rng();
    for _ in 0..200 {
        let x: u32 = rng.gen_range(0..=COORD_MAX);
        let y: u32 = rng.gen_range(0..=COORD_MAX);
        let z: u32 = rng.gen_range(0..=COORD_MAX);
        let first = sample(x, y, z);
        let second = sample(x, y, z);
        assert_eq!(first, second);
    }
}

#[test]
fn sample_stays_within_unit_bounds_for_many_random_coordinates() {
    let mut rng = rand::thread_rng();
    for _ in 0..10_000 {
        let x: u32 = rng.gen_range(0..=COORD_MAX);
        let y: u32 = rng.gen_range(0..=COORD_MAX);
        let z: u32 = rng.gen_range(0..=COORD_MAX);
        if let Some(v) = sample(x, y, z) {
            assert!(-SCALE <= v && v <= SCALE, "sample out of bounds: {}", v);
        }
    }
}

#[test]
fn sample_is_defined_and_nontrivial_on_a_small_grid() {
    let mut defined = 0usize;
    let mut distinct = std::collections::HashSet::new();
    for x in 0..16u32 {
        for y in 0..16u32 {
            if let Some(v) = sample(x, y, 7) {
                defined += 1;
                distinct.insert(v);
            }
        }
    }
    assert!(defined > 200, "almost all samples should be defined");
    assert!(distinct.len() > 8, "the field should vary across the grid");
}

#[test]
fn precomputed_volume_matches_lazy_samples() {
    let volume = make_perlin_noise(5);
    assert_eq!(volume.len(), 5);
    for x in 0..5u32 {
        assert_eq!(volume[x as usize].len(), 5);
        for y in 0..5u32 {
            assert_eq!(volume[x as usize][y as usize].len(), 5);
            for z in 0..5u32 {
                assert_eq!(volume[x as usize][y as usize][z as usize], sample(x, y, z));
            }
        }
    }
}
