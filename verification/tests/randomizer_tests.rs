use pixel_automata::randomizer::{generate_seed, unit_mantissa, Pcg32};

#[test]
fn pcg32_matches_reference_generator() {
    // Differential check against the randomize crate: same seeding, same
    // state advance, same outputs.
    let mut mine = Pcg32::seed(42, 54);
    let mut theirs = randomize::PCG32::seed(42, 54);
    assert_eq!(mine.state, theirs.state);
    assert_eq!(mine.inc, theirs.inc);
    for _ in 0..1000 {
        assert_eq!(mine.next_u32(), theirs.next_u32());
    }
    assert_eq!(mine.state, theirs.state);
}

#[test]
fn pcg32_matches_reference_across_seeds() {
    for seed in [0u64, 1, 7, u64::MAX, 0xdead_beef] {
        for inc in [0u64, 3, u64::MAX / 3] {
            let mut mine = Pcg32::seed(seed, inc);
            let mut theirs = randomize::PCG32::seed(seed, inc);
            for _ in 0..50 {
                assert_eq!(mine.next_u32(), theirs.next_u32());
            }
        }
    }
}

#[test]
fn pcg32_is_deterministic_and_seed_sensitive() {
    let mut a = Pcg32::seed(5, 5);
    let mut b = Pcg32::seed(5, 5);
    let mut c = Pcg32::seed(5, 6);
    let xs: Vec<u32> = (0..8).map(|_| a.next_u32()).collect();
    let ys: Vec<u32> = (0..8).map(|_| b.next_u32()).collect();
    let zs: Vec<u32> = (0..8).map(|_| c.next_u32()).collect();
    assert_eq!(xs, ys);
    assert_ne!(xs, zs);
}

#[test]
fn unit_mantissa_thresholds_match_float_comparisons() {
    // The integer thresholds decide exactly as comparing a draw mapped
    // into [0, 1) against 0.5, 0.95 and 0.07 would.  The mapping
    // keeps the top 23 bits as the mantissa of a float in [1, 2).
    let unit = |u: u32| f32::from_bits((u >> 9) | 0x3f80_0000) - 1.0;
    let mut samples: Vec<u32> = Vec::new();
    for m in [0u32, 1, 4194303, 4194304, 4194305, 7969176, 7969177, 7969178, 587201, 587202,
        587203, 587204, 8388606, 8388607] {
        samples.push(m << 9);
        samples.push((m << 9) | 0x1ff);
    }
    let mut m: u32 = 0;
    while m < 1 << 23 {
        samples.push(m << 9);
        m += 997;
    }
    for &u in &samples {
        let f = unit(u);
        assert_eq!(unit_mantissa(u) > 4194304, f > 0.5, "u = {u}");
        assert_eq!(unit_mantissa(u) > 7969177, f > 0.95, "u = {u}");
        assert_eq!(unit_mantissa(u) < 587203, f < 0.07, "u = {u}");
    }
}

#[test]
fn generate_seed_draws_entropy() {
    let a = generate_seed().unwrap();
    let b = generate_seed().unwrap();
    // Two independent 128-bit draws colliding would mean the entropy
    // source is broken.
    assert_ne!(a, b);
}
