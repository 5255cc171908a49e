use mt19937::engine::Mt19937;

#[test]
fn known_answer_seed_5489() {
    // Canonical MT19937 reference outputs for the common reference seed.
    let mut rng = Mt19937::new(5489);
    let expected: [u32; 10] = [
        3499211612, 581869302, 3890346734, 3586334585, 545404204, 4161255391, 3922919429,
        949333985, 2715962298, 1323567403,
    ];
    for &e in expected.iter() {
        assert_eq!(rng.next_u32(), e);
    }
}

#[test]
fn known_answer_seed_zero() {
    let mut rng = Mt19937::new(0);
    let expected: [u32; 5] = [2357136044, 2546248239, 3071714933, 3626093760, 2588848963];
    for &e in expected.iter() {
        assert_eq!(rng.next_u32(), e);
    }
}

#[test]
fn known_answer_wide_seed() {
    // A seed above 2^32 exercises the fold of the seed's high half.
    let mut rng = Mt19937::new(0xDEAD_BEEF_1234_5678);
    let expected: [u32; 5] = [3906026747, 3911213304, 1299872317, 3635118554, 1867403167];
    for &e in expected.iter() {
        assert_eq!(rng.next_u32(), e);
    }
}

#[test]
fn determinism_next_u32() {
    let mut a = Mt19937::new(987654321);
    let mut b = Mt19937::new(987654321);
    for _ in 0..10_000 {
        assert_eq!(a.next_u32(), b.next_u32());
    }
}

#[test]
fn determinism_next_u64_and_range() {
    let mut a = Mt19937::new(31337);
    let mut b = Mt19937::new(31337);
    for _ in 0..5_000 {
        assert_eq!(a.next_u64(), b.next_u64());
    }
    for _ in 0..5_000 {
        assert_eq!(a.next_i32_range(-1000, 1000), b.next_i32_range(-1000, 1000));
    }
}

#[test]
fn twist_boundary_vector() {
    // Outputs 620..630 from the reference seed: the 625th value (index 624)
    // is the first to come out of the second twist, and it still matches
    // the canonical sequence.
    let mut rng = Mt19937::new(5489);
    for _ in 0..620 {
        rng.next_u32();
    }
    let expected: [u32; 10] = [
        2832983005, 1813414171, 2227348307, 4020325887, 4178893912, 610818241, 2787397224,
        2762441380, 3437393657, 2030369078,
    ];
    for &e in expected.iter() {
        assert_eq!(rng.next_u32(), e);
    }
}

#[test]
fn u64_composition() {
    // next_u64 consumes exactly two 32-bit draws, high word first.
    let mut a = Mt19937::new(8675309);
    let mut b = Mt19937::new(8675309);
    for _ in 0..1_000 {
        let hi = b.next_u32() as u64;
        let lo = b.next_u32() as u64;
        assert_eq!(a.next_u64(), (hi << 32) | lo);
    }
}

#[test]
fn u64_known_answer() {
    let mut rng = Mt19937::new(5489);
    let expected: [u64; 4] = [
        15028999435905310454,
        16708911996216745849,
        2342493223442167775,
        16848810653347327969,
    ];
    for &e in expected.iter() {
        assert_eq!(rng.next_u64(), e);
    }
}
