use mt19937::engine::Mt19937;

#[test]
fn range_containment() {
    // 100,000 bounded draws across assorted ranges all land inside them.
    let pairs: [(i32, i32); 5] = [
        (-100, 100),
        (0, 9),
        (i32::MIN, i32::MAX),
        (-5, -2),
        (1_000_000, 1_000_001),
    ];
    let mut rng = Mt19937::new(20240601);
    for &(min, max) in pairs.iter() {
        for _ in 0..20_000 {
            let v = rng.next_i32_range(min, max);
            assert!(min <= v && v <= max);
        }
    }
}

#[test]
fn boundary_span() {
    // A span of one always returns its only member.
    let mut rng = Mt19937::new(7);
    for &m in [i32::MIN, -1, 0, 1, 42, i32::MAX].iter() {
        for _ in 0..100 {
            assert_eq!(rng.next_i32_range(m, m), m);
        }
    }
}

#[test]
fn range_known_values() {
    let mut rng = Mt19937::new(42);
    let expected: [i32; 10] = [55, 73, 10, 89, 89, 7, -14, -3, -28, 87];
    for &e in expected.iter() {
        assert_eq!(rng.next_i32_range(-100, 100), e);
    }

    let mut rng = Mt19937::new(42);
    let expected: [i32; 10] = [9, 0, 1, 4, 3, 2, 4, 8, 5, 8];
    for &e in expected.iter() {
        assert_eq!(rng.next_i32_range(0, 9), e);
    }

    let mut rng = Mt19937::new(12345);
    let expected: [i32; 4] = [1675701733, -1586100095, -1976717911, 1402032510];
    for &e in expected.iter() {
        assert_eq!(rng.next_i32_range(i32::MIN, i32::MAX), e);
    }
}

#[test]
fn uniformity_smoke() {
    // Over a million draws from [-100, 100], the empirical mean is near 0
    // and the empirical variance is near the theoretical (201^2 - 1) / 12.
    let mut rng = Mt19937::new(2024);
    let n = 1_000_000;
    let mut sum = 0.0f64;
    let mut sum_sq = 0.0f64;
    for _ in 0..n {
        let x = rng.next_i32_range(-100, 100) as f64;
        sum += x;
        sum_sq += x * x;
    }
    let mean = sum / (n as f64);
    let var = sum_sq / (n as f64) - mean * mean;
    assert!(mean.abs() < 0.5, "empirical mean {} too far from 0", mean);
    let theoretical = (201.0f64 * 201.0 - 1.0) / 12.0;
    assert!(
        (var - theoretical).abs() < 30.0,
        "empirical variance {} too far from {}",
        var,
        theoretical
    );
}
