use mt19937::dataset::{generate_source, read_sequential};
use mt19937::engine::Mt19937;

#[test]
fn generate_source_len_and_range() {
    let data = generate_source(11, 10_000, -100, 100);
    assert_eq!(data.len(), 10_000);
    for &v in data.iter() {
        assert!(-100 <= v && v <= 100);
    }
}

#[test]
fn generate_source_matches_engine_draws() {
    let data = generate_source(99, 500, -7, 13);
    let mut rng = Mt19937::new(99);
    for &v in data.iter() {
        assert_eq!(v, rng.next_i32_range(-7, 13));
    }
}

#[test]
fn generate_source_deterministic() {
    let a = generate_source(123456789, 2_000, i32::MIN, i32::MAX);
    let b = generate_source(123456789, 2_000, i32::MIN, i32::MAX);
    assert_eq!(a, b);
}

#[test]
fn generate_source_empty() {
    let data = generate_source(5, 0, 0, 0);
    assert!(data.is_empty());
}

#[test]
fn read_sequential_total() {
    let v = vec![3, -1, 4, 1, -5, 9, 2, -6, 5, 3];
    let once: i64 = v.iter().map(|&x| x as i64).sum();
    assert_eq!(read_sequential(&v, 1), once);
    assert_eq!(read_sequential(&v, 10), 10 * once);
}

#[test]
fn read_sequential_zero_repeats() {
    let v = vec![i32::MAX, i32::MIN, 17];
    assert_eq!(read_sequential(&v, 0), 0);
}

#[test]
fn read_sequential_extremes() {
    let v = vec![i32::MAX, i32::MAX, i32::MIN];
    let once = (i32::MAX as i64) * 2 + (i32::MIN as i64);
    assert_eq!(read_sequential(&v, 4), 4 * once);
}

#[test]
fn read_sequential_empty() {
    let v: Vec<i32> = Vec::new();
    assert_eq!(read_sequential(&v, 1_000), 0);
}
