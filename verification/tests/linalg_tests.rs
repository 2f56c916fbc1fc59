use lj_kernel::linalg::vector::{dot_chunked, dot_naive};

#[test]
fn dot_naive_small() {
    let v: Vec<i64> = vec![1, 2, 3];
    let w: Vec<i64> = vec![4, 5, 6];
    assert_eq!(dot_naive(&v, &w), 32);
}

#[test]
fn dot_naive_zips_the_common_prefix() {
    let v: Vec<i64> = vec![1, 2, 3, 100];
    let w: Vec<i64> = vec![4, 5, 6];
    assert_eq!(dot_naive(&v, &w), 32);
    assert_eq!(dot_naive(&w, &v), 32);
}

#[test]
fn dot_naive_empty_is_zero() {
    let v: Vec<i64> = vec![];
    let w: Vec<i64> = vec![7, 8];
    assert_eq!(dot_naive(&v, &w), 0);
}

#[test]
fn dot_chunked_matches_naive_for_every_lane_count() {
    let n: i64 = 100;
    let v: Vec<i64> = (0..n).map(|q| 3 * q - 70).collect();
    let w: Vec<i64> = (0..n).map(|q| 11 - q).collect();
    let reference = dot_naive(&v, &w);
    assert_eq!(dot_chunked::<1, i64>(&v, &w), reference);
    assert_eq!(dot_chunked::<2, i64>(&v, &w), reference);
    assert_eq!(dot_chunked::<4, i64>(&v, &w), reference);
    assert_eq!(dot_chunked::<8, i64>(&v, &w), reference);
    assert_eq!(dot_chunked::<16, i64>(&v, &w), reference);
    assert_eq!(dot_chunked::<64, i64>(&v, &w), reference);
    assert_eq!(dot_chunked::<128, i64>(&v, &w), reference);
}

#[test]
fn dot_chunked_exact_value() {
    let v: Vec<i64> = vec![2, -3, 4, -5, 6];
    let w: Vec<i64> = vec![1, 1, 1, 1, 1];
    assert_eq!(dot_chunked::<2, i64>(&v, &w), 4);
}

#[test]
fn dot_unsigned_scalars() {
    let v: Vec<u64> = vec![1, 2, 3, 4, 5];
    let w: Vec<u64> = vec![5, 4, 3, 2, 1];
    assert_eq!(dot_naive(&v, &w), 35);
    assert_eq!(dot_chunked::<2, u64>(&v, &w), 35);
    assert_eq!(dot_chunked::<3, u64>(&v, &w), 35);
}
