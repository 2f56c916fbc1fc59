use lj_kernel::transpose_u8::interleave_u8::{int16, int32, int4, int8};
use lj_kernel::transpose_u8::{naive, transpose_64x16_u8, transpose_64x8_u8};

fn expected_interleave(a: &[u8], b: &[u8], g: usize) -> (Vec<u8>, Vec<u8>) {
    let half = 32 / g;
    let mut lo = Vec::new();
    let mut hi = Vec::new();
    for t in 0..half {
        lo.extend_from_slice(&a[t * g..(t + 1) * g]);
        lo.extend_from_slice(&b[t * g..(t + 1) * g]);
        hi.extend_from_slice(&a[32 + t * g..32 + (t + 1) * g]);
        hi.extend_from_slice(&b[32 + t * g..32 + (t + 1) * g]);
    }
    (lo, hi)
}

#[test]
fn interleaves_deal_granules_alternately() {
    let a: Vec<u8> = (0..64).collect();
    let b: Vec<u8> = (100..164).collect();
    for (g, r) in [
        (4usize, int4(&a, &b)),
        (8, int8(&a, &b)),
        (16, int16(&a, &b)),
        (32, int32(&a, &b)),
    ] {
        let (lo, hi) = expected_interleave(&a, &b, g);
        assert_eq!(r.0, lo, "granule {g}");
        assert_eq!(r.1, hi, "granule {g}");
    }
}

#[test]
fn interleave_is_not_the_identity() {
    let a: Vec<u8> = (0..64).collect();
    let b: Vec<u8> = vec![200u8; 64];
    let (lo, _) = int8(&a, &b);
    assert_ne!(lo, a);
    assert_eq!(&lo[0..8], &a[0..8]);
    assert_eq!(&lo[8..16], &b[0..8]);
}

#[test]
fn naive_transpose_small() {
    let a = vec![vec![1u8, 2, 3], vec![4, 5, 6]];
    let mut b = vec![vec![0u8; 2]; 3];
    naive::trans(&a, &mut b);
    assert_eq!(b, vec![vec![1, 4], vec![2, 5], vec![3, 6]]);
}

#[test]
fn transpose_64x8() {
    let a: Vec<Vec<u8>> = (0..64)
        .map(|i| (0..8).map(|j| (i * 8 + j) as u8).collect())
        .collect();
    let mut b = vec![vec![0u8; 64]; 8];
    transpose_64x8_u8::trans(&a, &mut b);
    for i in 0..64 {
        for j in 0..8 {
            assert_eq!(b[j][i], a[i][j]);
        }
    }
}

#[test]
fn transpose_64x16() {
    let a: Vec<Vec<u8>> = (0..64)
        .map(|i| (0..16).map(|j| (i * 16 + j) as u8).collect())
        .collect();
    let mut b = vec![vec![0u8; 64]; 16];
    transpose_64x16_u8::trans(&a, &mut b);
    for i in 0..64 {
        for j in 0..16 {
            assert_eq!(b[j][i], a[i][j]);
        }
    }
}
