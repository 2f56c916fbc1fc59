//! Floating-point scenarios driven by the verified enumerations: the
//! Lennard-Jones arithmetic below is the test's own, but every pair it
//! sums comes from the library, so these tests fail if the enumeration
//! misses, repeats or misorders a pair.

use lj_kernel::lattice::cubic_lattice_sites;
use lj_kernel::pairs::{blocked_pairs, naive_pairs};
use lj_kernel::schedule::split_blocks;

fn positions(n: usize, spacing: f64) -> Vec<[f64; 3]> {
    cubic_lattice_sites(n)
        .iter()
        .map(|&(i, j, k)| [i as f64 * spacing, j as f64 * spacing, k as f64 * spacing])
        .collect()
}

fn s2_of(r_eq: f64) -> f64 {
    2f64.powf(-1.0 / 3.0) * r_eq * r_eq
}

fn pair_term(pos: &[[f64; 3]], p: (usize, usize), s2: f64) -> f64 {
    let mut r2 = 0.0;
    for d in 0..3 {
        let dx = pos[p.0][d] - pos[p.1][d];
        r2 += dx * dx;
    }
    let sr2 = s2 / r2;
    let sr6 = sr2 * sr2 * sr2;
    sr6 * sr6 - sr6
}

fn energy_over(pairs: &[(usize, usize)], pos: &[[f64; 3]], s2: f64, e_b: f64) -> f64 {
    let mut e = 0.0;
    for &p in pairs {
        e += pair_term(pos, p, s2);
    }
    4.0 * e_b * e
}

fn gradient(pos: &[[f64; 3]], s2: f64, e_b: f64) -> Vec<[f64; 3]> {
    let mut g = vec![[0.0f64; 3]; pos.len()];
    for p in naive_pairs(pos.len()) {
        let (i, j) = p;
        let mut r2 = 0.0;
        for d in 0..3 {
            let dx = pos[i][d] - pos[j][d];
            r2 += dx * dx;
        }
        let a3 = (s2 / r2) * (s2 / r2) * (s2 / r2);
        let s = -24.0 * e_b * a3 / r2 * (2.0 * a3 - 1.0);
        for d in 0..3 {
            let gq = (pos[j][d] - pos[i][d]) * s;
            g[i][d] -= gq;
            g[j][d] += gq;
        }
    }
    g
}

fn close(a: f64, b: f64, rel: f64) -> bool {
    (a - b).abs() <= rel * (1.0 + a.abs().max(b.abs()))
}

#[test]
fn cube_energy_matches_reference_for_every_block_width() {
    let pos = positions(2, 1.0);
    let s2 = s2_of(1.0);
    let reference = energy_over(&naive_pairs(8), &pos, s2, 1.0);
    assert!(close(reference, -15.103309327846366, 1e-12));
    for w in [1usize, 2, 4, 8] {
        let e = energy_over(&blocked_pairs(8, w), &pos, s2, 1.0);
        assert!(close(e, reference, 1e-9), "w={w} e={e} reference={reference}");
    }
}

#[test]
fn worker_partition_reproduces_the_serial_energy() {
    let n: usize = 27;
    let w: usize = 4;
    let pos = positions(3, 1.1);
    let s2 = s2_of(1.0);
    let serial = energy_over(&blocked_pairs(n, w), &pos, s2, 1.0);
    let full_blocks = n / w;
    for workers in [1usize, 2, 11] {
        // each pair of the block phase belongs to the worker whose span
        // holds its block; the tail rows run serially afterwards
        let ranges = split_blocks(full_blocks, workers);
        let all = blocked_pairs(n, w);
        let mut merged = 0.0;
        for &(lo, hi) in &ranges {
            let span: Vec<(usize, usize)> = all
                .iter()
                .copied()
                .filter(|p| p.0 < full_blocks * w && lo <= p.0 / w && p.0 / w < hi)
                .collect();
            merged += energy_over(&span, &pos, s2, 1.0);
        }
        let tail: Vec<(usize, usize)> =
            all.iter().copied().filter(|p| p.0 >= full_blocks * w).collect();
        merged += energy_over(&tail, &pos, s2, 1.0);
        assert!(close(merged, serial, 1e-9), "workers={workers}");
    }
}

#[test]
fn gradient_sums_to_zero_vector() {
    let pos = positions(3, 0.9);
    let g = gradient(&pos, s2_of(1.0), 1.0);
    for d in 0..3 {
        let total: f64 = g.iter().map(|v| v[d]).sum();
        assert!(total.abs() < 1e-9, "axis {d}: {total}");
    }
}

#[test]
fn finite_difference_matches_the_gradient() {
    let pos = positions(2, 1.0);
    let s2 = s2_of(1.0);
    let g = gradient(&pos, s2, 1.0);
    let eps = 1e-5;
    for d in 0..3 {
        let mut hi = pos.clone();
        hi[0][d] += eps;
        let mut lo = pos.clone();
        lo[0][d] -= eps;
        let e_hi = energy_over(&naive_pairs(8), &hi, s2, 1.0);
        let e_lo = energy_over(&naive_pairs(8), &lo, s2, 1.0);
        let fd = (e_hi - e_lo) / (2.0 * eps);
        assert!(
            (fd - g[0][d]).abs() <= 1e-4 * (1.0 + g[0][d].abs()),
            "axis {d}: fd={fd} gradient={}",
            g[0][d]
        );
    }
}
