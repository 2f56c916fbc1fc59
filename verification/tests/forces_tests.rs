use lj_kernel::forces::{merge_force_buffers, scatter_pair_forces};

#[test]
fn scatter_exact_values() {
    let terms: Vec<((usize, usize), i64)> = vec![((1, 0), 5), ((2, 0), -2), ((2, 1), 7)];
    let mut g = vec![0i64; 3];
    let e = scatter_pair_forces(3, &terms, &mut g);
    assert_eq!(g, vec![-3, -2, 5]);
    assert_eq!(e, 10);
}

#[test]
fn scattered_forces_sum_to_zero() {
    let terms: Vec<((usize, usize), i64)> = vec![
        ((1, 0), 17),
        ((2, 0), -4),
        ((2, 1), 9),
        ((3, 0), 1),
        ((3, 1), -30),
        ((3, 2), 12),
    ];
    let mut g = vec![0i64; 4];
    scatter_pair_forces(4, &terms, &mut g);
    assert_eq!(g.iter().sum::<i64>(), 0);
}

#[test]
fn scatter_overwrites_a_reused_buffer() {
    let terms: Vec<((usize, usize), i64)> = vec![((1, 0), 3), ((2, 1), -8)];
    let mut g = vec![1234i64, -77, 99];
    let e1 = scatter_pair_forces(3, &terms, &mut g);
    let first = g.clone();
    // a second run over the same terms with the now-dirty buffer
    let e2 = scatter_pair_forces(3, &terms, &mut g);
    assert_eq!(g, first);
    assert_eq!(e1, e2);
}

#[test]
fn scatter_with_no_terms_zeroes_the_buffer() {
    let terms: Vec<((usize, usize), i64)> = vec![];
    let mut g = vec![5i64, 6, 7];
    let e = scatter_pair_forces(3, &terms, &mut g);
    assert_eq!(g, vec![0, 0, 0]);
    assert_eq!(e, 0);
}

#[test]
fn merged_worker_buffers_match_the_serial_pass() {
    let all: Vec<((usize, usize), i64)> = vec![
        ((1, 0), 17),
        ((2, 0), -4),
        ((2, 1), 9),
        ((3, 0), 1),
        ((3, 1), -30),
        ((3, 2), 12),
    ];
    let (first, second) = all.split_at(3);

    let mut serial = vec![0i64; 4];
    scatter_pair_forces(4, &all, &mut serial);

    let mut merged = vec![0i64; 4];
    scatter_pair_forces(4, &first.to_vec(), &mut merged);
    let mut part = vec![0i64; 4];
    scatter_pair_forces(4, &second.to_vec(), &mut part);
    merge_force_buffers(&mut merged, &part);

    assert_eq!(merged, serial);
}
