use lj_kernel::colatz::{do_n_colatz, do_n_colatz_chunked, get_amt_done};

#[test]
fn single_trajectory_and_running_max() {
    // halved Collatz steps from 6: 3, 5, 8, 4
    let mut is = vec![6i64];
    let mut maxs = vec![0i64];
    do_n_colatz(&mut is, &mut maxs, 4);
    assert_eq!(is, vec![4]);
    assert_eq!(maxs, vec![8]);
}

#[test]
fn running_max_keeps_old_maximum() {
    let mut is = vec![6i64];
    let mut maxs = vec![100i64];
    do_n_colatz(&mut is, &mut maxs, 4);
    assert_eq!(is, vec![4]);
    assert_eq!(maxs, vec![100]);
}

#[test]
fn zero_iterations_change_nothing() {
    let mut is = vec![7i64, 9, 11];
    let mut maxs = vec![0i64, 0, 0];
    do_n_colatz(&mut is, &mut maxs, 0);
    assert_eq!(is, vec![7, 9, 11]);
    assert_eq!(maxs, vec![0, 0, 0]);
}

#[test]
fn amt_done_counts_terminal_values() {
    let is = vec![1i64, 2, 3, 4, 5, 100];
    assert_eq!(get_amt_done(&is), 4);
}

#[test]
fn chunked_matches_plain_across_chunk_boundary() {
    // 2500 elements: two full 1024-element chunks plus a remainder
    let n: usize = 2500;
    let mut a: Vec<i64> = (1..=n as i64).collect();
    let mut a_max = vec![0i64; n];
    let mut b = a.clone();
    let mut b_max = a_max.clone();
    do_n_colatz(&mut a, &mut a_max, 30);
    do_n_colatz_chunked(&mut b, &mut b_max, 30);
    assert_eq!(a, b);
    assert_eq!(a_max, b_max);
}

#[test]
fn negative_values_step_like_the_positive_rule() {
    // -5 is odd: (3 * -5 + 1) / 2 == -7; -4 is even: -2
    let mut is = vec![-5i64, -4];
    let mut maxs = vec![i64::MIN, i64::MIN];
    do_n_colatz(&mut is, &mut maxs, 1);
    assert_eq!(is, vec![-7, -2]);
    assert_eq!(maxs, vec![-7, -2]);
}
