use lj_kernel::lattice::cubic_lattice_sites;

#[test]
fn empty_and_single_site_lattices() {
    assert_eq!(cubic_lattice_sites(0), vec![]);
    assert_eq!(cubic_lattice_sites(1), vec![(0, 0, 0)]);
}

#[test]
fn two_wide_lattice_in_row_major_order() {
    assert_eq!(
        cubic_lattice_sites(2),
        vec![
            (0, 0, 0),
            (0, 0, 1),
            (0, 1, 0),
            (0, 1, 1),
            (1, 0, 0),
            (1, 0, 1),
            (1, 1, 0),
            (1, 1, 1),
        ]
    );
}

#[test]
fn lattice_site_count_is_cubed() {
    for n in [0usize, 1, 2, 3, 5] {
        assert_eq!(cubic_lattice_sites(n).len(), n * n * n);
    }
}
