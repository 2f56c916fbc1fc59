use lj_kernel::pairs::{blocked_pairs, naive_pairs};
use lj_kernel::schedule::split_blocks;

fn sorted(mut v: Vec<(usize, usize)>) -> Vec<(usize, usize)> {
    v.sort();
    v
}

#[test]
fn naive_pairs_small() {
    assert_eq!(
        naive_pairs(4),
        vec![(1, 0), (2, 0), (2, 1), (3, 0), (3, 1), (3, 2)]
    );
}

#[test]
fn no_pairs_without_two_particles() {
    // no pairs exist for zero or one particle, whatever the block width
    assert_eq!(naive_pairs(0), vec![]);
    assert_eq!(naive_pairs(1), vec![]);
    for w in [1usize, 2, 4, 8] {
        assert_eq!(blocked_pairs(0, w), vec![]);
        assert_eq!(blocked_pairs(1, w), vec![]);
    }
}

#[test]
fn blocked_pairs_exact_order_for_one_block_and_tail() {
    // n = 5, w = 2: blocks [0,2) and [2,4), then the tail row for index 4
    let pairs = blocked_pairs(5, 2);
    assert_eq!(
        pairs,
        vec![
            // block 0: nothing earlier, intra pair (1, 0)
            (1, 0),
            // block 1 broadcast: columns for k = 0 and k = 1
            (2, 0),
            (3, 0),
            (2, 1),
            (3, 1),
            // block 1 intra
            (3, 2),
            // tail row i = 4
            (4, 0),
            (4, 1),
            (4, 2),
            (4, 3),
        ]
    );
}

#[test]
fn blocked_pairs_visit_every_pair_exactly_once() {
    for n in [0usize, 1, 2, 3, 5, 8, 9, 16, 17] {
        let reference = sorted(naive_pairs(n));
        assert_eq!(reference.len(), n * n.saturating_sub(1) / 2);
        for w in [1usize, 2, 3, 4, 8, 16, 32] {
            assert_eq!(sorted(blocked_pairs(n, w)), reference, "n={n} w={w}");
        }
    }
}

#[test]
fn split_blocks_balanced() {
    assert_eq!(split_blocks(10, 3), vec![(0, 4), (4, 7), (7, 10)]);
    assert_eq!(split_blocks(4, 1), vec![(0, 4)]);
    assert_eq!(split_blocks(4, 4), vec![(0, 1), (1, 2), (2, 3), (3, 4)]);
}

#[test]
fn split_blocks_with_more_workers_than_blocks() {
    assert_eq!(
        split_blocks(2, 5),
        vec![(0, 1), (1, 2), (2, 2), (2, 2), (2, 2)]
    );
    assert_eq!(split_blocks(0, 3), vec![(0, 0), (0, 0), (0, 0)]);
}
