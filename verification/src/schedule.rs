//! Static partition of the block phase across workers.
//!
//! The parallel driver cuts the full blocks into consecutive contiguous
//! spans, one per worker, before any worker starts; each worker sums its
//! own span into a private accumulator and the driver folds the partial
//! results together after all workers have finished.  The theorem here
//! says that for any such partition the concatenation of the workers'
//! pair spans, followed by the serial remainder rows, is exactly the
//! serial lane-blocked enumeration — so the merged total equals the
//! single-threaded one for every per-pair term.

use vstd::prelude::*;

verus! {

use crate::pairs::{
    block_range_pairs,
    blocked_pair_seq,
    naive_pair_seq,
    sum_pair_terms,
    tail_pairs,
    theorem_blocked_sum_matches_naive,
    lemma_sum_append,
};

/// Whether `ranges` cuts the blocks `[0, nblocks)` into consecutive
/// contiguous spans: the first starts at 0, each starts where the one
/// before it ended, and the last ends at `nblocks`.
pub open spec fn is_block_partition(ranges: Seq<(usize, usize)>, nblocks: int) -> bool {
    &&& ranges.len() > 0
    &&& ranges[0].0 == 0
    &&& ranges[ranges.len() - 1].1 == nblocks
    &&& forall|t: int| 0 <= t < ranges.len() ==> (#[trigger] ranges[t]).0 <= ranges[t].1
    &&& forall|t: int| 0 <= t < ranges.len() - 1 ==> (#[trigger] ranges[t]).1 == ranges[t + 1].0
}

/// The pairs the workers contribute, in worker order: each span of blocks
/// expanded to its lane-blocked pairs.
pub open spec fn partition_pair_seq(ranges: Seq<(usize, usize)>, w: int) -> Seq<(usize, usize)>
    decreases ranges.len(),
{
    if ranges.len() == 0 {
        Seq::empty()
    } else {
        partition_pair_seq(ranges.drop_last(), w) + block_range_pairs(
            w,
            ranges.last().0 as int,
            ranges.last().1 as int,
        )
    }
}

/// Splits `[0, nblocks)` into `workers` consecutive spans whose lengths
/// differ by at most one: the first `nblocks % workers` spans carry one
/// extra block.
pub fn split_blocks(nblocks: usize, workers: usize) -> (r: Vec<(usize, usize)>)
    requires
        workers >= 1,
    ensures
        r@.len() == workers,
        is_block_partition(r@, nblocks as int),
        forall|t: int|
            0 <= t < workers ==> (#[trigger] r@[t]).1 - r@[t].0 == nblocks as int
                / workers as int + if t < nblocks as int % workers as int {
                1int
            } else {
                0int
            },
{
    let q = nblocks / workers;
    let rem = nblocks % workers;
    proof {
        vstd::arithmetic::div_mod::lemma_fundamental_div_mod(nblocks as int, workers as int);
        vstd::arithmetic::div_mod::lemma_mod_bound(nblocks as int, workers as int);
        vstd::arithmetic::mul::lemma_mul_is_commutative(workers as int, q as int);
    }
    let mut r: Vec<(usize, usize)> = Vec::new();
    let mut start: usize = 0;
    for t in 0..workers
        invariant
            workers >= 1,
            q == nblocks as int / workers as int,
            rem == nblocks as int % workers as int,
            rem < workers,
            workers * q + rem == nblocks,
            r@.len() == t,
            start as int == t * q + vstd::math::min(t as int, rem as int),
            t > 0 ==> r@[0].0 == 0,
            t == 0 ==> start == 0,
            t > 0 ==> r@[t - 1].1 == start,
            forall|s: int| 0 <= s < t ==> (#[trigger] r@[s]).0 <= r@[s].1,
            forall|s: int| 0 <= s < t - 1 ==> (#[trigger] r@[s]).1 == r@[s + 1].0,
            forall|s: int|
                0 <= s < t ==> (#[trigger] r@[s]).1 - r@[s].0 == q + if s < rem {
                    1int
                } else {
                    0int
                },
    {
        proof {
            vstd::arithmetic::mul::lemma_mul_inequality(t + 1, workers as int, q as int);
            vstd::arithmetic::mul::lemma_mul_is_distributive_add_other_way(
                q as int,
                t as int,
                1,
            );
            vstd::arithmetic::mul::lemma_mul_basics(q as int);
            vstd::arithmetic::mul::lemma_mul_nonnegative(t as int, q as int);
        }
        let extra: usize = if t < rem {
            1
        } else {
            0
        };
        assert(start + q + extra <= nblocks);
        let end = start + q + extra;
        r.push((start, end));
        start = end;
    }
    proof {
        assert(start == nblocks);
    }
    r
}

/// Cutting a span of blocks in two cuts its pair sequence in two.
proof fn lemma_block_range_split(w: int, a: int, b: int, c: int)
    requires
        a <= b <= c,
    ensures
        block_range_pairs(w, a, c) =~= block_range_pairs(w, a, b) + block_range_pairs(w, b, c),
    decreases c - b,
{
    if c <= b {
        assert(block_range_pairs(w, b, c) =~= Seq::empty());
    } else {
        lemma_block_range_split(w, a, b, c - 1);
    }
}

/// The workers' spans, concatenated in worker order, expand to exactly the
/// pairs of the full block phase.
proof fn lemma_partition_pairs(ranges: Seq<(usize, usize)>, w: int, nblocks: int)
    requires
        is_block_partition(ranges, nblocks),
    ensures
        partition_pair_seq(ranges, w) =~= block_range_pairs(w, 0, nblocks),
    decreases ranges.len(),
{
    let last = ranges.last();
    if ranges.len() == 1 {
        assert(partition_pair_seq(ranges.drop_last(), w) =~= Seq::empty());
    } else {
        let prefix = ranges.drop_last();
        assert(is_block_partition(prefix, prefix[prefix.len() - 1].1 as int));
        lemma_partition_pairs(prefix, w, last.0 as int);
        lemma_block_range_split(w, 0, last.0 as int, last.1 as int);
    }
}

/// Splitting the block phase across workers changes nothing: for any
/// contiguous partition of the blocks, summing each worker's span and
/// folding in the serial remainder rows gives exactly the serial blocked
/// total, which itself equals the naive triangular total.
pub proof fn theorem_partition_sum_matches_blocked(
    n: int,
    w: int,
    ranges: Seq<(usize, usize)>,
    f: spec_fn((usize, usize)) -> int,
)
    requires
        0 <= n <= usize::MAX,
        1 <= w,
        is_block_partition(ranges, n / w),
    ensures
        sum_pair_terms(partition_pair_seq(ranges, w) + tail_pairs((n / w) * w, n), f)
            == sum_pair_terms(blocked_pair_seq(n, w), f),
        sum_pair_terms(partition_pair_seq(ranges, w) + tail_pairs((n / w) * w, n), f)
            == sum_pair_terms(naive_pair_seq(n), f),
{
    lemma_partition_pairs(ranges, w, n / w);
    lemma_sum_append(partition_pair_seq(ranges, w), tail_pairs((n / w) * w, n), f);
    lemma_sum_append(block_range_pairs(w, 0, n / w), tail_pairs((n / w) * w, n), f);
    theorem_blocked_sum_matches_naive(n, w, f);
}

} // verus!
