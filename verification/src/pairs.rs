//! Enumeration of unordered particle pairs.
//!
//! The all-pairs kernels sum one term per unordered pair `{i, j}` of
//! particle indices.  A pair is represented as `(i, j)` with `j < i`: the
//! later particle first, its earlier partner second.  Two enumeration
//! orders matter:
//!
//! * the naive triangular order: for each `i`, every `j < i`;
//! * the lane-blocked order: the index space is cut into blocks of width
//!   `w`; each block is played against all earlier indices one broadcast
//!   column at a time, then against itself with a triangular scan, and the
//!   `n % w` leftover indices are folded in with full triangular rows.
//!
//! The central theorem of this module says the two orders enumerate the
//! same multiset of pairs — every unordered pair exactly once — so any
//! order-insensitive accumulation over them agrees exactly.

use vstd::multiset::Multiset;
use vstd::prelude::*;

verus! {

broadcast use vstd::seq_lib::group_to_multiset_ensures, vstd::multiset::group_multiset_axioms;

/// The pairs `(i, j)` for one fixed later particle `i`, the earlier partner
/// `j` running over `[lo, hi)` in increasing order.
pub open spec fn row_pairs(i: int, lo: int, hi: int) -> Seq<(usize, usize)> {
    Seq::new(
        if hi >= lo {
            (hi - lo) as nat
        } else {
            0
        },
        |q: int| (i as usize, (lo + q) as usize),
    )
}

/// Full triangular rows for the indices in `[lo, n)`: each such `i` paired
/// with every `j < i`.
pub open spec fn tail_pairs(lo: int, n: int) -> Seq<(usize, usize)>
    decreases n - lo,
{
    if n <= lo {
        Seq::empty()
    } else {
        tail_pairs(lo, n - 1) + row_pairs(n - 1, 0, n - 1)
    }
}

/// The naive triangular enumeration for `n` particles: every `(i, j)` with
/// `j < i < n`, row by row.
pub open spec fn naive_pair_seq(n: int) -> Seq<(usize, usize)> {
    tail_pairs(0, n)
}

/// One broadcast column: the earlier particle `k` against all `w` lanes of
/// the block starting at `base`.
pub open spec fn col_pairs(base: int, w: int, k: int) -> Seq<(usize, usize)> {
    Seq::new(
        if w >= 0 {
            w as nat
        } else {
            0
        },
        |l: int| (((base + l) as usize), k as usize),
    )
}

/// The broadcast phase of one block: every earlier particle `k` in `[0, m)`
/// against all `w` lanes of the block starting at `base`.
pub open spec fn block_earlier_pairs(base: int, w: int, m: int) -> Seq<(usize, usize)>
    decreases m,
{
    if m <= 0 {
        Seq::empty()
    } else {
        block_earlier_pairs(base, w, m - 1) + col_pairs(base, w, m - 1)
    }
}

/// The triangular scan within one block of width `w` starting at `base`:
/// each lane paired with the earlier lanes of the same block.
pub open spec fn block_intra_pairs(base: int, w: int) -> Seq<(usize, usize)>
    decreases w,
{
    if w <= 0 {
        Seq::empty()
    } else {
        block_intra_pairs(base, w - 1) + row_pairs(base + w - 1, base, base + w - 1)
    }
}

/// Everything block `c` of width `w` contributes: its broadcast phase
/// against all earlier indices, then its own triangular scan.
pub open spec fn block_pairs(w: int, c: int) -> Seq<(usize, usize)> {
    block_earlier_pairs(c * w, w, c * w) + block_intra_pairs(c * w, w)
}

/// The pairs contributed by the blocks `[lo, hi)`, in block order.
pub open spec fn block_range_pairs(w: int, lo: int, hi: int) -> Seq<(usize, usize)>
    decreases hi - lo,
{
    if hi <= lo {
        Seq::empty()
    } else {
        block_range_pairs(w, lo, hi - 1) + block_pairs(w, hi - 1)
    }
}

/// The lane-blocked enumeration for `n` particles and block width `w`: all
/// `n / w` full blocks, then full triangular rows for the remainder.
pub open spec fn blocked_pair_seq(n: int, w: int) -> Seq<(usize, usize)> {
    block_range_pairs(w, 0, n / w) + tail_pairs((n / w) * w, n)
}

/// Enumerates every pair `(i, j)` with `j < i < n` in the naive triangular
/// order.
pub fn naive_pairs(n: usize) -> (r: Vec<(usize, usize)>)
    ensures
        r@ == naive_pair_seq(n as int),
{
    let mut r: Vec<(usize, usize)> = Vec::new();
    for i in 0..n
        invariant
            r@ == tail_pairs(0, i as int),
    {
        for j in 0..i
            invariant
                r@ == tail_pairs(0, i as int) + row_pairs(i as int, 0, j as int),
        {
            r.push((i, j));
            proof {
                assert(row_pairs(i as int, 0, j + 1) =~= row_pairs(i as int, 0, j as int).push(
                    (i, j),
                ));
                assert(tail_pairs(0, i as int) + row_pairs(i as int, 0, j + 1) =~= (tail_pairs(
                    0,
                    i as int,
                ) + row_pairs(i as int, 0, j as int)).push((i, j)));
            }
        }
        proof {
            assert(r@ =~= tail_pairs(0, i + 1));
        }
    }
    r
}

/// Appending to the right summand of a concatenation appends to the whole.
proof fn lemma_append_push(a: Seq<(usize, usize)>, b: Seq<(usize, usize)>, x: (usize, usize))
    ensures
        a + b.push(x) =~= (a + b).push(x),
{
}

/// Enumerates every pair `(i, j)` with `j < i < n` in the lane-blocked
/// order for block width `w`: block by block, each block first against all
/// earlier indices column by column, then against itself, and the
/// remainder indices last with full triangular rows.
pub fn blocked_pairs(n: usize, w: usize) -> (r: Vec<(usize, usize)>)
    requires
        w >= 1,
    ensures
        r@ == blocked_pair_seq(n as int, w as int),
{
    let b = n / w;
    proof {
        vstd::arithmetic::div_mod::lemma_fundamental_div_mod(n as int, w as int);
        vstd::arithmetic::div_mod::lemma_mod_bound(n as int, w as int);
        vstd::arithmetic::mul::lemma_mul_is_commutative(w as int, b as int);
    }
    assert(b * w <= n);
    let mut r: Vec<(usize, usize)> = Vec::new();
    for c in 0..b
        invariant
            w >= 1,
            b == n as int / w as int,
            b * w <= n,
            r@ == block_range_pairs(w as int, 0, c as int),
    {
        proof {
            vstd::arithmetic::mul::lemma_mul_inequality(c + 1, b as int, w as int);
            vstd::arithmetic::mul::lemma_mul_is_distributive_add_other_way(
                w as int,
                c as int,
                1,
            );
            vstd::arithmetic::mul::lemma_mul_basics(w as int);
        }
        assert(c * w + w <= b * w);
        let base = c * w;
        let ghost prefix = block_range_pairs(w as int, 0, c as int);
        for k in 0..base
            invariant
                w >= 1,
                base == c * w,
                base + w <= n,
                r@ == prefix + block_earlier_pairs(base as int, w as int, k as int),
        {
            let ghost before_col = prefix + block_earlier_pairs(base as int, w as int, k as int);
            for l in 0..w
                invariant
                    base == c * w,
                    base + w <= n,
                    r@ == before_col + col_pairs(base as int, l as int, k as int),
            {
                let lane = base + l;
                r.push((lane, k));
                proof {
                    assert(col_pairs(base as int, l + 1, k as int) =~= col_pairs(
                        base as int,
                        l as int,
                        k as int,
                    ).push((lane, k)));
                    lemma_append_push(
                        before_col,
                        col_pairs(base as int, l as int, k as int),
                        (lane, k),
                    );
                }
            }
            proof {
                assert(r@ =~= prefix + block_earlier_pairs(base as int, w as int, k + 1));
            }
        }
        let ghost earlier_done = prefix + block_earlier_pairs(
            base as int,
            w as int,
            base as int,
        );
        for l in 0..w
            invariant
                base == c * w,
                base + w <= n,
                r@ == earlier_done + block_intra_pairs(base as int, l as int),
        {
            let ghost before_row = earlier_done + block_intra_pairs(base as int, l as int);
            for m in 0..l
                invariant
                    base == c * w,
                    base + w <= n,
                    m <= l < w,
                    r@ == before_row + row_pairs(base + l, base as int, base + m),
            {
                let lane = base + l;
                let partner = base + m;
                r.push((lane, partner));
                proof {
                    assert(row_pairs(base + l, base as int, base + m + 1) =~= row_pairs(
                        base + l,
                        base as int,
                        base + m,
                    ).push((lane, partner)));
                    lemma_append_push(
                        before_row,
                        row_pairs(base + l, base as int, base + m),
                        (lane, partner),
                    );
                }
            }
            proof {
                assert(r@ =~= earlier_done + block_intra_pairs(base as int, l + 1));
            }
        }
        proof {
            assert(r@ =~= block_range_pairs(w as int, 0, c + 1));
        }
    }
    let bw = b * w;
    let ghost blocks_done = block_range_pairs(w as int, 0, b as int);
    for i in bw..n
        invariant
            bw == b * w,
            r@ == blocks_done + tail_pairs(bw as int, i as int),
    {
        let ghost before_row = blocks_done + tail_pairs(bw as int, i as int);
        for j in 0..i
            invariant
                r@ == before_row + row_pairs(i as int, 0, j as int),
        {
            r.push((i, j));
            proof {
                assert(row_pairs(i as int, 0, j + 1) =~= row_pairs(i as int, 0, j as int).push(
                    (i, j),
                ));
                lemma_append_push(before_row, row_pairs(i as int, 0, j as int), (i, j));
            }
        }
        proof {
            assert(r@ =~= blocks_done + tail_pairs(bw as int, i + 1));
        }
    }
    r
}

/// Splitting a concatenation splits the occurrence count.
proof fn lemma_count_append(a: Seq<(usize, usize)>, b: Seq<(usize, usize)>, p: (usize, usize))
    ensures
        (a + b).to_multiset().count(p) == a.to_multiset().count(p) + b.to_multiset().count(p),
{
    vstd::seq_lib::lemma_multiset_commutative(a, b);
}

/// How often `p` occurs in one row: once if it is `(i, j)` with `j` in
/// `[lo, hi)`, never otherwise.
proof fn lemma_row_count(i: int, lo: int, hi: int, p: (usize, usize))
    requires
        0 <= i <= usize::MAX,
        0 <= lo,
        hi <= usize::MAX,
    ensures
        row_pairs(i, lo, hi).to_multiset().count(p) == if p.0 == i && lo <= p.1 < hi {
            1nat
        } else {
            0nat
        },
    decreases hi - lo,
{
    if hi <= lo {
        assert(!row_pairs(i, lo, hi).contains(p));
    } else {
        lemma_row_count(i, lo, hi - 1, p);
        assert(row_pairs(i, lo, hi) =~= row_pairs(i, lo, hi - 1).push(
            (i as usize, (hi - 1) as usize),
        ));
    }
}

/// How often `p` occurs in one broadcast column: once if it pairs a lane of
/// the block with the broadcast particle `k`, never otherwise.
proof fn lemma_col_count(base: int, w: int, k: int, p: (usize, usize))
    requires
        0 <= base,
        base + w <= usize::MAX,
        0 <= k <= usize::MAX,
    ensures
        col_pairs(base, w, k).to_multiset().count(p) == if p.1 == k && base <= p.0 < base + w {
            1nat
        } else {
            0nat
        },
    decreases w,
{
    if w <= 0 {
        assert(!col_pairs(base, w, k).contains(p));
    } else {
        lemma_col_count(base, w - 1, k, p);
        assert(col_pairs(base, w, k) =~= col_pairs(base, w - 1, k).push(
            ((base + w - 1) as usize, k as usize),
        ));
    }
}

/// How often `p` occurs in the broadcast phase of one block: once if it
/// pairs a lane of the block with an earlier particle below `m`.
proof fn lemma_block_earlier_count(base: int, w: int, m: int, p: (usize, usize))
    requires
        0 <= base,
        base + w <= usize::MAX,
        m <= usize::MAX,
    ensures
        block_earlier_pairs(base, w, m).to_multiset().count(p) == if base <= p.0 < base + w
            && p.1 < m {
            1nat
        } else {
            0nat
        },
    decreases m,
{
    if m <= 0 {
        assert(!block_earlier_pairs(base, w, m).contains(p));
    } else {
        lemma_block_earlier_count(base, w, m - 1, p);
        lemma_col_count(base, w, m - 1, p);
        lemma_count_append(block_earlier_pairs(base, w, m - 1), col_pairs(base, w, m - 1), p);
    }
}

/// How often `p` occurs in the triangular scan of one block: once if both
/// of its indices are lanes of the block, in order.
proof fn lemma_block_intra_count(base: int, w: int, p: (usize, usize))
    requires
        0 <= base,
        base + w <= usize::MAX,
    ensures
        block_intra_pairs(base, w).to_multiset().count(p) == if base <= p.1 < p.0 < base + w {
            1nat
        } else {
            0nat
        },
    decreases w,
{
    if w <= 0 {
        assert(!block_intra_pairs(base, w).contains(p));
    } else {
        lemma_block_intra_count(base, w - 1, p);
        lemma_row_count(base + w - 1, base, base + w - 1, p);
        lemma_count_append(
            block_intra_pairs(base, w - 1),
            row_pairs(base + w - 1, base, base + w - 1),
            p,
        );
    }
}

/// How often `p` occurs in everything block `c` contributes: once if its
/// later index is a lane of the block and its earlier index is below it.
proof fn lemma_block_count(w: int, c: int, p: (usize, usize))
    requires
        1 <= w,
        0 <= c,
        c * w + w <= usize::MAX,
    ensures
        block_pairs(w, c).to_multiset().count(p) == if c * w <= p.0 < c * w + w && p.1 < p.0 {
            1nat
        } else {
            0nat
        },
{
    vstd::arithmetic::mul::lemma_mul_nonnegative(c, w);
    lemma_block_earlier_count(c * w, w, c * w, p);
    lemma_block_intra_count(c * w, w, p);
    lemma_count_append(
        block_earlier_pairs(c * w, w, c * w),
        block_intra_pairs(c * w, w),
        p,
    );
}

/// How often `p` occurs in the blocks `[lo, hi)` together: once if its
/// later index falls inside those blocks and its earlier index is below it.
proof fn lemma_block_range_count(w: int, lo: int, hi: int, p: (usize, usize))
    requires
        1 <= w,
        0 <= lo <= hi,
        hi * w <= usize::MAX,
    ensures
        block_range_pairs(w, lo, hi).to_multiset().count(p) == if lo * w <= p.0 < hi * w && p.1
            < p.0 {
            1nat
        } else {
            0nat
        },
    decreases hi - lo,
{
    if hi <= lo {
        assert(!block_range_pairs(w, lo, hi).contains(p));
    } else {
        vstd::arithmetic::mul::lemma_mul_inequality(hi - 1, hi, w);
        vstd::arithmetic::mul::lemma_mul_inequality(lo, hi - 1, w);
        vstd::arithmetic::mul::lemma_mul_is_distributive_sub_other_way(w, hi, 1);
        vstd::arithmetic::mul::lemma_mul_basics(w);
        lemma_block_range_count(w, lo, hi - 1, p);
        lemma_block_count(w, hi - 1, p);
        lemma_count_append(block_range_pairs(w, lo, hi - 1), block_pairs(w, hi - 1), p);
    }
}

/// How often `p` occurs in the triangular rows for `[lo, n)`: once if its
/// later index lies in that range and its earlier index is below it.
proof fn lemma_tail_count(lo: int, n: int, p: (usize, usize))
    requires
        0 <= lo,
        n <= usize::MAX,
    ensures
        tail_pairs(lo, n).to_multiset().count(p) == if lo <= p.0 < n && p.1 < p.0 {
            1nat
        } else {
            0nat
        },
    decreases n - lo,
{
    if n <= lo {
        assert(!tail_pairs(lo, n).contains(p));
    } else {
        lemma_tail_count(lo, n - 1, p);
        lemma_row_count(n - 1, 0, n - 1, p);
        lemma_count_append(tail_pairs(lo, n - 1), row_pairs(n - 1, 0, n - 1), p);
    }
}

/// Every unordered pair `(i, j)` with `j < i < n` occurs exactly once in
/// the naive triangular enumeration, and nothing else occurs.
pub proof fn theorem_naive_pairs_exactly_once(n: int, p: (usize, usize))
    requires
        0 <= n <= usize::MAX,
    ensures
        naive_pair_seq(n).to_multiset().count(p) == if p.1 < p.0 < n {
            1nat
        } else {
            0nat
        },
{
    lemma_tail_count(0, n, p);
}

/// The lane-blocked enumeration is a permutation of the naive one: for any
/// block width it visits the same multiset of pairs, i.e. every unordered
/// pair exactly once.
pub proof fn theorem_blocked_is_permutation(n: int, w: int)
    requires
        0 <= n <= usize::MAX,
        1 <= w,
    ensures
        blocked_pair_seq(n, w).to_multiset() == naive_pair_seq(n).to_multiset(),
{
    let b = n / w;
    vstd::arithmetic::div_mod::lemma_fundamental_div_mod(n, w);
    vstd::arithmetic::div_mod::lemma_mod_bound(n, w);
    vstd::arithmetic::div_mod::lemma_div_pos_is_pos(n, w);
    vstd::arithmetic::mul::lemma_mul_is_commutative(w, b);
    assert forall|p: (usize, usize)|
        blocked_pair_seq(n, w).to_multiset().count(p) == naive_pair_seq(
            n,
        ).to_multiset().count(p) by {
        lemma_count_append(block_range_pairs(w, 0, b), tail_pairs(b * w, n), p);
        lemma_block_range_count(w, 0, b, p);
        lemma_tail_count(b * w, n, p);
        lemma_tail_count(0, n, p);
    }
    assert(blocked_pair_seq(n, w).to_multiset() =~= naive_pair_seq(n).to_multiset());
}

/// Every unordered pair exactly once, in the lane-blocked enumeration.
pub proof fn theorem_blocked_pairs_exactly_once(n: int, w: int, p: (usize, usize))
    requires
        0 <= n <= usize::MAX,
        1 <= w,
    ensures
        blocked_pair_seq(n, w).to_multiset().count(p) == if p.1 < p.0 < n {
            1nat
        } else {
            0nat
        },
{
    theorem_blocked_is_permutation(n, w);
    theorem_naive_pairs_exactly_once(n, p);
}

/// The exact sum of a per-pair term over a pair sequence, term by term in
/// sequence order.
pub open spec fn sum_pair_terms(s: Seq<(usize, usize)>, f: spec_fn((usize, usize)) -> int) -> int
    decreases s.len(),
{
    if s.len() == 0 {
        0
    } else {
        sum_pair_terms(s.drop_last(), f) + f(s.last())
    }
}

/// The fold operator behind `sum_pair_terms`.
spec fn term_folder(f: spec_fn((usize, usize)) -> int) -> spec_fn((usize, usize), int) -> int {
    |p: (usize, usize), acc: int| acc + f(p)
}

proof fn lemma_sum_as_fold(s: Seq<(usize, usize)>, f: spec_fn((usize, usize)) -> int, v: int)
    ensures
        s.fold_right(term_folder(f), v) == sum_pair_terms(s, f) + v,
    decreases s.len(),
{
    if s.len() > 0 {
        lemma_sum_as_fold(s.drop_last(), f, term_folder(f)(s.last(), v));
    }
}

/// Exact addition cannot tell two enumerations of the same multiset of
/// pairs apart: the sums agree term for term.
pub proof fn lemma_sum_permutation(
    s1: Seq<(usize, usize)>,
    s2: Seq<(usize, usize)>,
    f: spec_fn((usize, usize)) -> int,
)
    requires
        s1.to_multiset() == s2.to_multiset(),
    ensures
        sum_pair_terms(s1, f) == sum_pair_terms(s2, f),
{
    assert(vstd::seq_lib::commutative_foldr(term_folder(f)));
    vstd::seq_lib::lemma_fold_right_permutation(s1, s2, term_folder(f), 0);
    lemma_sum_as_fold(s1, f, 0);
    lemma_sum_as_fold(s2, f, 0);
}

/// Summing over a concatenation sums the parts.
pub proof fn lemma_sum_append(
    a: Seq<(usize, usize)>,
    b: Seq<(usize, usize)>,
    f: spec_fn((usize, usize)) -> int,
)
    ensures
        sum_pair_terms(a + b, f) == sum_pair_terms(a, f) + sum_pair_terms(b, f),
    decreases b.len(),
{
    if b.len() == 0 {
        assert(a + b =~= a);
    } else {
        assert((a + b).drop_last() =~= a + b.drop_last());
        lemma_sum_append(a, b.drop_last(), f);
    }
}

/// For every block width, summing any per-pair term over the lane-blocked
/// enumeration gives exactly the naive triangular double-loop total: the
/// two schedules differ only by the association and order of the exact
/// additions.
pub proof fn theorem_blocked_sum_matches_naive(
    n: int,
    w: int,
    f: spec_fn((usize, usize)) -> int,
)
    requires
        0 <= n <= usize::MAX,
        1 <= w,
    ensures
        sum_pair_terms(blocked_pair_seq(n, w), f) == sum_pair_terms(naive_pair_seq(n), f),
{
    theorem_blocked_is_permutation(n, w);
    lemma_sum_permutation(blocked_pair_seq(n, w), naive_pair_seq(n), f);
}

/// Fewer than two particles give no pairs at all, under either
/// enumeration and any block width.
pub proof fn theorem_no_pairs_below_two(n: int, w: int)
    requires
        0 <= n <= 1,
        1 <= w,
    ensures
        naive_pair_seq(n) =~= Seq::<(usize, usize)>::empty(),
        blocked_pair_seq(n, w) =~= Seq::<(usize, usize)>::empty(),
{
    theorem_blocked_is_permutation(n, w);
    assert forall|p: (usize, usize)|
        naive_pair_seq(n).to_multiset().count(p) == 0nat by {
        theorem_naive_pairs_exactly_once(n, p);
    }
    assert(naive_pair_seq(n).to_multiset() =~= Multiset::<(usize, usize)>::empty());
    assert(naive_pair_seq(n).len() == naive_pair_seq(n).to_multiset().len());
    assert(blocked_pair_seq(n, w).len() == blocked_pair_seq(n, w).to_multiset().len());
    assert(naive_pair_seq(n).len() == 0);
    assert(blocked_pair_seq(n, w).len() == 0);
}

/// There are exactly `n·(n−1)/2` unordered pairs: the length of either
/// enumeration, doubled, is `n·(n−1)`.
pub proof fn theorem_pair_count(n: int)
    requires
        0 <= n,
    ensures
        2 * naive_pair_seq(n).len() == n * (n - 1),
    decreases n,
{
    if n > 0 {
        theorem_pair_count(n - 1);
        assert(naive_pair_seq(n) == tail_pairs(0, n - 1) + row_pairs(n - 1, 0, n - 1));
        assert(row_pairs(n - 1, 0, n - 1).len() == n - 1);
        assert(naive_pair_seq(n).len() == naive_pair_seq(n - 1).len() + (n - 1));
        assert((n - 1) * (n - 2) + 2 * (n - 1) == n * (n - 1)) by (nonlinear_arith);
        assert(2 * naive_pair_seq(n).len() == n * (n - 1));
    } else {
        assert(naive_pair_seq(n).len() == 0);
        assert(n * (n - 1) == 0) by (nonlinear_arith)
            requires n == 0;
    }
}

} // verus!
