//! Dot products, naive and lane-chunked.
//!
//! The chunked variant keeps one accumulator per lane, adds the products
//! of a whole chunk lane-wise, folds the lanes together at the end and
//! sweeps up the remainder with a plain loop — the same reassociation the
//! lane-blocked energy kernel performs.  Over exact scalars the result is
//! pinned to the same mathematical dot product as the naive loop, for
//! every lane count.
//!
//! Every partial accumulator either loop can form lies between the sum
//! of the negative parts and the sum of the positive parts of the
//! products, so those two bounds fitting into the scalar type is the
//! whole overflow precondition.

use vstd::prelude::*;

use crate::linalg::primtrait::PrimNum;

verus! {

/// The products of corresponding entries of `v` and `w`.
pub open spec fn prod_fn<T: PrimNum>(v: Seq<T>, w: Seq<T>) -> spec_fn(int) -> int {
    |q: int| v[q].pn_view() * w[q].pn_view()
}

/// The positive parts of `g`.
pub open spec fn pos_part(g: spec_fn(int) -> int) -> spec_fn(int) -> int {
    |q: int| vstd::math::max(g(q), 0)
}

/// The negative parts of `g`.
pub open spec fn neg_part(g: spec_fn(int) -> int) -> spec_fn(int) -> int {
    |q: int| vstd::math::min(g(q), 0)
}

/// `Σ_{q < m} g(q)`.
pub open spec fn seg_sum(g: spec_fn(int) -> int, m: int) -> int
    decreases m,
{
    if m <= 0 {
        0
    } else {
        seg_sum(g, m - 1) + g(m - 1)
    }
}

/// `Σ_{l2 < l} g(base + l2)`: one contiguous row of `g`.
pub open spec fn row_sum(g: spec_fn(int) -> int, base: int, l: int) -> int
    decreases l,
{
    if l <= 0 {
        0
    } else {
        row_sum(g, base, l - 1) + g(base + l - 1)
    }
}

/// `Σ_{c2 < c} g(c2·wdt + l)`: what lane `l` of a `wdt`-wide chunking has
/// accumulated after `c` chunks.
pub open spec fn lane_sum(g: spec_fn(int) -> int, wdt: int, l: int, c: int) -> int
    decreases c,
{
    if c <= 0 {
        0
    } else {
        lane_sum(g, wdt, l, c - 1) + g((c - 1) * wdt + l)
    }
}

/// `Σ_{l2 < l} lane_sum(g, wdt, l2, c)`: the lane accumulators folded
/// together, lane by lane.
pub open spec fn fold_lanes(g: spec_fn(int) -> int, wdt: int, c: int, l: int) -> int
    decreases l,
{
    if l <= 0 {
        0
    } else {
        fold_lanes(g, wdt, c, l - 1) + lane_sum(g, wdt, l - 1, c)
    }
}

/// How many entries a dot product of `v` and `w` runs over: the common
/// prefix, like the iterator zip it mirrors.
pub open spec fn dot_len<T: PrimNum>(v: Seq<T>, w: Seq<T>) -> int {
    vstd::math::min(v.len() as int, w.len() as int)
}

/// The exact dot product over the common prefix.
pub open spec fn dot_spec<T: PrimNum>(v: Seq<T>, w: Seq<T>) -> int {
    seg_sum(prod_fn(v, w), dot_len(v, w))
}

/// The largest value any partial accumulation of the products can reach.
pub open spec fn dot_pos_bound<T: PrimNum>(v: Seq<T>, w: Seq<T>) -> int {
    seg_sum(pos_part(prod_fn(v, w)), dot_len(v, w))
}

/// The smallest value any partial accumulation of the products can reach.
pub open spec fn dot_neg_bound<T: PrimNum>(v: Seq<T>, w: Seq<T>) -> int {
    seg_sum(neg_part(prod_fn(v, w)), dot_len(v, w))
}

/// Pointwise dominance carries over to segment sums.
proof fn lemma_seg_sum_le(g1: spec_fn(int) -> int, g2: spec_fn(int) -> int, m: int)
    requires
        forall|q: int| 0 <= q < m ==> #[trigger] g1(q) <= g2(q),
    ensures
        seg_sum(g1, m) <= seg_sum(g2, m),
    decreases m,
{
    if m > 0 {
        lemma_seg_sum_le(g1, g2, m - 1);
    }
}

/// Extending a segment of non-negative values grows its sum.
proof fn lemma_seg_sum_mono_pos(g: spec_fn(int) -> int, a: int, b: int)
    requires
        0 <= a <= b,
        forall|q: int| a <= q < b ==> #[trigger] g(q) >= 0,
    ensures
        seg_sum(g, a) <= seg_sum(g, b),
    decreases b - a,
{
    if a < b {
        lemma_seg_sum_mono_pos(g, a, b - 1);
    }
}

/// Extending a segment of non-positive values shrinks its sum.
proof fn lemma_seg_sum_mono_neg(g: spec_fn(int) -> int, a: int, b: int)
    requires
        0 <= a <= b,
        forall|q: int| a <= q < b ==> #[trigger] g(q) <= 0,
    ensures
        seg_sum(g, b) <= seg_sum(g, a),
    decreases b - a,
{
    if a < b {
        lemma_seg_sum_mono_neg(g, a, b - 1);
    }
}

/// A segment sum splits at any base into a prefix and a row.
proof fn lemma_row_split(g: spec_fn(int) -> int, base: int, l: int)
    requires
        0 <= base,
        0 <= l,
    ensures
        seg_sum(g, base + l) == seg_sum(g, base) + row_sum(g, base, l),
    decreases l,
{
    if l > 0 {
        lemma_row_split(g, base, l - 1);
    }
}

/// A row of non-negative values is at least any one of its entries.
proof fn lemma_row_ge_elem(g: spec_fn(int) -> int, base: int, l: int, wdt: int)
    requires
        0 <= l < wdt,
        forall|q: int| base <= q < base + wdt ==> #[trigger] g(q) >= 0,
    ensures
        row_sum(g, base, wdt) >= g(base + l),
        row_sum(g, base, wdt) >= 0,
    decreases wdt,
{
    if wdt > 0 {
        if l == wdt - 1 {
            lemma_row_nonneg(g, base, wdt - 1);
        } else {
            lemma_row_ge_elem(g, base, l, wdt - 1);
        }
    }
}

/// A row of non-negative values is non-negative.
proof fn lemma_row_nonneg(g: spec_fn(int) -> int, base: int, l: int)
    requires
        forall|q: int| base <= q < base + l ==> #[trigger] g(q) >= 0,
    ensures
        row_sum(g, base, l) >= 0,
    decreases l,
{
    if l > 0 {
        lemma_row_nonneg(g, base, l - 1);
    }
}

/// A row of non-positive values is at most any one of its entries.
proof fn lemma_row_le_elem(g: spec_fn(int) -> int, base: int, l: int, wdt: int)
    requires
        0 <= l < wdt,
        forall|q: int| base <= q < base + wdt ==> #[trigger] g(q) <= 0,
    ensures
        row_sum(g, base, wdt) <= g(base + l),
        row_sum(g, base, wdt) <= 0,
    decreases wdt,
{
    if wdt > 0 {
        if l == wdt - 1 {
            lemma_row_nonpos(g, base, wdt - 1);
        } else {
            lemma_row_le_elem(g, base, l, wdt - 1);
        }
    }
}

/// A row of non-positive values is non-positive.
proof fn lemma_row_nonpos(g: spec_fn(int) -> int, base: int, l: int)
    requires
        forall|q: int| base <= q < base + l ==> #[trigger] g(q) <= 0,
    ensures
        row_sum(g, base, l) <= 0,
    decreases l,
{
    if l > 0 {
        lemma_row_nonpos(g, base, l - 1);
    }
}

/// Pointwise dominance carries over to lane sums.
proof fn lemma_lane_le(
    g1: spec_fn(int) -> int,
    g2: spec_fn(int) -> int,
    wdt: int,
    l: int,
    c: int,
)
    requires
        wdt >= 1,
        0 <= l < wdt,
        forall|q: int| 0 <= q < c * wdt ==> #[trigger] g1(q) <= g2(q),
    ensures
        lane_sum(g1, wdt, l, c) <= lane_sum(g2, wdt, l, c),
    decreases c,
{
    if c > 0 {
        vstd::arithmetic::mul::lemma_mul_nonnegative(c - 1, wdt);
        vstd::arithmetic::mul::lemma_mul_inequality(c - 1, c, wdt);
        assert((c - 1) * wdt + l < c * wdt) by {
            vstd::arithmetic::mul::lemma_mul_is_distributive_sub_other_way(wdt, c, 1);
            vstd::arithmetic::mul::lemma_mul_basics(wdt);
        }
        lemma_lane_le(g1, g2, wdt, l, c - 1);
    }
}

/// A lane of non-negative values stays between zero and the whole segment
/// it was cut from.
proof fn lemma_lane_within_seg_pos(g: spec_fn(int) -> int, wdt: int, l: int, c: int)
    requires
        wdt >= 1,
        0 <= l < wdt,
        0 <= c,
        forall|q: int| 0 <= q < c * wdt ==> #[trigger] g(q) >= 0,
    ensures
        0 <= lane_sum(g, wdt, l, c) <= seg_sum(g, c * wdt),
    decreases c,
{
    if c == 0 {
        vstd::arithmetic::mul::lemma_mul_basics(wdt);
        assert(seg_sum(g, 0) == 0);
    } else {
        let base = (c - 1) * wdt;
        vstd::arithmetic::mul::lemma_mul_nonnegative(c - 1, wdt);
        assert(base + wdt == c * wdt) by {
            vstd::arithmetic::mul::lemma_mul_is_distributive_sub_other_way(wdt, c, 1);
            vstd::arithmetic::mul::lemma_mul_basics(wdt);
        }
        lemma_lane_within_seg_pos(g, wdt, l, c - 1);
        lemma_row_split(g, base, wdt);
        lemma_row_ge_elem(g, base, l, wdt);
    }
}

/// A lane of non-positive values stays between the whole segment and zero.
proof fn lemma_lane_within_seg_neg(g: spec_fn(int) -> int, wdt: int, l: int, c: int)
    requires
        wdt >= 1,
        0 <= l < wdt,
        0 <= c,
        forall|q: int| 0 <= q < c * wdt ==> #[trigger] g(q) <= 0,
    ensures
        seg_sum(g, c * wdt) <= lane_sum(g, wdt, l, c) <= 0,
    decreases c,
{
    if c == 0 {
        vstd::arithmetic::mul::lemma_mul_basics(wdt);
    } else {
        let base = (c - 1) * wdt;
        vstd::arithmetic::mul::lemma_mul_nonnegative(c - 1, wdt);
        assert(base + wdt == c * wdt) by {
            vstd::arithmetic::mul::lemma_mul_is_distributive_sub_other_way(wdt, c, 1);
            vstd::arithmetic::mul::lemma_mul_basics(wdt);
        }
        lemma_lane_within_seg_neg(g, wdt, l, c - 1);
        lemma_row_split(g, base, wdt);
        lemma_row_le_elem(g, base, l, wdt);
    }
}

/// Pointwise dominance carries over to folded lanes.
proof fn lemma_fold_le(
    g1: spec_fn(int) -> int,
    g2: spec_fn(int) -> int,
    wdt: int,
    c: int,
    l: int,
)
    requires
        wdt >= 1,
        0 <= l <= wdt,
        forall|q: int| 0 <= q < c * wdt ==> #[trigger] g1(q) <= g2(q),
    ensures
        fold_lanes(g1, wdt, c, l) <= fold_lanes(g2, wdt, c, l),
    decreases l,
{
    if l > 0 {
        lemma_fold_le(g1, g2, wdt, c, l - 1);
        if c >= 0 {
            lemma_lane_le(g1, g2, wdt, l - 1, c);
        } else {
            assert(lane_sum(g1, wdt, l - 1, c) == 0);
            assert(lane_sum(g2, wdt, l - 1, c) == 0);
        }
    }
}

/// Folding some of the non-negative lanes stays between zero and the
/// whole segment.
proof fn lemma_fold_within_seg_pos(g: spec_fn(int) -> int, wdt: int, c: int, l: int)
    requires
        wdt >= 1,
        0 <= c,
        0 <= l <= wdt,
        forall|q: int| 0 <= q < c * wdt ==> #[trigger] g(q) >= 0,
    ensures
        0 <= fold_lanes(g, wdt, c, l) <= seg_sum(g, c * wdt),
    decreases l,
{
    lemma_fold_nonneg(g, wdt, c, l);
    lemma_fold_mono_pos(g, wdt, c, l);
    lemma_fold_is_seg(g, wdt, c);
}

proof fn lemma_fold_nonneg(g: spec_fn(int) -> int, wdt: int, c: int, l: int)
    requires
        wdt >= 1,
        0 <= c,
        0 <= l <= wdt,
        forall|q: int| 0 <= q < c * wdt ==> #[trigger] g(q) >= 0,
    ensures
        fold_lanes(g, wdt, c, l) >= 0,
    decreases l,
{
    if l > 0 {
        lemma_fold_nonneg(g, wdt, c, l - 1);
        lemma_lane_within_seg_pos(g, wdt, l - 1, c);
    }
}

/// Folding in the remaining non-negative lanes can only grow the total.
proof fn lemma_fold_mono_pos(g: spec_fn(int) -> int, wdt: int, c: int, l: int)
    requires
        wdt >= 1,
        0 <= c,
        0 <= l <= wdt,
        forall|q: int| 0 <= q < c * wdt ==> #[trigger] g(q) >= 0,
    ensures
        fold_lanes(g, wdt, c, l) <= fold_lanes(g, wdt, c, wdt),
    decreases wdt - l,
{
    if l < wdt {
        lemma_lane_within_seg_pos(g, wdt, l, c);
        lemma_fold_mono_pos(g, wdt, c, l + 1);
    }
}

/// Folding some of the non-positive lanes stays between the whole segment
/// and zero.
proof fn lemma_fold_within_seg_neg(g: spec_fn(int) -> int, wdt: int, c: int, l: int)
    requires
        wdt >= 1,
        0 <= c,
        0 <= l <= wdt,
        forall|q: int| 0 <= q < c * wdt ==> #[trigger] g(q) <= 0,
    ensures
        seg_sum(g, c * wdt) <= fold_lanes(g, wdt, c, l) <= 0,
    decreases l,
{
    lemma_fold_nonpos(g, wdt, c, l);
    lemma_fold_mono_neg(g, wdt, c, l);
    lemma_fold_is_seg(g, wdt, c);
}

proof fn lemma_fold_nonpos(g: spec_fn(int) -> int, wdt: int, c: int, l: int)
    requires
        wdt >= 1,
        0 <= c,
        0 <= l <= wdt,
        forall|q: int| 0 <= q < c * wdt ==> #[trigger] g(q) <= 0,
    ensures
        fold_lanes(g, wdt, c, l) <= 0,
    decreases l,
{
    if l > 0 {
        lemma_fold_nonpos(g, wdt, c, l - 1);
        lemma_lane_within_seg_neg(g, wdt, l - 1, c);
    }
}

proof fn lemma_fold_mono_neg(g: spec_fn(int) -> int, wdt: int, c: int, l: int)
    requires
        wdt >= 1,
        0 <= c,
        0 <= l <= wdt,
        forall|q: int| 0 <= q < c * wdt ==> #[trigger] g(q) <= 0,
    ensures
        fold_lanes(g, wdt, c, wdt) <= fold_lanes(g, wdt, c, l),
    decreases wdt - l,
{
    if l < wdt {
        lemma_lane_within_seg_neg(g, wdt, l, c);
        lemma_fold_mono_neg(g, wdt, c, l + 1);
    }
}

/// Stepping every lane back one chunk peels one whole row off the fold.
proof fn lemma_fold_shift(g: spec_fn(int) -> int, wdt: int, c: int, l: int)
    requires
        c >= 1,
        0 <= l,
    ensures
        fold_lanes(g, wdt, c, l) == fold_lanes(g, wdt, c - 1, l) + row_sum(
            g,
            (c - 1) * wdt,
            l,
        ),
    decreases l,
{
    if l > 0 {
        lemma_fold_shift(g, wdt, c, l - 1);
    }
}

/// All lanes folded together over all chunks give exactly the segment the
/// chunks cover: the lane decomposition is a reassociation of the plain
/// running sum.
proof fn lemma_fold_is_seg(g: spec_fn(int) -> int, wdt: int, c: int)
    requires
        wdt >= 1,
        0 <= c,
    ensures
        fold_lanes(g, wdt, c, wdt) == seg_sum(g, c * wdt),
    decreases c,
{
    if c == 0 {
        lemma_fold_zero(g, wdt, wdt);
        vstd::arithmetic::mul::lemma_mul_basics(wdt);
    } else {
        let base = (c - 1) * wdt;
        assert(base + wdt == c * wdt) by {
            vstd::arithmetic::mul::lemma_mul_is_distributive_sub_other_way(wdt, c, 1);
            vstd::arithmetic::mul::lemma_mul_basics(wdt);
        }
        lemma_fold_shift(g, wdt, c, wdt);
        lemma_fold_is_seg(g, wdt, c - 1);
        lemma_row_split(g, base, wdt);
    }
}

proof fn lemma_fold_zero(g: spec_fn(int) -> int, wdt: int, l: int)
    requires
        0 <= l,
    ensures
        fold_lanes(g, wdt, 0, l) == 0,
    decreases l,
{
    if l > 0 {
        lemma_fold_zero(g, wdt, l - 1);
    }
}

/// Everything any accumulator of either dot kernel can hold — a product,
/// a running prefix, a lane, or a partial fold of lanes over the first
/// `hi` entries — lies between the two dot bounds.
proof fn lemma_prefix_bounds<T: PrimNum>(v: Seq<T>, w: Seq<T>, hi: int)
    requires
        0 <= hi <= dot_len(v, w),
    ensures
        dot_neg_bound(v, w) <= seg_sum(neg_part(prod_fn(v, w)), hi) <= 0,
        0 <= seg_sum(pos_part(prod_fn(v, w)), hi) <= dot_pos_bound(v, w),
        dot_neg_bound(v, w) <= seg_sum(prod_fn(v, w), hi) <= dot_pos_bound(v, w),
{
    let g = prod_fn(v, w);
    let m = dot_len(v, w);
    lemma_seg_sum_mono_pos(pos_part(g), hi, m);
    lemma_seg_sum_mono_neg(neg_part(g), hi, m);
    lemma_seg_sum_mono_pos(pos_part(g), 0, hi);
    lemma_seg_sum_mono_neg(neg_part(g), 0, hi);
    lemma_seg_sum_le(neg_part(g), g, hi);
    lemma_seg_sum_le(g, pos_part(g), hi);
}

/// The naive dot product: one running accumulator over the common prefix.
pub fn dot_naive<T: PrimNum>(v: &Vec<T>, w: &Vec<T>) -> (r: T)
    requires
        T::pn_fits(dot_neg_bound(v@, w@)),
        T::pn_fits(dot_pos_bound(v@, w@)),
    ensures
        r.pn_view() == dot_spec(v@, w@),
{
    let m = if v.len() <= w.len() {
        v.len()
    } else {
        w.len()
    };
    let ghost g = prod_fn(v@, w@);
    let mut total = T::pn_zero();
    for q in 0..m
        invariant
            m == dot_len(v@, w@),
            m <= v@.len() && m <= w@.len(),
            T::pn_fits(dot_neg_bound(v@, w@)),
            T::pn_fits(dot_pos_bound(v@, w@)),
            g == prod_fn(v@, w@),
            total.pn_view() == seg_sum(g, q as int),
    {
        proof {
            lemma_prefix_bounds(v@, w@, q as int);
            lemma_prefix_bounds(v@, w@, q + 1);
            T::pn_lemma_fits_between(
                dot_neg_bound(v@, w@),
                dot_pos_bound(v@, w@),
                g(q as int),
            );
            T::pn_lemma_fits_between(
                dot_neg_bound(v@, w@),
                dot_pos_bound(v@, w@),
                seg_sum(g, q + 1),
            );
        }
        let p = v[q].pn_times(w[q]);
        total = total.pn_plus(p);
    }
    total
}

/// The lane-chunked dot product: `N` accumulators are fed one chunk of
/// products at a time, folded together after the last full chunk, and
/// the remainder entries are swept up with a plain loop.  Exactly the
/// naive dot product, for every lane count.
pub fn dot_chunked<const N: usize, T: PrimNum>(v: &Vec<T>, w: &Vec<T>) -> (r: T)
    requires
        N >= 1,
        T::pn_fits(dot_neg_bound(v@, w@)),
        T::pn_fits(dot_pos_bound(v@, w@)),
    ensures
        r.pn_view() == dot_spec(v@, w@),
{
    let m = if v.len() <= w.len() {
        v.len()
    } else {
        w.len()
    };
    let ghost g = prod_fn(v@, w@);
    let chunks = m / N;
    proof {
        vstd::arithmetic::div_mod::lemma_fundamental_div_mod(m as int, N as int);
        vstd::arithmetic::div_mod::lemma_mod_bound(m as int, N as int);
        vstd::arithmetic::mul::lemma_mul_is_commutative(N as int, chunks as int);
    }
    assert(chunks * N <= m);
    let mut acc: Vec<T> = Vec::new();
    for l in 0..N
        invariant
            acc@.len() == l,
            forall|l2: int| 0 <= l2 < l ==> (#[trigger] acc@[l2]).pn_view() == 0,
    {
        acc.push(T::pn_zero());
    }
    for c in 0..chunks
        invariant
            N >= 1,
            m == dot_len(v@, w@),
            m <= v@.len() && m <= w@.len(),
            chunks * N <= m,
            chunks == m as int / N as int,
            T::pn_fits(dot_neg_bound(v@, w@)),
            T::pn_fits(dot_pos_bound(v@, w@)),
            g == prod_fn(v@, w@),
            acc@.len() == N,
            forall|l2: int|
                0 <= l2 < N ==> (#[trigger] acc@[l2]).pn_view() == lane_sum(
                    g,
                    N as int,
                    l2,
                    c as int,
                ),
    {
        proof {
            vstd::arithmetic::mul::lemma_mul_inequality(c + 1, chunks as int, N as int);
            vstd::arithmetic::mul::lemma_mul_is_distributive_add_other_way(
                N as int,
                c as int,
                1,
            );
            vstd::arithmetic::mul::lemma_mul_basics(N as int);
            vstd::arithmetic::mul::lemma_mul_nonnegative(c as int, N as int);
        }
        assert(c * N + N <= m);
        assert((c + 1) * (N as int) == c * N + N);
        for l in 0..N
            invariant
                N >= 1,
                m == dot_len(v@, w@),
                m <= v@.len() && m <= w@.len(),
                c * N + N <= m,
                (c + 1) * (N as int) == c * N + N,
                T::pn_fits(dot_neg_bound(v@, w@)),
                T::pn_fits(dot_pos_bound(v@, w@)),
                g == prod_fn(v@, w@),
                acc@.len() == N,
                forall|l2: int|
                    0 <= l2 < l ==> (#[trigger] acc@[l2]).pn_view() == lane_sum(
                        g,
                        N as int,
                        l2,
                        c + 1,
                    ),
                forall|l2: int|
                    l <= l2 < N ==> (#[trigger] acc@[l2]).pn_view() == lane_sum(
                        g,
                        N as int,
                        l2,
                        c as int,
                    ),
        {
            let q = c * N + l;
            proof {
                lemma_prefix_bounds(v@, w@, q as int);
                lemma_prefix_bounds(v@, w@, q + 1);
                T::pn_lemma_fits_between(
                    dot_neg_bound(v@, w@),
                    dot_pos_bound(v@, w@),
                    g(q as int),
                );
                lemma_lane_le(neg_part(g), g, N as int, l as int, c + 1);
                lemma_lane_le(g, pos_part(g), N as int, l as int, c + 1);
                lemma_lane_within_seg_pos(pos_part(g), N as int, l as int, c + 1);
                lemma_lane_within_seg_neg(neg_part(g), N as int, l as int, c + 1);
                lemma_prefix_bounds(v@, w@, (c + 1) * (N as int));
                T::pn_lemma_fits_between(
                    dot_neg_bound(v@, w@),
                    dot_pos_bound(v@, w@),
                    lane_sum(g, N as int, l as int, c + 1),
                );
            }
            let p = v[q].pn_times(w[q]);
            let a = acc[l];
            acc.set(l, a.pn_plus(p));
        }
    }
    let mut total = T::pn_zero();
    for l in 0..N
        invariant
            N >= 1,
            m == dot_len(v@, w@),
            chunks * N <= m,
            0 <= chunks,
            T::pn_fits(dot_neg_bound(v@, w@)),
            T::pn_fits(dot_pos_bound(v@, w@)),
            g == prod_fn(v@, w@),
            acc@.len() == N,
            forall|l2: int|
                0 <= l2 < N ==> (#[trigger] acc@[l2]).pn_view() == lane_sum(
                    g,
                    N as int,
                    l2,
                    chunks as int,
                ),
            total.pn_view() == fold_lanes(g, N as int, chunks as int, l as int),
    {
        proof {
            lemma_fold_le(neg_part(g), g, N as int, chunks as int, l + 1);
            lemma_fold_le(g, pos_part(g), N as int, chunks as int, l + 1);
            lemma_fold_within_seg_pos(pos_part(g), N as int, chunks as int, l + 1);
            lemma_fold_within_seg_neg(neg_part(g), N as int, chunks as int, l + 1);
            lemma_prefix_bounds(v@, w@, chunks as int * N as int);
            T::pn_lemma_fits_between(
                dot_neg_bound(v@, w@),
                dot_pos_bound(v@, w@),
                fold_lanes(g, N as int, chunks as int, l + 1),
            );
        }
        total = total.pn_plus(acc[l]);
    }
    proof {
        lemma_fold_is_seg(g, N as int, chunks as int);
    }
    let start = chunks * N;
    for q in start..m
        invariant
            m == dot_len(v@, w@),
            m <= v@.len() && m <= w@.len(),
            T::pn_fits(dot_neg_bound(v@, w@)),
            T::pn_fits(dot_pos_bound(v@, w@)),
            g == prod_fn(v@, w@),
            total.pn_view() == seg_sum(g, q as int),
    {
        proof {
            lemma_prefix_bounds(v@, w@, q as int);
            lemma_prefix_bounds(v@, w@, q + 1);
            T::pn_lemma_fits_between(
                dot_neg_bound(v@, w@),
                dot_pos_bound(v@, w@),
                g(q as int),
            );
            T::pn_lemma_fits_between(
                dot_neg_bound(v@, w@),
                dot_pos_bound(v@, w@),
                seg_sum(g, q + 1),
            );
        }
        let p = v[q].pn_times(w[q]);
        total = total.pn_plus(p);
    }
    total
}

} // verus!
