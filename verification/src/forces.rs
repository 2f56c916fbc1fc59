//! Scatter-add force accumulation.
//!
//! The gradient kernels evaluate one scalar contribution per unordered
//! pair and add it with opposite signs to the two interacting particles:
//! `+t` to the later particle, `-t` to the earlier one.  Newton's third
//! law therefore holds by construction, not by cancellation of separately
//! computed values, and the per-particle accumulators always sum to
//! exactly zero.  This module verifies that accumulation pass over one
//! force coordinate: the output buffer is fully overwritten, each entry
//! is pinned to the signed sum of its pair contributions, and the entries
//! add up to zero.

use vstd::prelude::*;

verus! {

/// The net contribution of the evaluated pair terms `s` to particle `k`:
/// `+t` for every term `((i, j), t)` with `i == k`, `-t` for every term
/// with `j == k`.
pub open spec fn force_on(s: Seq<((usize, usize), i64)>, k: int) -> int
    decreases s.len(),
{
    if s.len() == 0 {
        0
    } else {
        force_on(s.drop_last(), k) + (if s.last().0.0 == k {
            s.last().1 as int
        } else {
            0
        }) + (if s.last().0.1 == k {
            -(s.last().1 as int)
        } else {
            0
        })
    }
}

/// The sum of the term magnitudes themselves (the energy-style
/// accumulator that rides along with a force pass).
pub open spec fn term_sum(s: Seq<((usize, usize), i64)>) -> int
    decreases s.len(),
{
    if s.len() == 0 {
        0
    } else {
        term_sum(s.drop_last()) + s.last().1 as int
    }
}

/// The sum of the absolute values of the term magnitudes: a bound on
/// every partial accumulator the scatter pass can form.
pub open spec fn total_abs(s: Seq<((usize, usize), i64)>) -> int
    decreases s.len(),
{
    if s.len() == 0 {
        0
    } else {
        total_abs(s.drop_last()) + vstd::math::abs(s.last().1 as int)
    }
}

/// The sum of an accumulator vector.
pub open spec fn seq_total(g: Seq<i64>) -> int
    decreases g.len(),
{
    if g.len() == 0 {
        0
    } else {
        seq_total(g.drop_last()) + g.last() as int
    }
}

/// The net force summed over the particles `[0, n)`.
pub open spec fn net_force(s: Seq<((usize, usize), i64)>, n: int) -> int
    decreases n,
{
    if n <= 0 {
        0
    } else {
        net_force(s, n - 1) + force_on(s, n - 1)
    }
}

/// Every per-particle accumulator is bounded by the total magnitude of
/// the terms.
proof fn lemma_force_abs_bound(s: Seq<((usize, usize), i64)>, k: int)
    ensures
        -total_abs(s) <= force_on(s, k) <= total_abs(s),
    decreases s.len(),
{
    if s.len() > 0 {
        lemma_force_abs_bound(s.drop_last(), k);
    }
}

/// So is the running term sum.
proof fn lemma_term_sum_abs_bound(s: Seq<((usize, usize), i64)>)
    ensures
        -total_abs(s) <= term_sum(s) <= total_abs(s),
    decreases s.len(),
{
    if s.len() > 0 {
        lemma_term_sum_abs_bound(s.drop_last());
    }
}

/// A prefix of the terms has at most the total magnitude of all of them.
proof fn lemma_total_abs_take(s: Seq<((usize, usize), i64)>, m: int)
    requires
        0 <= m <= s.len(),
    ensures
        total_abs(s.take(m)) <= total_abs(s),
    decreases s.len() - m,
{
    if m == s.len() {
        assert(s.take(m) =~= s);
    } else {
        assert(s.take(m + 1).drop_last() =~= s.take(m));
        lemma_total_abs_take(s, m + 1);
    }
}

/// Removing the last term removes exactly its two signed contributions
/// from the net force over `[0, n)`.
proof fn lemma_net_force_peel(s: Seq<((usize, usize), i64)>, n: int)
    requires
        s.len() > 0,
    ensures
        net_force(s, n) == net_force(s.drop_last(), n) + (if s.last().0.0 < n {
            s.last().1 as int
        } else {
            0
        }) + (if s.last().0.1 < n {
            -(s.last().1 as int)
        } else {
            0
        }),
    decreases n,
{
    if n > 0 {
        lemma_net_force_peel(s, n - 1);
    }
}

/// Newton's third law at the system level: as long as every term touches
/// only particles below `n`, the net force over `[0, n)` is exactly zero
/// — the two signed contributions of each pair cancel.
pub proof fn theorem_net_force_zero(s: Seq<((usize, usize), i64)>, n: int)
    requires
        forall|m: int|
            0 <= m < s.len() ==> (#[trigger] s[m]).0.0 < n && s[m].0.1 < n,
    ensures
        net_force(s, n) == 0,
    decreases s.len(),
{
    if s.len() > 0 {
        lemma_net_force_peel(s, n);
        assert(forall|m: int|
            0 <= m < s.drop_last().len() ==> (#[trigger] s.drop_last()[m]) == s[m]);
        theorem_net_force_zero(s.drop_last(), n);
    } else {
        lemma_net_force_empty(s, n);
    }
}

/// With no terms there is no force on anybody.
proof fn lemma_net_force_empty(s: Seq<((usize, usize), i64)>, n: int)
    requires
        s.len() == 0,
    ensures
        net_force(s, n) == 0,
    decreases n,
{
    if n > 0 {
        lemma_net_force_empty(s, n - 1);
    }
}

/// A buffer that matches the per-particle forces pointwise sums to the
/// net force, hence to zero.
pub proof fn theorem_force_buffer_sums_to_zero(
    s: Seq<((usize, usize), i64)>,
    g: Seq<i64>,
)
    requires
        forall|k: int| 0 <= k < g.len() ==> g[k] as int == force_on(s, k),
        forall|m: int|
            0 <= m < s.len() ==> (#[trigger] s[m]).0.0 < g.len() && s[m].0.1 < g.len(),
    ensures
        seq_total(g) == 0,
{
    lemma_buffer_total_is_net(s, g);
    theorem_net_force_zero(s, g.len() as int);
}

proof fn lemma_buffer_total_is_net(s: Seq<((usize, usize), i64)>, g: Seq<i64>)
    requires
        forall|k: int| 0 <= k < g.len() ==> g[k] as int == force_on(s, k),
    ensures
        seq_total(g) == net_force(s, g.len() as int),
    decreases g.len(),
{
    if g.len() > 0 {
        assert(forall|k: int|
            0 <= k < g.drop_last().len() ==> (#[trigger] g.drop_last()[k]) == g[k]);
        lemma_buffer_total_is_net(s, g.drop_last());
    }
}

/// The force pass overwrites its buffer: the result is a function of the
/// terms alone, so two runs over the same terms — with or without stale
/// data in the reused buffer — leave identical contents.
pub proof fn theorem_scatter_overwrites(
    s: Seq<((usize, usize), i64)>,
    n: int,
    g1: Seq<i64>,
    g2: Seq<i64>,
)
    requires
        g1.len() == n,
        g2.len() == n,
        forall|k: int| 0 <= k < n ==> g1[k] as int == force_on(s, k),
        forall|k: int| 0 <= k < n ==> g2[k] as int == force_on(s, k),
    ensures
        g1 == g2,
{
    assert(g1 =~= g2);
}

/// Scatter-adds the evaluated pair terms into the per-particle force
/// buffer `g`: the buffer is re-zeroed first (never accumulated onto
/// stale data), then every term `((i, j), t)` adds `t` to `g[i]` and `-t`
/// to `g[j]`.  Returns the plain sum of the terms.
pub fn scatter_pair_forces(
    n: usize,
    terms: &Vec<((usize, usize), i64)>,
    g: &mut Vec<i64>,
) -> (e: i64)
    requires
        old(g)@.len() == n,
        forall|m: int|
            0 <= m < terms@.len() ==> (#[trigger] terms@[m]).0.1 < terms@[m].0.0 < n,
        total_abs(terms@) <= i64::MAX,
    ensures
        final(g)@.len() == n,
        forall|k: int| 0 <= k < n ==> final(g)@[k] as int == force_on(terms@, k),
        e as int == term_sum(terms@),
{
    for k in 0..n
        invariant
            g@.len() == n,
            forall|k2: int| 0 <= k2 < k ==> g@[k2] == 0i64,
    {
        g.set(k, 0);
    }
    let mut e: i64 = 0;
    let len = terms.len();
    assert(terms@.take(0) =~= Seq::empty());
    for m in 0..len
        invariant
            len == terms@.len(),
            g@.len() == n,
            forall|m2: int|
                0 <= m2 < terms@.len() ==> (#[trigger] terms@[m2]).0.1 < terms@[m2].0.0 < n,
            total_abs(terms@) <= i64::MAX,
            forall|k: int| 0 <= k < n ==> g@[k] as int == force_on(terms@.take(m as int), k),
            e as int == term_sum(terms@.take(m as int)),
    {
        let pair = terms[m];
        let i = pair.0.0;
        let j = pair.0.1;
        let t = pair.1;
        proof {
            assert(terms@.take(m + 1).drop_last() =~= terms@.take(m as int));
            assert(terms@.take(m + 1).last() == terms@[m as int]);
            lemma_total_abs_take(terms@, m + 1);
            lemma_force_abs_bound(terms@.take(m as int), i as int);
            lemma_force_abs_bound(terms@.take(m as int), j as int);
            lemma_term_sum_abs_bound(terms@.take(m as int));
        }
        let gi = g[i];
        g.set(i, gi + t);
        let gj = g[j];
        g.set(j, gj - t);
        e = e + t;
    }
    proof {
        assert(terms@.take(len as int) =~= terms@);
    }
    e
}

/// Splitting the terms splits every per-particle force: the contributions
/// of two disjoint shards of work simply add.
pub proof fn lemma_force_on_append(
    s1: Seq<((usize, usize), i64)>,
    s2: Seq<((usize, usize), i64)>,
    k: int,
)
    ensures
        force_on(s1 + s2, k) == force_on(s1, k) + force_on(s2, k),
    decreases s2.len(),
{
    if s2.len() == 0 {
        assert(s1 + s2 =~= s1);
    } else {
        assert((s1 + s2).drop_last() =~= s1 + s2.drop_last());
        lemma_force_on_append(s1, s2.drop_last(), k);
    }
}

/// The merge step of the parallel reduction: one worker's private force
/// buffer is added element-wise into the global one.
pub fn merge_force_buffers(g: &mut Vec<i64>, part: &Vec<i64>)
    requires
        old(g)@.len() == part@.len(),
        forall|k: int|
            0 <= k < part@.len() ==> i64::MIN <= #[trigger] (old(g)@[k] + part@[k])
                <= i64::MAX,
    ensures
        final(g)@.len() == old(g)@.len(),
        forall|k: int|
            0 <= k < part@.len() ==> final(g)@[k] == #[trigger] (old(g)@[k] + part@[k]),
{
    let n = g.len();
    for k in 0..n
        invariant
            g@.len() == n,
            old(g)@.len() == n,
            part@.len() == n,
            forall|k2: int|
                0 <= k2 < n ==> i64::MIN <= #[trigger] (old(g)@[k2] + part@[k2]) <= i64::MAX,
            forall|k2: int| k <= k2 < n ==> g@[k2] == old(g)@[k2],
            forall|k2: int| 0 <= k2 < k ==> g@[k2] == old(g)@[k2] + part@[k2],
    {
        let sum = g[k] + part[k];
        g.set(k, sum);
    }
}

/// Merging per-worker buffers reproduces the serial force pass: if two
/// buffers hold the forces of two shards of the terms, their element-wise
/// sum holds the forces of all the terms together.
pub proof fn theorem_merge_matches_concat(
    s1: Seq<((usize, usize), i64)>,
    s2: Seq<((usize, usize), i64)>,
    g1: Seq<i64>,
    g2: Seq<i64>,
    merged: Seq<i64>,
)
    requires
        g1.len() == g2.len() == merged.len(),
        forall|k: int| 0 <= k < g1.len() ==> g1[k] as int == force_on(s1, k),
        forall|k: int| 0 <= k < g2.len() ==> g2[k] as int == force_on(s2, k),
        forall|k: int| 0 <= k < merged.len() ==> merged[k] == g1[k] + g2[k],
    ensures
        forall|k: int| 0 <= k < merged.len() ==> merged[k] as int == force_on(s1 + s2, k),
{
    assert forall|k: int| 0 <= k < merged.len() implies merged[k] as int == force_on(
        s1 + s2,
        k,
    ) by {
        lemma_force_on_append(s1, s2, k);
    }
}

} // verus!
