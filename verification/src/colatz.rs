//! Halved Collatz iteration over a vector of counters.
//!
//! One step maps an even value `v` to `v / 2` and an odd value to
//! `(3 * v + 1) / 2`; since `3 * v + 1` is even whenever `v` is odd, every
//! division here is exact and no rounding direction has to be chosen.
//! Alongside the stepped values, a second vector keeps the running maximum
//! of each trajectory.

use vstd::prelude::*;

verus! {

/// The element type the Collatz kernel iterates on.
pub type T = i64;

/// How many elements a chunk of the chunked driver processes at a time.
pub const CHUNK_SIZE: usize = 1024;

/// A value counts as finished once it has fallen into the terminal loop,
/// whose largest member under the halved step is 4.
pub const DONE_BOUND: T = 4;

/// Whether one halved Collatz step on `v` stays within the range of `T`.
pub open spec fn step_fits(v: int) -> bool {
    if v % 2 == 0 {
        true
    } else {
        i64::MIN <= 3 * v && 3 * v + 1 <= i64::MAX
    }
}

/// One halved Collatz step: `v / 2` for even `v`, `(3 * v + 1) / 2` for odd `v`.
pub open spec fn colatz_step(v: int) -> int {
    if v % 2 == 0 {
        v / 2
    } else {
        (3 * v + 1) / 2
    }
}

/// The value reached from `v` after `k` halved Collatz steps.
pub open spec fn colatz_iter(v: int, k: nat) -> int
    decreases k,
{
    if k == 0 {
        v
    } else {
        colatz_step(colatz_iter(v, (k - 1) as nat))
    }
}

/// Whether every one of the first `k` steps from `v` stays within the range of `T`.
pub open spec fn iter_fits(v: int, k: nat) -> bool
    decreases k,
{
    if k == 0 {
        true
    } else {
        iter_fits(v, (k - 1) as nat) && step_fits(colatz_iter(v, (k - 1) as nat))
    }
}

/// The largest value seen when starting a running maximum at `m0` and folding
/// in the first `k` iterates of `v` (the starting value itself not included,
/// matching a driver that steps first and then updates the maximum).
pub open spec fn colatz_running_max(v: int, m0: int, k: nat) -> int
    decreases k,
{
    if k == 0 {
        m0
    } else {
        vstd::math::max(colatz_running_max(v, m0, (k - 1) as nat), colatz_iter(v, k))
    }
}

/// How many elements of `s` have finished, i.e. are at most `DONE_BOUND`.
pub open spec fn count_done(s: Seq<T>) -> nat
    decreases s.len(),
{
    if s.len() == 0 {
        0
    } else {
        count_done(s.drop_last()) + if s.last() <= DONE_BOUND {
            1nat
        } else {
            0nat
        }
    }
}

/// Applies one halved Collatz step to every element.
fn do_colatz(is: &mut Vec<T>)
    requires
        forall|k: int| 0 <= k < old(is)@.len() ==> step_fits(#[trigger] old(is)@[k] as int),
    ensures
        final(is)@.len() == old(is)@.len(),
        forall|k: int|
            0 <= k < old(is)@.len() ==> final(is)@[k] == colatz_step(
                #[trigger] old(is)@[k] as int,
            ),
{
    let n = is.len();
    for p in 0..n
        invariant
            old(is)@.len() == n,
            is@.len() == n,
            forall|k: int| p <= k < n ==> is@[k] == old(is)@[k],
            forall|k: int| 0 <= k < n ==> step_fits(#[trigger] old(is)@[k] as int),
            forall|k: int| 0 <= k < p ==> is@[k] == colatz_step(#[trigger] old(is)@[k] as int),
    {
        let v = is[p];
        let next = if v % 2 == 0 {
            v / 2
        } else {
            (3 * v + 1) / 2
        };
        is.set(p, next);
    }
}

/// Folds the current values into the running maxima, element by element.
/// Like the iterator zip it mirrors, it only touches the common prefix of
/// the two vectors.
fn update_max(is: &Vec<T>, maxs: &mut Vec<T>)
    ensures
        final(maxs)@.len() == old(maxs)@.len(),
        forall|k: int|
            0 <= k < vstd::math::min(is@.len() as int, old(maxs)@.len() as int)
                ==> final(maxs)@[k] == vstd::math::max(
                #[trigger] old(maxs)@[k] as int,
                is@[k] as int,
            ),
        forall|k: int|
            vstd::math::min(is@.len() as int, old(maxs)@.len() as int) <= k < old(maxs)@.len()
                ==> final(maxs)@[k] == old(maxs)@[k],
{
    let n = if is.len() <= maxs.len() {
        is.len()
    } else {
        maxs.len()
    };
    for p in 0..n
        invariant
            old(maxs)@.len() == maxs@.len(),
            n == vstd::math::min(is@.len() as int, old(maxs)@.len() as int),
            forall|k: int| p <= k < maxs@.len() ==> maxs@[k] == old(maxs)@[k],
            forall|k: int|
                0 <= k < p ==> maxs@[k] == vstd::math::max(
                    #[trigger] old(maxs)@[k] as int,
                    is@[k] as int,
                ),
    {
        let v = is[p];
        if v > maxs[p] {
            maxs.set(p, v);
        }
    }
}

/// Counts the elements that have reached the terminal loop.
pub fn get_amt_done(is: &Vec<T>) -> (r: usize)
    ensures
        r == count_done(is@),
{
    let n = is.len();
    let mut cnt: usize = 0;
    for p in 0..n
        invariant
            is@.len() == n,
            cnt == count_done(is@.take(p as int)),
            cnt <= p,
    {
        proof {
            assert(is@.take(p + 1).drop_last() =~= is@.take(p as int));
            assert(is@.take(p + 1).last() == is@[p as int]);
        }
        if is[p] <= DONE_BOUND {
            cnt = cnt + 1;
        }
    }
    proof {
        assert(is@.take(n as int) =~= is@);
    }
    cnt
}

/// Runs `n` halved Collatz steps on every element of `is`, keeping in
/// `maxs` the running maximum of each trajectory (over the common prefix
/// of the two vectors, like the element-wise zip it mirrors).
pub fn do_n_colatz(is: &mut Vec<T>, maxs: &mut Vec<T>, n: usize)
    requires
        forall|k: int| 0 <= k < old(is)@.len() ==> iter_fits(#[trigger] old(is)@[k] as int, n as nat),
    ensures
        final(is)@.len() == old(is)@.len(),
        final(maxs)@.len() == old(maxs)@.len(),
        forall|k: int|
            0 <= k < old(is)@.len() ==> final(is)@[k] == colatz_iter(
                #[trigger] old(is)@[k] as int,
                n as nat,
            ),
        forall|k: int|
            0 <= k < vstd::math::min(old(is)@.len() as int, old(maxs)@.len() as int)
                ==> final(maxs)@[k] == colatz_running_max(
                old(is)@[k] as int,
                #[trigger] old(maxs)@[k] as int,
                n as nat,
            ),
        forall|k: int|
            vstd::math::min(old(is)@.len() as int, old(maxs)@.len() as int) <= k
                < old(maxs)@.len() ==> final(maxs)@[k] == old(maxs)@[k],
{
    let len = is.len();
    let mlen = maxs.len();
    for t in 0..n
        invariant
            is@.len() == len,
            old(is)@.len() == len,
            maxs@.len() == mlen,
            old(maxs)@.len() == mlen,
            forall|k: int|
                0 <= k < len ==> iter_fits(#[trigger] old(is)@[k] as int, n as nat),
            forall|k: int|
                0 <= k < len ==> is@[k] == colatz_iter(#[trigger] old(is)@[k] as int, t as nat),
            forall|k: int|
                0 <= k < vstd::math::min(len as int, mlen as int) ==> maxs@[k]
                    == colatz_running_max(
                    old(is)@[k] as int,
                    #[trigger] old(maxs)@[k] as int,
                    t as nat,
                ),
            forall|k: int|
                vstd::math::min(len as int, mlen as int) <= k < mlen ==> maxs@[k] == old(
                    maxs,
                )@[k],
    {
        proof {
            assert forall|k: int| 0 <= k < len implies step_fits(
                #[trigger] is@[k] as int,
            ) by {
                lemma_iter_fits_prefix(old(is)@[k] as int, t as nat, n as nat);
            }
        }
        do_colatz(is);
        update_max(is, maxs);
    }
}

/// Applies one halved Collatz step to the elements in `[start, start + len)`.
fn do_colatz_span(is: &mut Vec<T>, start: usize, len: usize)
    requires
        start + len <= old(is)@.len(),
        forall|k: int| start <= k < start + len ==> step_fits(#[trigger] old(is)@[k] as int),
    ensures
        final(is)@.len() == old(is)@.len(),
        forall|k: int|
            start <= k < start + len ==> final(is)@[k] == colatz_step(
                #[trigger] old(is)@[k] as int,
            ),
        forall|k: int|
            0 <= k < old(is)@.len() && !(start <= k < start + len) ==> final(is)@[k] == old(
                is,
            )@[k],
{
    let _total = is.len();
    let stop = start + len;
    for p in start..stop
        invariant
            stop == start + len <= old(is)@.len(),
            is@.len() == old(is)@.len(),
            forall|k: int| p <= k < stop ==> is@[k] == old(is)@[k],
            forall|k: int| start <= k < stop ==> step_fits(#[trigger] old(is)@[k] as int),
            forall|k: int|
                start <= k < p ==> is@[k] == colatz_step(#[trigger] old(is)@[k] as int),
            forall|k: int|
                0 <= k < old(is)@.len() && !(start <= k < stop) ==> is@[k] == old(is)@[k],
    {
        let v = is[p];
        let next = if v % 2 == 0 {
            v / 2
        } else {
            (3 * v + 1) / 2
        };
        is.set(p, next);
    }
}

/// Folds the current values into the running maxima over `[start, start + len)`.
fn update_max_span(is: &Vec<T>, maxs: &mut Vec<T>, start: usize, len: usize)
    requires
        start + len <= is@.len(),
        start + len <= old(maxs)@.len(),
    ensures
        final(maxs)@.len() == old(maxs)@.len(),
        forall|k: int|
            start <= k < start + len ==> final(maxs)@[k] == vstd::math::max(
                #[trigger] old(maxs)@[k] as int,
                is@[k] as int,
            ),
        forall|k: int|
            0 <= k < old(maxs)@.len() && !(start <= k < start + len) ==> final(maxs)@[k]
                == old(maxs)@[k],
{
    let _total = maxs.len();
    let stop = start + len;
    for p in start..stop
        invariant
            stop == start + len,
            stop <= is@.len(),
            stop <= old(maxs)@.len(),
            maxs@.len() == old(maxs)@.len(),
            forall|k: int| p <= k < stop ==> maxs@[k] == old(maxs)@[k],
            forall|k: int|
                start <= k < p ==> maxs@[k] == vstd::math::max(
                    #[trigger] old(maxs)@[k] as int,
                    is@[k] as int,
                ),
            forall|k: int|
                0 <= k < old(maxs)@.len() && !(start <= k < stop) ==> maxs@[k] == old(
                    maxs,
                )@[k],
    {
        let v = is[p];
        if v > maxs[p] {
            maxs.set(p, v);
        }
    }
}

/// Runs `n` halved Collatz steps with running maxima on the elements in
/// `[start, start + len)`, leaving everything outside that span untouched.
fn do_n_colatz_span(is: &mut Vec<T>, maxs: &mut Vec<T>, start: usize, len: usize, n: usize)
    requires
        start + len <= old(is)@.len(),
        start + len <= old(maxs)@.len(),
        forall|k: int|
            start <= k < start + len ==> iter_fits(#[trigger] old(is)@[k] as int, n as nat),
    ensures
        final(is)@.len() == old(is)@.len(),
        final(maxs)@.len() == old(maxs)@.len(),
        forall|k: int|
            start <= k < start + len ==> final(is)@[k] == colatz_iter(
                #[trigger] old(is)@[k] as int,
                n as nat,
            ),
        forall|k: int|
            start <= k < start + len ==> final(maxs)@[k] == colatz_running_max(
                old(is)@[k] as int,
                #[trigger] old(maxs)@[k] as int,
                n as nat,
            ),
        forall|k: int|
            0 <= k < old(is)@.len() && !(start <= k < start + len) ==> final(is)@[k] == old(
                is,
            )@[k],
        forall|k: int|
            0 <= k < old(maxs)@.len() && !(start <= k < start + len) ==> final(maxs)@[k]
                == old(maxs)@[k],
{
    let _total = is.len();
    let stop = start + len;
    for t in 0..n
        invariant
            stop == start + len,
            stop <= old(is)@.len(),
            stop <= old(maxs)@.len(),
            is@.len() == old(is)@.len(),
            maxs@.len() == old(maxs)@.len(),
            forall|k: int|
                start <= k < stop ==> iter_fits(#[trigger] old(is)@[k] as int, n as nat),
            forall|k: int|
                start <= k < stop ==> is@[k] == colatz_iter(
                    #[trigger] old(is)@[k] as int,
                    t as nat,
                ),
            forall|k: int|
                start <= k < stop ==> maxs@[k] == colatz_running_max(
                    old(is)@[k] as int,
                    #[trigger] old(maxs)@[k] as int,
                    t as nat,
                ),
            forall|k: int|
                0 <= k < old(is)@.len() && !(start <= k < stop) ==> is@[k] == old(is)@[k],
            forall|k: int|
                0 <= k < old(maxs)@.len() && !(start <= k < stop) ==> maxs@[k] == old(
                    maxs,
                )@[k],
    {
        proof {
            assert forall|k: int| start <= k < stop implies step_fits(
                #[trigger] is@[k] as int,
            ) by {
                lemma_iter_fits_prefix(old(is)@[k] as int, t as nat, n as nat);
            }
        }
        do_colatz_span(is, start, len);
        update_max_span(is, maxs, start, len);
    }
}

/// Runs the same computation as [`do_n_colatz`], but chunk by chunk: each
/// full chunk of `CHUNK_SIZE` elements goes through all `n` iterations
/// before the next chunk starts, and the remainder is handled last.  The
/// trajectories of distinct elements are independent, so the final state
/// is exactly that of [`do_n_colatz`].
pub fn do_n_colatz_chunked(is: &mut Vec<T>, maxs: &mut Vec<T>, n: usize)
    requires
        old(is)@.len() == old(maxs)@.len(),
        forall|k: int| 0 <= k < old(is)@.len() ==> iter_fits(#[trigger] old(is)@[k] as int, n as nat),
    ensures
        final(is)@.len() == old(is)@.len(),
        final(maxs)@.len() == old(maxs)@.len(),
        forall|k: int|
            0 <= k < old(is)@.len() ==> final(is)@[k] == colatz_iter(
                #[trigger] old(is)@[k] as int,
                n as nat,
            ),
        forall|k: int|
            0 <= k < old(is)@.len() ==> final(maxs)@[k] == colatz_running_max(
                old(is)@[k] as int,
                #[trigger] old(maxs)@[k] as int,
                n as nat,
            ),
{
    let len = is.len();
    let full = len / CHUNK_SIZE;
    assert(full * CHUNK_SIZE <= len) by {
        assert(full == len as int / CHUNK_SIZE as int);
        vstd::arithmetic::div_mod::lemma_fundamental_div_mod(len as int, CHUNK_SIZE as int);
    }
    for c in 0..full
        invariant
            len == is@.len() == old(is)@.len() == maxs@.len() == old(maxs)@.len(),
            full == len / CHUNK_SIZE,
            full * CHUNK_SIZE <= len,
            c * CHUNK_SIZE <= full * CHUNK_SIZE,
            forall|k: int|
                0 <= k < len ==> iter_fits(#[trigger] old(is)@[k] as int, n as nat),
            forall|k: int|
                0 <= k < c * CHUNK_SIZE ==> is@[k] == colatz_iter(
                    #[trigger] old(is)@[k] as int,
                    n as nat,
                ),
            forall|k: int|
                0 <= k < c * CHUNK_SIZE ==> maxs@[k] == colatz_running_max(
                    old(is)@[k] as int,
                    #[trigger] old(maxs)@[k] as int,
                    n as nat,
                ),
            forall|k: int| c * CHUNK_SIZE <= k < len ==> is@[k] == old(is)@[k],
            forall|k: int| c * CHUNK_SIZE <= k < len ==> maxs@[k] == old(maxs)@[k],
    {
        assert((c + 1) * CHUNK_SIZE <= full * CHUNK_SIZE);
        do_n_colatz_span(is, maxs, c * CHUNK_SIZE, CHUNK_SIZE, n);
    }
    do_n_colatz_span(is, maxs, full * CHUNK_SIZE, len - full * CHUNK_SIZE, n);
}

/// A step that fits is still known to fit when fewer steps remain: the
/// fitting predicate for `n` steps covers each single step before `n`.
proof fn lemma_iter_fits_prefix(v: int, t: nat, n: nat)
    requires
        t < n,
        iter_fits(v, n),
    ensures
        step_fits(colatz_iter(v, t)),
        iter_fits(v, t),
    decreases n,
{
    if t + 1 < n {
        lemma_iter_fits_prefix(v, t, (n - 1) as nat);
    }
}

} // verus!
