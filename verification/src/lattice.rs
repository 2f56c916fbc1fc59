//! Cubic-lattice site generation.
//!
//! Test inputs for the pair kernels are particles on a cubic lattice with
//! side length `n`: the `n³` sites `(i, j, k)` in row-major nested order.
//! A caller turns site `(i, j, k)` into a position by scaling each
//! coordinate with the lattice spacing, so everything exact about the
//! lattice — which sites exist and in which order — is verified here, and
//! only the final scaling happens in floating point outside the library.

use vstd::prelude::*;

verus! {

/// The lattice site stored at position `p` of the row-major enumeration
/// for side length `n`.
pub open spec fn site_at(n: int, p: int) -> (usize, usize, usize) {
    (((p / (n * n)) as usize), (((p / n) % n) as usize), ((p % n) as usize))
}

/// Row-major encoding: site `(i, j, k)` sits at position `(i·n + j)·n + k`.
pub proof fn lemma_site_encode(n: int, i: int, j: int, k: int)
    requires
        0 <= i < n,
        0 <= j < n,
        0 <= k < n,
    ensures
        site_at(n, (i * n + j) * n + k) == (i as usize, j as usize, k as usize),
        0 <= (i * n + j) * n + k < n * n * n,
{
    let p = (i * n + j) * n + k;
    vstd::arithmetic::mul::lemma_mul_nonnegative(i, n);
    vstd::arithmetic::mul::lemma_mul_nonnegative(i * n + j, n);
    vstd::arithmetic::mul::lemma_mul_inequality(j, n - 1, n);
    vstd::arithmetic::mul::lemma_mul_is_distributive_sub_other_way(n, n, 1);
    vstd::arithmetic::mul::lemma_mul_basics(n);
    // p / n == i * n + j and p % n == k
    vstd::arithmetic::div_mod::lemma_fundamental_div_mod_converse(p, n, i * n + j, k);
    // (p / n) % n == j and (p / n) / n == i
    vstd::arithmetic::div_mod::lemma_fundamental_div_mod_converse(i * n + j, n, i, j);
    // p / (n * n) == i
    vstd::arithmetic::mul::lemma_mul_is_distributive_add_other_way(n, i * n, j);
    vstd::arithmetic::mul::lemma_mul_is_associative(i, n, n);
    vstd::arithmetic::div_mod::lemma_fundamental_div_mod_converse(p, n * n, i, j * n + k);
    // the position is within the n³ sites
    vstd::arithmetic::mul::lemma_mul_inequality(i, n - 1, n * n);
    vstd::arithmetic::mul::lemma_mul_is_distributive_sub_other_way(n * n, n, 1);
    vstd::arithmetic::mul::lemma_mul_is_associative(n, n, 1);
}

/// Enumerates the `n³` lattice sites `(i, j, k)` of a cube with side
/// length `n`, in row-major nested order: position `(i·n + j)·n + k`
/// holds site `(i, j, k)`.
pub fn cubic_lattice_sites(n: usize) -> (r: Vec<(usize, usize, usize)>)
    requires
        n * n * n <= usize::MAX,
    ensures
        r@.len() == n * n * n,
        forall|p: int| 0 <= p < n * n * n ==> #[trigger] r@[p] == site_at(n as int, p),
{
    let mut r: Vec<(usize, usize, usize)> = Vec::new();
    if n == 0 {
        return r;
    }
    proof {
        vstd::arithmetic::mul::lemma_mul_basics(n as int);
        vstd::arithmetic::mul::lemma_mul_basics(n as int * n as int);
        vstd::arithmetic::mul::lemma_mul_inequality(1, n as int, n as int);
        vstd::arithmetic::mul::lemma_mul_inequality(n as int, n as int * n as int, n as int);
    }
    for i in 0..n
        invariant
            n >= 1,
            n * n * n <= usize::MAX,
            n * n <= n * n * n,
            r@.len() == i * (n * n),
            r@.len() <= n * n * n,
            forall|p: int| 0 <= p < r@.len() ==> #[trigger] r@[p] == site_at(n as int, p),
    {
        proof {
            vstd::arithmetic::mul::lemma_mul_inequality(
                i + 1,
                n as int,
                n as int * n as int,
            );
            vstd::arithmetic::mul::lemma_mul_is_distributive_add_other_way(
                n as int * n as int,
                i as int,
                1,
            );
            vstd::arithmetic::mul::lemma_mul_basics(n as int * n as int);
            vstd::arithmetic::mul::lemma_mul_is_associative(n as int, n as int, n as int);
        }
        assert(i * (n * n) + n * n <= n * n * n);
        proof {
            vstd::arithmetic::mul::lemma_mul_basics(n as int);
            vstd::arithmetic::mul::lemma_mul_nonnegative(n as int - 1, n as int);
        }
        for j in 0..n
            invariant
                n >= 1,
                n * n * n <= usize::MAX,
                i < n,
                i * (n * n) + n * n <= n * n * n,
                r@.len() == i * (n * n) + j * n,
                r@.len() + (n - j) * n <= n * n * n,
                forall|p: int| 0 <= p < r@.len() ==> #[trigger] r@[p] == site_at(n as int, p),
        {
            proof {
                vstd::arithmetic::mul::lemma_mul_is_distributive_add_other_way(
                    n as int,
                    j as int,
                    1,
                );
                vstd::arithmetic::mul::lemma_mul_is_distributive_sub_other_way(
                    n as int,
                    n as int - j,
                    1,
                );
                vstd::arithmetic::mul::lemma_mul_basics(n as int);
                vstd::arithmetic::mul::lemma_mul_nonnegative(n as int - j - 1, n as int);
            }
            for k in 0..n
                invariant
                    n >= 1,
                    n * n * n <= usize::MAX,
                    i < n,
                    j < n,
                    r@.len() == i * (n * n) + j * n + k,
                    r@.len() + (n - k) <= n * n * n,
                    forall|p: int|
                        0 <= p < r@.len() ==> #[trigger] r@[p] == site_at(n as int, p),
            {
                proof {
                    lemma_site_encode(n as int, i as int, j as int, k as int);
                    vstd::arithmetic::mul::lemma_mul_is_distributive_add_other_way(
                        n as int,
                        i as int * n as int,
                        j as int,
                    );
                    vstd::arithmetic::mul::lemma_mul_is_associative(
                        i as int,
                        n as int,
                        n as int,
                    );
                }
                assert((i as int * n as int + j as int) * n as int + k as int == r@.len());
                r.push((i, j, k));
            }
        }
    }
    proof {
        vstd::arithmetic::mul::lemma_mul_is_associative(n as int, n as int, n as int);
    }
    r
}

} // verus!
