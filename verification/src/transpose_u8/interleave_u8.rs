//! Granule interleaving of 64-byte vectors.
//!
//! The vectorised transposition routines are built from one reusable
//! shuffle: cut two 64-byte vectors into granules of a fixed size, and
//! deal the granules out alternately — first all pairs from the front
//! halves, then all pairs from the back halves.  The four public entry
//! points are the granule sizes the transposition networks use; on the
//! target they are single register shuffles, and their whole observable
//! behaviour is the byte permutation proved here.

use vstd::prelude::*;

verus! {

/// How many bytes each of the interleaved vectors holds.
pub const VEC_BYTES: usize = 64;

/// The byte at position `p` of the first interleaved output: granules of
/// `g` bytes are taken alternately from the front halves of `a` and `b`.
pub open spec fn inter_lo(a: Seq<u8>, b: Seq<u8>, g: int, p: int) -> u8 {
    let t = p / g;
    let o = p % g;
    if t % 2 == 0 {
        a[(t / 2) * g + o]
    } else {
        b[(t / 2) * g + o]
    }
}

/// The byte at position `p` of the second interleaved output: the same
/// dealing, over the back halves of `a` and `b`.
pub open spec fn inter_hi(a: Seq<u8>, b: Seq<u8>, g: int, p: int) -> u8 {
    let t = p / g;
    let o = p % g;
    let half = (VEC_BYTES / 2) as int / g;
    if t % 2 == 0 {
        a[(t / 2 + half) * g + o]
    } else {
        b[(t / 2 + half) * g + o]
    }
}

/// Interleaves `a` and `b` granule-wise: the outputs hold the granule
/// pairs `(a₀ b₀ a₁ b₁ …)` of the front halves and of the back halves.
fn interleave_granules(a: &Vec<u8>, b: &Vec<u8>, gsize: usize) -> (r: (Vec<u8>, Vec<u8>))
    requires
        a@.len() == VEC_BYTES,
        b@.len() == VEC_BYTES,
        gsize == 4 || gsize == 8 || gsize == 16 || gsize == 32,
    ensures
        r.0@.len() == VEC_BYTES,
        r.1@.len() == VEC_BYTES,
        forall|p: int|
            0 <= p < VEC_BYTES ==> #[trigger] r.0@[p] == inter_lo(a@, b@, gsize as int, p),
        forall|p: int|
            0 <= p < VEC_BYTES ==> #[trigger] r.1@[p] == inter_hi(a@, b@, gsize as int, p),
{
    let granules = VEC_BYTES / gsize;
    let half = granules / 2;
    assert(granules * gsize == VEC_BYTES && half * gsize == VEC_BYTES / 2 && granules == 2
        * half);
    let mut lo: Vec<u8> = Vec::new();
    let mut hi: Vec<u8> = Vec::new();
    for t in 0..granules
        invariant
            a@.len() == VEC_BYTES,
            b@.len() == VEC_BYTES,
            gsize == 4 || gsize == 8 || gsize == 16 || gsize == 32,
            granules == VEC_BYTES / gsize,
            half == granules / 2,
            granules * gsize == VEC_BYTES,
            half * gsize == (VEC_BYTES / 2),
            lo@.len() == t * gsize,
            hi@.len() == t * gsize,
            forall|p: int|
                0 <= p < lo@.len() ==> #[trigger] lo@[p] == inter_lo(a@, b@, gsize as int, p),
            forall|p: int|
                0 <= p < hi@.len() ==> #[trigger] hi@[p] == inter_hi(a@, b@, gsize as int, p),
    {
        let src = (t / 2) * gsize;
        proof {
            vstd::arithmetic::mul::lemma_mul_inequality(
                t as int / 2,
                half as int - 1,
                gsize as int,
            );
            vstd::arithmetic::mul::lemma_mul_is_distributive_sub_other_way(
                gsize as int,
                half as int,
                1,
            );
            vstd::arithmetic::mul::lemma_mul_basics(gsize as int);
            vstd::arithmetic::mul::lemma_mul_nonnegative(t as int / 2, gsize as int);
        }
        assert(src + gsize <= VEC_BYTES / 2);
        for o in 0..gsize
            invariant
                a@.len() == VEC_BYTES,
                b@.len() == VEC_BYTES,
                gsize == 4 || gsize == 8 || gsize == 16 || gsize == 32,
                granules == VEC_BYTES / gsize,
                half == granules / 2,
                t < granules,
                granules * gsize == VEC_BYTES,
                half * gsize == (VEC_BYTES / 2),
                granules == 2 * half,
                src == (t / 2) * gsize,
                src + gsize <= (VEC_BYTES / 2),
                lo@.len() == t * gsize + o,
                hi@.len() == t * gsize + o,
                forall|p: int|
                    0 <= p < lo@.len() ==> #[trigger] lo@[p] == inter_lo(
                        a@,
                        b@,
                        gsize as int,
                        p,
                    ),
                forall|p: int|
                    0 <= p < hi@.len() ==> #[trigger] hi@[p] == inter_hi(
                        a@,
                        b@,
                        gsize as int,
                        p,
                    ),
        {
            proof {
                let g = gsize as int;
                let p = t as int * g + o;
                vstd::arithmetic::div_mod::lemma_fundamental_div_mod_converse(
                    p,
                    g,
                    t as int,
                    o as int,
                );
            }
            let x = if t % 2 == 0 {
                a[src + o]
            } else {
                b[src + o]
            };
            lo.push(x);
            proof {
                vstd::arithmetic::mul::lemma_mul_is_distributive_add_other_way(
                    gsize as int,
                    t as int / 2,
                    half as int,
                );
            }
            let y = if t % 2 == 0 {
                a[VEC_BYTES / 2 + src + o]
            } else {
                b[VEC_BYTES / 2 + src + o]
            };
            hi.push(y);
        }
    }
    (lo, hi)
}

/// Interleaves 4-byte granules: the 32-bit-lane interleave of the
/// transposition network.
pub fn int4(a: &Vec<u8>, b: &Vec<u8>) -> (r: (Vec<u8>, Vec<u8>))
    requires
        a@.len() == VEC_BYTES,
        b@.len() == VEC_BYTES,
    ensures
        r.0@.len() == VEC_BYTES,
        r.1@.len() == VEC_BYTES,
        forall|p: int| 0 <= p < VEC_BYTES ==> #[trigger] r.0@[p] == inter_lo(a@, b@, 4, p),
        forall|p: int| 0 <= p < VEC_BYTES ==> #[trigger] r.1@[p] == inter_hi(a@, b@, 4, p),
{
    interleave_granules(a, b, 4)
}

/// Interleaves 8-byte granules: the 64-bit-lane interleave.
pub fn int8(a: &Vec<u8>, b: &Vec<u8>) -> (r: (Vec<u8>, Vec<u8>))
    requires
        a@.len() == VEC_BYTES,
        b@.len() == VEC_BYTES,
    ensures
        r.0@.len() == VEC_BYTES,
        r.1@.len() == VEC_BYTES,
        forall|p: int| 0 <= p < VEC_BYTES ==> #[trigger] r.0@[p] == inter_lo(a@, b@, 8, p),
        forall|p: int| 0 <= p < VEC_BYTES ==> #[trigger] r.1@[p] == inter_hi(a@, b@, 8, p),
{
    interleave_granules(a, b, 8)
}

/// Interleaves 16-byte granules: the paired 64-bit-lane shuffle.
pub fn int16(a: &Vec<u8>, b: &Vec<u8>) -> (r: (Vec<u8>, Vec<u8>))
    requires
        a@.len() == VEC_BYTES,
        b@.len() == VEC_BYTES,
    ensures
        r.0@.len() == VEC_BYTES,
        r.1@.len() == VEC_BYTES,
        forall|p: int| 0 <= p < VEC_BYTES ==> #[trigger] r.0@[p] == inter_lo(a@, b@, 16, p),
        forall|p: int| 0 <= p < VEC_BYTES ==> #[trigger] r.1@[p] == inter_hi(a@, b@, 16, p),
{
    interleave_granules(a, b, 16)
}

/// Interleaves 32-byte granules: swaps the vectors' half-registers.
pub fn int32(a: &Vec<u8>, b: &Vec<u8>) -> (r: (Vec<u8>, Vec<u8>))
    requires
        a@.len() == VEC_BYTES,
        b@.len() == VEC_BYTES,
    ensures
        r.0@.len() == VEC_BYTES,
        r.1@.len() == VEC_BYTES,
        forall|p: int| 0 <= p < VEC_BYTES ==> #[trigger] r.0@[p] == inter_lo(a@, b@, 32, p),
        forall|p: int| 0 <= p < VEC_BYTES ==> #[trigger] r.1@[p] == inter_hi(a@, b@, 32, p),
{
    interleave_granules(a, b, 32)
}

} // verus!
