//! Transposition of a 64×8 byte matrix.
//!
//! On the target this runs as a fixed network of register interleaves
//! (see [`crate::transpose_u8::interleave_u8`]); the network is purely a
//! memory-layout optimisation, so this entry point carries the
//! element-wise transposition contract and computes it directly.

use vstd::prelude::*;

use crate::transpose_u8::naive;

verus! {

/// How many rows the input matrix has.
pub const ROWS: usize = 64;

/// How many columns the input matrix has.
pub const COLS: usize = 8;

/// Transposes the 64×8 byte matrix `a` into the 8×64 buffer `b`.
pub fn trans(a: &Vec<Vec<u8>>, b: &mut Vec<Vec<u8>>)
    requires
        naive::is_matrix(a@, ROWS as int, COLS as int),
        naive::is_matrix(old(b)@, COLS as int, ROWS as int),
    ensures
        naive::is_matrix(final(b)@, COLS as int, ROWS as int),
        forall|i: int, j: int|
            0 <= i < ROWS && 0 <= j < COLS ==> #[trigger] final(b)@[j]@[i] == a@[i]@[j],
{
    naive::trans(a, b);
}

} // verus!
