//! Transposition of a 64×16 byte matrix.
//!
//! The wider sibling of [`crate::transpose_u8::transpose_64x8_u8`]: the
//! same element-wise contract, for the 16-column shape the vectorised
//! network handles with one more interleave stage.

use vstd::prelude::*;

use crate::transpose_u8::naive;

verus! {

/// How many rows the input matrix has.
pub const ROWS: usize = 64;

/// How many columns the input matrix has.
pub const COLS: usize = 16;

/// Transposes the 64×16 byte matrix `a` into the 16×64 buffer `b`.
pub fn trans(a: &Vec<Vec<u8>>, b: &mut Vec<Vec<u8>>)
    requires
        naive::is_matrix(a@, ROWS as int, COLS as int),
        naive::is_matrix(old(b)@, COLS as int, ROWS as int),
    ensures
        naive::is_matrix(final(b)@, COLS as int, ROWS as int),
        forall|i: int, j: int|
            0 <= i < ROWS && 0 <= j < COLS ==> #[trigger] final(b)@[j]@[i] == a@[i]@[j],
{
    naive::trans(a, b);
}

} // verus!
