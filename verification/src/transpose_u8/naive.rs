//! Byte-matrix transposition, element by element.
//!
//! The vectorised transposition routines are interleaving networks whose
//! observable behaviour is exactly this function; the element-wise
//! contract here is the reference they are held to.

use vstd::prelude::*;

verus! {

/// Whether `m` is a `rows × cols` matrix: `rows` rows of `cols` bytes each.
pub open spec fn is_matrix(m: Seq<Vec<u8>>, rows: int, cols: int) -> bool {
    m.len() == rows && forall|i: int| 0 <= i < rows ==> (#[trigger] m[i])@.len() == cols
}

/// Transposes the `N × M` byte matrix `a` into the `M × N` buffer `b`:
/// every row of `b` is rebuilt, and afterwards `b[j][i] == a[i][j]`.
pub fn trans(a: &Vec<Vec<u8>>, b: &mut Vec<Vec<u8>>)
    requires
        is_matrix(a@, a@.len() as int, old(b)@.len() as int),
        is_matrix(old(b)@, old(b)@.len() as int, a@.len() as int),
    ensures
        is_matrix(final(b)@, old(b)@.len() as int, a@.len() as int),
        forall|i: int, j: int|
            0 <= i < a@.len() && 0 <= j < old(b)@.len() ==> #[trigger] final(b)@[j]@[i]
                == a@[i]@[j],
{
    let rows = a.len();
    let cols = b.len();
    for j in 0..cols
        invariant
            rows == a@.len(),
            cols == b@.len(),
            is_matrix(a@, rows as int, cols as int),
            is_matrix(b@, cols as int, rows as int),
            forall|i: int, j2: int|
                0 <= i < rows && 0 <= j2 < j ==> #[trigger] b@[j2]@[i] == a@[i]@[j2],
    {
        let mut row: Vec<u8> = Vec::new();
        for i in 0..rows
            invariant
                rows == a@.len(),
                cols == b@.len(),
                j < cols,
                is_matrix(a@, rows as int, cols as int),
                row@.len() == i,
                forall|i2: int| 0 <= i2 < i ==> row@[i2] == (#[trigger] a@[i2])@[j as int],
        {
            let x = a[i][j];
            row.push(x);
        }
        b.set(j, row);
    }
}

} // verus!
