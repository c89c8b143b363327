//! A symmetric matrix kept as its lower triangle, row after row.

use vstd::prelude::*;

verus! {

/// Why a pair of coordinates has no place in the matrix.
#[derive(Debug, Clone, Copy, PartialEq, Eq, Structural)]
pub enum MatrixIndexError {
    /// A coordinate is not below the size of the matrix.
    OutOfBounds,
}

/// The number of places in the first `n` rows of a triangle: 1 + 2 + ... + n.
pub open spec fn triangle(n: nat) -> nat {
    n * (n + 1) / 2
}

/// The place of the element at `(x, y)`, which is also that of `(y, x)`: the rows
/// before the larger coordinate, then the smaller coordinate.
pub open spec fn place(x: nat, y: nat) -> nat {
    if x >= y {
        triangle(x) + y
    } else {
        triangle(y) + x
    }
}

/// The place of `(x, y)` in a symmetric matrix of `total_size` rows that is stored as
/// its lower triangle.
pub fn index_symmetric_matrix(x: usize, y: usize, total_size: usize) -> (r: Result<usize, MatrixIndexError>)
    requires
        x < total_size && y < total_size ==> place(x as nat, y as nat) <= usize::MAX,
    ensures
        r == if x < total_size && y < total_size {
            Ok::<usize, MatrixIndexError>(place(x as nat, y as nat) as usize)
        } else {
            Err(MatrixIndexError::OutOfBounds)
        },
{
    if !(x < total_size && y < total_size) {
        return Err(MatrixIndexError::OutOfBounds);
    }
    let (hi, lo) = if x >= y {
        (x, y)
    } else {
        (y, x)
    };
    let wide: u128 = hi as u128;
    assert(wide * (wide + 1) <= 0x1_0000_0000_0000_0000 * 0x1_0000_0000_0000_0001) by (nonlinear_arith)
        requires
            0 <= wide < 0x1_0000_0000_0000_0000,
    ;
    let row_offset: u128 = wide * (wide + 1) / 2;
    Ok((row_offset + lo as u128) as usize)
}

/// The place of an element does not depend on the order of its coordinates.
pub proof fn law_place_symmetric(x: nat, y: nat)
    ensures
        place(x, y) == place(y, x),
{
}

/// Two elements of the lower triangle share a place only if they are the same, and
/// the places of a matrix of `n` rows are exactly those below `triangle(n)`.
pub proof fn law_place_injective(x1: nat, y1: nat, x2: nat, y2: nat)
    requires
        y1 <= x1,
        y2 <= x2,
        place(x1, y1) == place(x2, y2),
    ensures
        x1 == x2,
        y1 == y2,
{
    if x1 < x2 {
        lemma_triangle_step(x1, x2);
    } else if x2 < x1 {
        lemma_triangle_step(x2, x1);
    }
}

/// A place in a matrix of `n` rows is below `triangle(n)`.
pub proof fn law_place_bounded(x: nat, y: nat, n: nat)
    requires
        x < n,
        y < n,
    ensures
        place(x, y) < triangle(n),
{
    if x >= y {
        lemma_triangle_step(x, n);
    } else {
        lemma_triangle_step(y, n);
    }
}

proof fn lemma_triangle_succ(a: nat)
    ensures
        triangle(a + 1) == triangle(a) + a + 1,
{
    assert((a + 1) * (a + 2) == a * (a + 1) + 2 * (a + 1)) by (nonlinear_arith);
}

proof fn lemma_triangle_step(a: nat, b: nat)
    requires
        a < b,
    ensures
        triangle(a) + a < triangle(b),
    decreases b - a,
{
    lemma_triangle_succ(a);
    if a + 1 < b {
        lemma_triangle_step(a + 1, b);
    }
}

} // verus!
