//! The shape of matrices: what is decided by rows and columns alone.
//!
//! Transposing a matrix and striking a row and a column from it move entries
//! without looking at them, so these functions take entries of any kind.

use vstd::prelude::*;
use crate::scalar::Scalar;
use crate::scalar::ONE_BITS;

verus! {

/// A transform of points and vectors.
pub type Matrix = [[Scalar; 4]; 4];

/// The entry of the identity matrix in the given row and column.
pub open spec fn identity_entry(row: int, col: int) -> Scalar {
    if row == col {
        Scalar { bits: ONE_BITS }
    } else {
        Scalar { bits: 0 }
    }
}

/// Whether `m` is the identity matrix: ones on the diagonal, positive zeros
/// elsewhere.
pub open spec fn is_identity(m: Matrix) -> bool {
    forall|i: int, j: int| 0 <= i < 4 && 0 <= j < 4 ==> m[i][j] == identity_entry(i, j)
}

/// The identity matrix.
pub fn identity() -> (m: Matrix)
    ensures
        is_identity(m),
{
    let i = Scalar::new_one();
    let o = Scalar::new_zero();
    [[i, o, o, o], [o, i, o, o], [o, o, i, o], [o, o, o, i]]
}

/// Whether `m` is `a` with rows and columns exchanged.
pub open spec fn is_transpose<T>(m: [[T; 4]; 4], a: [[T; 4]; 4]) -> bool {
    forall|i: int, j: int| 0 <= i < 4 && 0 <= j < 4 ==> m[i][j] == a[j][i]
}

/// The matrix with rows and columns exchanged.
pub fn transpose<T: Copy>(a: &[[T; 4]; 4]) -> (m: [[T; 4]; 4])
    ensures
        is_transpose(m, *a),
{
    [
        [a[0][0], a[1][0], a[2][0], a[3][0]],
        [a[0][1], a[1][1], a[2][1], a[3][1]],
        [a[0][2], a[1][2], a[2][2], a[3][2]],
        [a[0][3], a[1][3], a[2][3], a[3][3]],
    ]
}

/// The index in the full matrix of what stands at index `i` once line `gap` is
/// struck.
pub open spec fn past(i: int, gap: int) -> int {
    if i < gap {
        i
    } else {
        i + 1
    }
}

fn step_past(i: usize, gap: usize) -> (k: usize)
    requires
        i < 3,
    ensures
        k == past(i as int, gap as int),
{
    if i < gap {
        i
    } else {
        i + 1
    }
}

/// A 3x3 matrix without one row and one column. A row or column that the
/// matrix does not have strikes nothing, and the last one falls away instead.
pub fn submatrix_3<T: Copy>(a: &[[T; 3]; 3], ignore_row: usize, ignore_col: usize) -> (m: [[T;
    2]; 2])
    ensures
        forall|i: int, j: int|
            0 <= i < 2 && 0 <= j < 2 ==> m[i][j] == a[past(i, ignore_row as int)][past(
                j,
                ignore_col as int,
            )],
{
    let r0: usize = step_past(0, ignore_row);
    let r1: usize = step_past(1, ignore_row);
    let c0: usize = step_past(0, ignore_col);
    let c1: usize = step_past(1, ignore_col);
    [[a[r0][c0], a[r0][c1]], [a[r1][c0], a[r1][c1]]]
}

/// A 4x4 matrix without one row and one column. A row or column that the
/// matrix does not have strikes nothing, and the last one falls away instead.
pub fn submatrix_4<T: Copy>(a: &[[T; 4]; 4], ignore_row: usize, ignore_col: usize) -> (m: [[T;
    3]; 3])
    ensures
        forall|i: int, j: int|
            0 <= i < 3 && 0 <= j < 3 ==> m[i][j] == a[past(i, ignore_row as int)][past(
                j,
                ignore_col as int,
            )],
{
    let r0: usize = step_past(0, ignore_row);
    let r1: usize = step_past(1, ignore_row);
    let r2: usize = step_past(2, ignore_row);
    let c0: usize = step_past(0, ignore_col);
    let c1: usize = step_past(1, ignore_col);
    let c2: usize = step_past(2, ignore_col);
    [
        [a[r0][c0], a[r0][c1], a[r0][c2]],
        [a[r1][c0], a[r1][c1], a[r1][c2]],
        [a[r2][c0], a[r2][c1], a[r2][c2]],
    ]
}

/// Whether the cofactor at the given row and column is the minor with its sign
/// changed: where row and column add up to an odd number.
pub open spec fn cofactor_flips(row: int, col: int) -> bool {
    (row + col) % 2 != 0
}

/// The cofactor that belongs to a minor: the minor itself, or its opposite where
/// row and column add up to an odd number.
pub fn cofactor(minor: Scalar, row: usize, col: usize) -> (c: Scalar)
    ensures
        c == if cofactor_flips(row as int, col as int) {
            minor.negated()
        } else {
            minor
        },
{
    if row % 2 != col % 2 {
        minor.neg()
    } else {
        minor
    }
}

/// Whether a matrix with the given determinant can be inverted: the determinant
/// is anything but zero.
pub fn is_invertible(determinant: Scalar) -> (r: bool)
    ensures
        r == !determinant.zero(),
{
    !determinant.is_zero()
}

/// Transposing twice gives the matrix back: a transpose of a transpose of a
/// matrix is that matrix.
pub proof fn lemma_transposed_twice<T>(a: [[T; 4]; 4], b: [[T; 4]; 4], c: [[T; 4]; 4])
    requires
        is_transpose(b, a),
        is_transpose(c, b),
    ensures
        c == a,
{
    assert forall|i: int| 0 <= i < 4 implies c[i] == a[i] by {
        assert forall|j: int| 0 <= j < 4 implies c[i][j] == a[i][j] by {
            assert(c[i][j] == b[j][i]);
        }
        assert(c[i] =~= a[i]);
    }
    assert(c =~= a);
}

} // verus!
