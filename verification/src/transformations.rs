//! The matrices of the elementary transforms.
//!
//! Each is the identity with a few entries replaced. To apply a transform after
//! another, the caller multiplies the two matrices.

use vstd::prelude::*;
use crate::matrices::identity;
use crate::matrices::identity_entry;
use crate::matrices::Matrix;
use crate::scalar::Scalar;
use crate::tuples::Tuple;

verus! {

/// The entry of the matrix that moves points by `(x, y, z)`: the identity, with
/// the three distances in the last column.
pub open spec fn translation_entry(x: Scalar, y: Scalar, z: Scalar, row: int, col: int) -> Scalar {
    if col == 3 && row == 0 {
        x
    } else if col == 3 && row == 1 {
        y
    } else if col == 3 && row == 2 {
        z
    } else {
        identity_entry(row, col)
    }
}

/// The entry of the matrix that scales by `(x, y, z)`: the identity, with the
/// three factors on the diagonal.
pub open spec fn scaling_entry(x: Scalar, y: Scalar, z: Scalar, row: int, col: int) -> Scalar {
    if row == 0 && col == 0 {
        x
    } else if row == 1 && col == 1 {
        y
    } else if row == 2 && col == 2 {
        z
    } else {
        identity_entry(row, col)
    }
}

/// The entry of the matrix that turns by an angle around the axis numbered
/// `axis` (x is 0, y is 1, z is 2), given the angle's cosine and sine. The
/// cosine stands twice on the diagonal, at the two other axes; the sine stands
/// off the diagonal between them, once as it is and once with its sign
/// changed.
pub open spec fn rotation_entry(axis: int, cos: Scalar, sin: Scalar, row: int, col: int) -> Scalar {
    let first = (axis + 1) % 3;
    let second = (axis + 2) % 3;
    if (row == first && col == first) || (row == second && col == second) {
        cos
    } else if row == first && col == second {
        sin.negated()
    } else if row == second && col == first {
        sin
    } else {
        identity_entry(row, col)
    }
}

/// The entry of the shearing matrix that moves each coordinate in proportion
/// to the two others: the identity, with the six proportions off the diagonal
/// of its first three rows and columns.
pub open spec fn shearing_entry(
    xy: Scalar,
    xz: Scalar,
    yx: Scalar,
    yz: Scalar,
    zx: Scalar,
    zy: Scalar,
    row: int,
    col: int,
) -> Scalar {
    if row == 0 && col == 1 {
        xy
    } else if row == 0 && col == 2 {
        xz
    } else if row == 1 && col == 0 {
        yx
    } else if row == 1 && col == 2 {
        yz
    } else if row == 2 && col == 0 {
        zx
    } else if row == 2 && col == 1 {
        zy
    } else {
        identity_entry(row, col)
    }
}

/// The entry of the matrix that turns the world to face an eye: its rows are
/// the direction to the eye's left, the direction up, and the opposite of the
/// direction forward.
pub open spec fn orientation_entry(left: Tuple, up: Tuple, forward: Tuple, row: int, col: int)
    -> Scalar {
    if row == 0 && col == 0 {
        left.x
    } else if row == 0 && col == 1 {
        left.y
    } else if row == 0 && col == 2 {
        left.z
    } else if row == 1 && col == 0 {
        up.x
    } else if row == 1 && col == 1 {
        up.y
    } else if row == 1 && col == 2 {
        up.z
    } else if row == 2 && col == 0 {
        forward.x.negated()
    } else if row == 2 && col == 1 {
        forward.y.negated()
    } else if row == 2 && col == 2 {
        forward.z.negated()
    } else {
        identity_entry(row, col)
    }
}

/// The matrix that moves points by `(x, y, z)`.
pub fn translation(x: Scalar, y: Scalar, z: Scalar) -> (m: Matrix)
    ensures
        forall|i: int, j: int|
            0 <= i < 4 && 0 <= j < 4 ==> m[i][j] == translation_entry(x, y, z, i, j),
{
    let i = Scalar::new_one();
    let o = Scalar::new_zero();
    [[i, o, o, x], [o, i, o, y], [o, o, i, z], [o, o, o, i]]
}

/// The matrix that scales by `(x, y, z)`.
pub fn scaling(x: Scalar, y: Scalar, z: Scalar) -> (m: Matrix)
    ensures
        forall|i: int, j: int| 0 <= i < 4 && 0 <= j < 4 ==> m[i][j] == scaling_entry(x, y, z, i, j),
{
    let i = Scalar::new_one();
    let o = Scalar::new_zero();
    [[x, o, o, o], [o, y, o, o], [o, o, z, o], [o, o, o, i]]
}

/// The matrix that turns around the x axis by the angle with the given cosine
/// and sine.
pub fn rotation_x(cos: Scalar, sin: Scalar) -> (m: Matrix)
    ensures
        forall|i: int, j: int|
            0 <= i < 4 && 0 <= j < 4 ==> m[i][j] == rotation_entry(0, cos, sin, i, j),
{
    let i = Scalar::new_one();
    let o = Scalar::new_zero();
    [[i, o, o, o], [o, cos, sin.neg(), o], [o, sin, cos, o], [o, o, o, i]]
}

/// The matrix that turns around the y axis by the angle with the given cosine
/// and sine.
pub fn rotation_y(cos: Scalar, sin: Scalar) -> (m: Matrix)
    ensures
        forall|i: int, j: int|
            0 <= i < 4 && 0 <= j < 4 ==> m[i][j] == rotation_entry(1, cos, sin, i, j),
{
    let i = Scalar::new_one();
    let o = Scalar::new_zero();
    [[cos, o, sin, o], [o, i, o, o], [sin.neg(), o, cos, o], [o, o, o, i]]
}

/// The matrix that turns around the z axis by the angle with the given cosine
/// and sine.
pub fn rotation_z(cos: Scalar, sin: Scalar) -> (m: Matrix)
    ensures
        forall|i: int, j: int|
            0 <= i < 4 && 0 <= j < 4 ==> m[i][j] == rotation_entry(2, cos, sin, i, j),
{
    let i = Scalar::new_one();
    let o = Scalar::new_zero();
    [[cos, sin.neg(), o, o], [sin, cos, o, o], [o, o, i, o], [o, o, o, i]]
}

/// The matrix that shears: x moves in proportion to y and to z, y to x and to
/// z, z to x and to y.
pub fn shearing(xy: Scalar, xz: Scalar, yx: Scalar, yz: Scalar, zx: Scalar, zy: Scalar) -> (m:
    Matrix)
    ensures
        forall|i: int, j: int|
            0 <= i < 4 && 0 <= j < 4 ==> m[i][j] == shearing_entry(xy, xz, yx, yz, zx, zy, i, j),
{
    let i = Scalar::new_one();
    let o = Scalar::new_zero();
    [[i, xy, xz, o], [yx, i, yz, o], [zx, zy, i, o], [o, o, o, i]]
}

/// The matrix that turns the world to face an eye that looks along `forward`,
/// with `left` to its left and `up` above it.
pub fn orientation(left: &Tuple, up: &Tuple, forward: &Tuple) -> (m: Matrix)
    ensures
        forall|i: int, j: int|
            0 <= i < 4 && 0 <= j < 4 ==> m[i][j] == orientation_entry(*left, *up, *forward, i, j),
{
    let i = Scalar::new_one();
    let o = Scalar::new_zero();
    [
        [left.x, left.y, left.z, o],
        [up.x, up.y, up.z, o],
        [forward.x.neg(), forward.y.neg(), forward.z.neg(), o],
        [o, o, o, i],
    ]
}

} // verus!
