use vstd::prelude::*;
use vstd::arithmetic::div_mod::{
    lemma_fundamental_div_mod, lemma_fundamental_div_mod_converse, lemma_mod_bound,
};
use crate::gitter::{flat_offset, lemma_offset_in_range};

verus! {

// A block of `nx` by `ny` interior cells is stored in fields of `nx + 2` by
// `ny + 2` cells; interior cells have `1 <= x <= nx` and `1 <= y <= ny`.
//
// A vertical interface separates cells `(x - 1, y)` and `(x, y)`; there is one
// for `1 <= x <= nx + 1` and `1 <= y <= ny`, `nx + 1` per row.  A horizontal
// interface separates cells `(x, y - 1)` and `(x, y)`; there is one for
// `1 <= x <= nx` and `1 <= y <= ny + 1`, `nx` per row.  Both kinds are
// numbered row by row.

/// Number of vertical interfaces of a block.
pub open spec fn x_face_count(nx: int, ny: int) -> int {
    ny * (nx + 1)
}

/// Number of horizontal interfaces of a block.
pub open spec fn y_face_count(nx: int, ny: int) -> int {
    (ny + 1) * nx
}

/// `(x, y)` is the right-hand cell of a vertical interface.
pub open spec fn is_x_face(nx: int, ny: int, x: int, y: int) -> bool {
    1 <= x <= nx + 1 && 1 <= y <= ny
}

/// `(x, y)` is the upper cell of a horizontal interface.
pub open spec fn is_y_face(nx: int, ny: int, x: int, y: int) -> bool {
    1 <= x <= nx && 1 <= y <= ny + 1
}

/// Position of the vertical interface between `(x - 1, y)` and `(x, y)`.
pub open spec fn x_face(nx: int, x: int, y: int) -> int {
    flat_offset(nx + 1, x - 1, y - 1)
}

/// Position of the horizontal interface between `(x, y - 1)` and `(x, y)`.
pub open spec fn y_face(nx: int, x: int, y: int) -> int {
    flat_offset(nx, x - 1, y - 1)
}

/// Every vertical interface has a position below their number.
pub proof fn lemma_x_face_in_range(nx: int, ny: int, x: int, y: int)
    requires
        0 <= nx,
        is_x_face(nx, ny, x, y),
    ensures
        0 <= x_face(nx, x, y) < x_face_count(nx, ny),
{
    lemma_offset_in_range(nx + 1, ny, x - 1, y - 1);
}

/// Every horizontal interface has a position below their number.
pub proof fn lemma_y_face_in_range(nx: int, ny: int, x: int, y: int)
    requires
        0 <= nx,
        is_y_face(nx, ny, x, y),
    ensures
        0 <= y_face(nx, x, y) < y_face_count(nx, ny),
{
    lemma_offset_in_range(nx, ny + 1, x - 1, y - 1);
}

/// The interfaces of an interior cell: its left and right ones are vertical
/// interfaces, its lower and upper ones horizontal interfaces, and the two of
/// each kind are distinct.
pub proof fn lemma_cell_faces(nx: int, ny: int, x: int, y: int)
    requires
        0 <= nx,
        1 <= x <= nx,
        1 <= y <= ny,
    ensures
        is_x_face(nx, ny, x, y),
        is_x_face(nx, ny, x + 1, y),
        is_y_face(nx, ny, x, y),
        is_y_face(nx, ny, x, y + 1),
        x_face(nx, x + 1, y) == x_face(nx, x, y) + 1,
        y_face(nx, x, y + 1) == y_face(nx, x, y) + nx,
        0 <= x_face(nx, x, y) && x_face(nx, x + 1, y) < x_face_count(nx, ny),
        0 <= y_face(nx, x, y) && y_face(nx, x, y + 1) < y_face_count(nx, ny),
{
    lemma_x_face_in_range(nx, ny, x, y);
    lemma_x_face_in_range(nx, ny, x + 1, y);
    lemma_y_face_in_range(nx, ny, x, y);
    lemma_y_face_in_range(nx, ny, x, y + 1);
    assert(y * nx == (y - 1) * nx + nx) by (nonlinear_arith);
}

/// Position `k` of a row-by-row numbering with `w` entries in each of
/// `rows` rows is entry `k % w` of row `k / w`.
pub proof fn lemma_decode(w: int, rows: int, k: int)
    requires
        0 < w,
        0 <= k < rows * w,
    ensures
        0 <= k % w < w,
        0 <= k / w < rows,
        flat_offset(w, k % w, k / w) == k,
{
    lemma_fundamental_div_mod(k, w);
    lemma_mod_bound(k, w);
    let q = k / w;
    let r = k % w;
    assert(0 <= q < rows) by (nonlinear_arith)
        requires
            k == w * q + r,
            0 <= r < w,
            0 <= k < rows * w,
    ;
    assert(q * w + r == k) by (nonlinear_arith)
        requires
            k == w * q + r,
    ;
}

/// Entry `x` of row `y`, with `w` entries in a row, has position `k` with
/// `k % w == x` and `k / w == y`.
pub proof fn lemma_encode(w: int, x: int, y: int)
    requires
        0 <= x < w,
    ensures
        flat_offset(w, x, y) % w == x,
        flat_offset(w, x, y) / w == y,
{
    lemma_fundamental_div_mod_converse(flat_offset(w, x, y), w, y, x);
}

} // verus!
