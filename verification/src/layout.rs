//! Row-major layout: how a cell `(x, y)` of a grid of known width maps to a
//! place in a flat sequence, and back.

use vstd::prelude::*;
use vstd::arithmetic::div_mod::{lemma_fundamental_div_mod, lemma_fundamental_div_mod_converse};

verus! {

/// Whether `(x, y)` names a cell of a `width` by `height` grid.
pub open spec fn in_grid(x: int, y: int, width: nat, height: nat) -> bool {
    0 <= x < width && 0 <= y < height
}

/// The place of cell `(x, y)` in the flat sequence.
pub open spec fn index_of(x: int, y: int, width: nat) -> int {
    x + y * width
}

/// The column of the cell stored at place `i`.
pub open spec fn column_of(i: int, width: nat) -> int {
    i % (width as int)
}

/// The row of the cell stored at place `i`.
pub open spec fn row_of(i: int, width: nat) -> int {
    i / (width as int)
}

/// Every cell of the grid has a place in the sequence, and reading the
/// column and row back from that place gives the cell again.
pub proof fn lemma_index_of_cell(x: int, y: int, width: nat, height: nat)
    requires
        in_grid(x, y, width, height),
    ensures
        0 <= index_of(x, y, width) < width * height,
        column_of(index_of(x, y, width), width) == x,
        row_of(index_of(x, y, width), width) == y,
{
    let w = width as int;
    let h = height as int;
    assert(0 <= y * w && x + y * w < w * h) by (nonlinear_arith)
        requires
            0 <= x < w,
            0 <= y < h,
    ;
    lemma_fundamental_div_mod_converse(x + y * w, w, y, x);
}

/// Every place in the sequence holds a cell of the grid, and that cell's
/// place is the one started from.
pub proof fn lemma_cell_of_index(i: int, width: nat, height: nat)
    requires
        0 <= i < width * height,
    ensures
        in_grid(column_of(i, width), row_of(i, width), width, height),
        index_of(column_of(i, width), row_of(i, width), width) == i,
{
    let w = width as int;
    let h = height as int;
    assert(w > 0) by (nonlinear_arith)
        requires
            0 <= i < w * h,
            0 <= w,
            0 <= h,
    ;
    lemma_fundamental_div_mod(i, w);
    let q = i / w;
    let r = i % w;
    assert(0 <= r < w);
    assert(i == w * q + r);
    assert(0 <= q < h && w * q == q * w) by (nonlinear_arith)
        requires
            0 <= i < w * h,
            i == w * q + r,
            0 <= r < w,
            0 < w,
    ;
}

} // verus!
