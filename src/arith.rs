//! Small arithmetic facts used for grid indexing.

use vstd::prelude::*;

verus! {

/// A row-major cell index stays below the grid's size.
pub proof fn lemma_cell_in_grid(r: int, c: int, w: int, h: int)
    requires
        0 <= r < h,
        0 <= c < w,
    ensures
        0 <= r * w + c < h * w,
        r * w + c < w * h,
        3 * (r * w + c) + 2 < 3 * w * h,
{
    assert(r * w + c < h * w) by (nonlinear_arith)
        requires 0 <= r < h, 0 <= c < w;
    assert(h * w == w * h) by (nonlinear_arith);
    assert(3 * w * h == 3 * (w * h)) by (nonlinear_arith);
    assert(0 <= r * w) by (nonlinear_arith)
        requires 0 <= r, 0 <= w;
}

/// Distinct cells of a row-major grid have distinct indices.
pub proof fn lemma_cell_inject(r1: int, c1: int, r2: int, c2: int, w: int)
    requires
        0 <= c1 < w,
        0 <= c2 < w,
        0 <= r1,
        0 <= r2,
        r1 * w + c1 == r2 * w + c2,
    ensures
        r1 == r2,
        c1 == c2,
{
    if r1 < r2 {
        assert(r1 * w + w <= r2 * w) by (nonlinear_arith)
            requires r1 < r2, 0 <= w;
    } else if r2 < r1 {
        assert(r2 * w + w <= r1 * w) by (nonlinear_arith)
            requires r2 < r1, 0 <= w;
    }
}

} // verus!
