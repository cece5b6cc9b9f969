//! The geometry of the grid: cells are numbered row by row, and two cells are
//! adjacent when they differ by at most one column and at most one row.

use vstd::prelude::*;
use vstd::arithmetic::div_mod::{
    lemma_fundamental_div_mod,
    lemma_fundamental_div_mod_converse_div,
    lemma_fundamental_div_mod_converse_mod,
};
use vstd::set_lib::lemma_len_subset;

verus! {

/// Cell `i` lies on a grid of the given width and height.
pub open spec fn on_grid(width: int, height: int, i: int) -> bool {
    0 < width && 0 <= i < width * height
}

/// Cells `a` and `b` of the grid are distinct and touch, by a side or by a
/// corner.
pub open spec fn adjacent(width: int, height: int, a: int, b: int) -> bool {
    &&& on_grid(width, height, a)
    &&& on_grid(width, height, b)
    &&& a != b
    &&& -1 <= a % width - b % width <= 1
    &&& -1 <= a / width - b / width <= 1
}

/// The cells adjacent to `a`.
pub open spec fn around(width: int, height: int, a: int) -> Set<int> {
    Set::new(|b: int| adjacent(width, height, a, b))
}

/// The cell in column `x` of row `y` has the number `y * width + x`, and
/// column and row are read back from it by remainder and quotient.
pub proof fn lemma_cell_of_coordinates(width: int, height: int, x: int, y: int)
    requires
        0 <= x < width,
        0 <= y < height,
    ensures
        on_grid(width, height, y * width + x),
        (y * width + x) % width == x,
        (y * width + x) / width == y,
{
    let i = y * width + x;
    lemma_fundamental_div_mod_converse_mod(i, width, y, x);
    lemma_fundamental_div_mod_converse_div(i, width, y, x);
    assert(0 <= y * width && (y + 1) * width <= height * width) by (nonlinear_arith)
        requires
            0 <= y < height,
            0 < width,
    ;
    assert((y + 1) * width == y * width + width) by (nonlinear_arith);
    assert(height * width == width * height) by (nonlinear_arith);
}

/// Every cell of the grid has a column below the width and a row below the
/// height.
pub proof fn lemma_coordinates_of_cell(width: int, height: int, i: int)
    requires
        on_grid(width, height, i),
    ensures
        0 <= i % width < width,
        0 <= i / width < height,
        i == (i / width) * width + i % width,
{
    lemma_fundamental_div_mod(i, width);
    let q = i / width;
    let r = i % width;
    assert(q * width == width * q) by (nonlinear_arith);
    assert(0 <= q < height) by (nonlinear_arith)
        requires
            0 < width,
            0 <= r < width,
            0 <= q * width + r < width * height,
    ;
}

/// A cell has at most eight adjacent cells.
pub proof fn lemma_around_bound(width: int, height: int, a: int)
    ensures
        around(width, height, a).finite(),
        around(width, height, a).len() <= 8,
{
    let near = around(width, height, a);
    let w = width;
    let all = Set::<int>::empty().insert(a - w - 1).insert(a - w).insert(a - w + 1).insert(
        a - 1,
    ).insert(a + 1).insert(a + w - 1).insert(a + w).insert(a + w + 1);
    assert forall|b: int| near.contains(b) implies all.contains(b) by {
        lemma_coordinates_of_cell(width, height, a);
        lemma_coordinates_of_cell(width, height, b);
        let dr = b / w - a / w;
        let dc = b % w - a % w;
        assert(b - a == dr * w + dc) by (nonlinear_arith)
            requires
                a == (a / w) * w + a % w,
                b == (b / w) * w + b % w,
                dr == b / w - a / w,
                dc == b % w - a % w,
        ;
        assert(dr == -1 || dr == 0 || dr == 1);
        assert(dc == -1 || dc == 0 || dc == 1);
        assert(dr * w == if dr == -1 {
            -w
        } else if dr == 0 {
            0
        } else {
            w
        }) by (nonlinear_arith)
            requires
                dr == -1 || dr == 0 || dr == 1,
        ;
    }
    assert(near.subset_of(all));
    lemma_len_subset(near, all);
}

} // verus!
