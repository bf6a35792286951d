//! Coordinate arithmetic of a grid whose opposite edges are joined.
//!
//! Cells are stored row by row, so the cell in column `x` of row `y` of a grid
//! `width` cells wide sits at position `width * y + x`. Neighbour lookups step
//! at most one cell beyond an edge and re-enter the grid from the far side.

use vstd::prelude::*;
use vstd::arithmetic::div_mod::{lemma_fundamental_div_mod, lemma_fundamental_div_mod_converse};
use vstd::arithmetic::div_mod::lemma_multiply_divide_lt;

verus! {

/// The coordinate that `n` denotes on a ring of `max` places.
///
/// A negative `n` counts back from the far edge and an `n` of `max` or more
/// has `max` taken off once. This is a single fold, not a remainder: only a
/// coordinate within one ring length of `0..max` lands inside `0..max`.
pub open spec fn wrap(n: int, max: int) -> int {
    if n < 0 {
        max + n
    } else if n >= max {
        n - max
    } else {
        n
    }
}

/// The position of column `x`, row `y` in row-major storage `width` wide.
pub open spec fn position(width: int, x: int, y: int) -> int {
    width * y + x
}

/// Stepping one place from `p` and then one place back on a ring returns to `p`.
pub proof fn lemma_wrap_step_back(p: int, d: int, max: int)
    requires
        max > 0,
        0 <= p < max,
        -1 <= d <= 1,
    ensures
        0 <= wrap(p + d, max) < max,
        wrap(wrap(p + d, max) - d, max) == p,
{
}

/// Every cell of a `width` by `height` grid has a position below `width * height`.
pub proof fn lemma_position_in_range(width: int, height: int, x: int, y: int)
    requires
        0 <= x < width,
        0 <= y < height,
    ensures
        0 <= position(width, x, y) < width * height,
{
    assert(width * y + x < width * height && width * y >= 0) by (nonlinear_arith)
        requires
            0 <= x < width,
            0 <= y < height,
    ;
}

/// The column and the row of a cell are the remainder and the quotient of its
/// position by the width.
pub proof fn lemma_position_split(width: int, x: int, y: int)
    requires
        0 <= x < width,
    ensures
        position(width, x, y) % width == x,
        position(width, x, y) / width == y,
{
    assert(width * y + x == y * width + x) by (nonlinear_arith);
    lemma_fundamental_div_mod_converse(position(width, x, y), width, y, x);
}

/// A position below `width * height` names a column below `width` and a row
/// below `height`, and is the position of that cell.
pub proof fn lemma_position_join(width: int, height: int, i: int)
    requires
        width > 0,
        0 <= i < width * height,
    ensures
        0 <= i % width < width,
        0 <= i / width < height,
        position(width, i % width, i / width) == i,
{
    lemma_fundamental_div_mod(i, width);
    lemma_multiply_divide_lt(i, width, height);
    assert(i / width >= 0) by (nonlinear_arith)
        requires
            width > 0,
            i >= 0,
    ;
}

/// Distinct cells have distinct positions.
pub proof fn lemma_position_injective(width: int, x1: int, y1: int, x2: int, y2: int)
    requires
        0 <= x1 < width,
        0 <= x2 < width,
        position(width, x1, y1) == position(width, x2, y2),
    ensures
        x1 == x2,
        y1 == y2,
{
    lemma_position_split(width, x1, y1);
    lemma_position_split(width, x2, y2);
}

} // verus!
