//! Row-major indexing of a pixel grid.

use vstd::arithmetic::div_mod::{
    lemma_fundamental_div_mod, lemma_fundamental_div_mod_converse,
};
use vstd::prelude::*;

verus! {

/// The row-major index of the point `(x, y)` in a grid `width` cells wide.
pub open spec fn index_of(width: int, x: int, y: int) -> int {
    y * width + x
}

/// The point `(x, y)` that the row-major index `index` stands for.
pub open spec fn point_of(width: int, index: int) -> (int, int) {
    (index % width, index / width)
}

/// Whether `(x, y)` lies in the grid of `width` by `height` cells.
pub open spec fn in_grid(width: int, height: int, x: int, y: int) -> bool {
    0 <= x < width && 0 <= y < height
}

/// Every index is the index of its own point.
pub proof fn lemma_index_of_point(width: int, index: int)
    requires
        width > 0,
    ensures
        index_of(width, point_of(width, index).0, point_of(width, index).1) == index,
        0 <= point_of(width, index).0 < width,
{
    lemma_fundamental_div_mod(index, width);
    assert((index / width) * width == width * (index / width)) by (nonlinear_arith);
}

/// Every point with a column inside the grid is the point of its own index.
pub proof fn lemma_point_of_index(width: int, x: int, y: int)
    requires
        0 <= x < width,
    ensures
        point_of(width, index_of(width, x, y)) == (x, y),
{
    lemma_fundamental_div_mod_converse(index_of(width, x, y), width, y, x);
}

/// The points of a grid and the indices below `width * height` correspond.
pub proof fn lemma_grid_bounds(width: int, height: int, x: int, y: int)
    requires
        in_grid(width, height, x, y),
    ensures
        0 <= y * width <= index_of(width, x, y) < width * height,
{
    assert(0 <= y * width && y * width + x < width * height) by (nonlinear_arith)
        requires
            0 <= x < width,
            0 <= y < height,
    ;
}

/// An index below `width * height` stands for a point of the grid.
pub proof fn lemma_point_in_grid(width: int, height: int, index: int)
    requires
        0 <= index < width * height,
        width >= 0,
    ensures
        width > 0,
        in_grid(width, height, point_of(width, index).0, point_of(width, index).1),
{
    assert(width > 0) by (nonlinear_arith)
        requires
            0 <= index < width * height,
            width >= 0,
    ;
    lemma_fundamental_div_mod(index, width);
    let q = index / width;
    assert(0 <= q < height) by (nonlinear_arith)
        requires
            index == width * q + index % width,
            0 <= index % width < width,
            0 <= index < width * height,
            width > 0,
    ;
}

} // verus!
