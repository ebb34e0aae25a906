use vstd::prelude::*;
use crate::screen::{Cell, Glyph};
use crate::window::Window;

verus! {

/// The write that puts `glyph` at the pane's local position `(x, y)`.
pub open spec fn paint(window: Window, glyph: Glyph, x: int, y: int) -> Cell {
    window.cell(glyph.ch, x, y, glyph.color)
}

/// The smaller of two numbers.
pub open spec fn min(a: int, b: int) -> int {
    if a <= b {
        a
    } else {
        b
    }
}

/// Position `k` of `rows` rows of `width` cells lies in column `k % width` of row `k / width`.
pub proof fn lemma_cell_position(k: int, width: int, rows: int)
    requires
        0 <= k < rows * width,
        1 <= width,
    ensures
        0 <= k % width < width,
        0 <= k / width < rows,
        k == (k / width) * width + k % width,
{
    vstd::arithmetic::div_mod::lemma_fundamental_div_mod(k, width);
    vstd::arithmetic::div_mod::lemma_mod_bound(k, width);
    let q = k / width;
    assert(width * q == q * width) by (nonlinear_arith);
    assert(q < rows) by (nonlinear_arith)
        requires
            q * width <= k,
            k < rows * width,
            1 <= width,
    ;
    assert(0 <= q) by (nonlinear_arith)
        requires
            0 <= k,
            q * width + k % width == k,
            k % width < width,
            1 <= width,
    ;
}

/// Position `t` counted from the start of row `used` is in the same column, `used` rows
/// further down.
pub proof fn lemma_shift_rows(t: int, used: int, width: int)
    requires
        0 <= t,
        0 <= used,
        1 <= width,
    ensures
        (width * used + t) % width == t % width,
        (width * used + t) / width == used + t / width,
{
    vstd::arithmetic::div_mod::lemma_fundamental_div_mod(t, width);
    vstd::arithmetic::div_mod::lemma_mod_bound(t, width);
    let q = t / width;
    let r = t % width;
    assert(width * used + t == (used + q) * width + r) by (nonlinear_arith)
        requires
            t == width * q + r,
    ;
    vstd::arithmetic::div_mod::lemma_fundamental_div_mod_converse(
        width * used + t,
        width,
        used + q,
        r,
    );
}

/// The first position whose row is `rows` or more is `width * rows`.
pub proof fn lemma_first_outside(i: int, width: int, rows: int)
    requires
        0 <= i <= width * rows,
        1 <= width,
        0 <= rows,
        i / width >= rows,
    ensures
        i == width * rows,
{
    vstd::arithmetic::div_mod::lemma_fundamental_div_mod(i, width);
    vstd::arithmetic::div_mod::lemma_mod_bound(i, width);
    let q = i / width;
    assert(width * q >= width * rows) by (nonlinear_arith)
        requires
            q >= rows,
            1 <= width,
    ;
}

/// A position whose row is less than `rows` comes before `width * rows`.
pub proof fn lemma_inside(i: int, width: int, rows: int)
    requires
        0 <= i,
        1 <= width,
        i / width < rows,
    ensures
        i + 1 <= width * rows,
{
    vstd::arithmetic::div_mod::lemma_fundamental_div_mod(i, width);
    vstd::arithmetic::div_mod::lemma_mod_bound(i, width);
    let q = i / width;
    assert(width * (q + 1) <= width * rows) by (nonlinear_arith)
        requires
            q + 1 <= rows,
            1 <= width,
    ;
    assert(width * (q + 1) == width * q + width) by (nonlinear_arith);
}

/// A longer run of rows holds more cells.
pub proof fn lemma_mul_strict(width: int, a: int, b: int)
    requires
        1 <= width,
        a < b,
    ensures
        width * a < b * width,
{
    assert(width * a < b * width) by (nonlinear_arith)
        requires
            1 <= width,
            a < b,
    ;
}

/// In a grid with rows of `h` cells, the cell `j` of row `i` comes before row `x` when
/// `i < x`.
pub proof fn lemma_grid_index(i: int, j: int, x: int, h: int)
    requires
        0 <= i < x,
        0 <= j < h,
    ensures
        0 <= i * h + j < x * h,
{
    assert(i * h + j < x * h) by (nonlinear_arith)
        requires
            0 <= i < x,
            0 <= j < h,
    ;
    assert(0 <= i * h + j) by (nonlinear_arith)
        requires
            0 <= i,
            0 <= j,
            0 < h,
    ;
}

} // verus!
