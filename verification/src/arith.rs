//! Facts about row-major cell indices that the solver does not find by itself.
use vstd::prelude::*;

verus! {

/// A cell at row `r` and column `c` of a `w`-wide grid of `h` rows lies before the end of
/// the grid.
pub proof fn lemma_cell_index(r: int, c: int, w: int, h: int)
    requires
        0 <= r < h,
        0 <= c < w,
    ensures
        0 <= r * w + c < w * h,
        r * w + w <= w * h,
{
    assert(0 <= r * w) by (nonlinear_arith)
        requires
            0 <= r,
            0 <= w,
    ;
    assert(r * w + w <= w * h) by (nonlinear_arith)
        requires
            0 <= r < h,
            0 <= w,
    ;
}

/// The row and column of a cell index.
pub proof fn lemma_row_col(i: int, w: int)
    requires
        0 <= i,
        0 < w,
    ensures
        (i / w) * w + i % w == i,
        0 <= i % w < w,
        0 <= i / w <= i,
{
    vstd::arithmetic::div_mod::lemma_fundamental_div_mod(i, w);
    vstd::arithmetic::mul::lemma_mul_is_commutative(i / w, w);
    vstd::arithmetic::div_mod::lemma_mod_pos_bound(i, w);
    vstd::arithmetic::div_mod::lemma_div_pos_is_pos(i, w);
    vstd::arithmetic::div_mod::lemma_div_is_ordered_by_denominator(i, 1, w);
}

/// A cell index within a grid of `h` rows has a row below `h`.
pub proof fn lemma_row_bound(i: int, w: int, h: int)
    requires
        0 <= i < w * h,
        0 < w,
    ensures
        i / w < h,
        w * h > 0,
{
    lemma_row_col(i, w);
    if i / w >= h {
        assert((i / w) * w >= h * w) by (nonlinear_arith)
            requires
                i / w >= h,
                w > 0,
        ;
        assert(h * w == w * h) by (nonlinear_arith);
    }
}

/// The index `r * w + c` of a cell with `c < w` gives back its row and column.
pub proof fn lemma_index_row_col(r: int, c: int, w: int)
    requires
        0 <= r,
        0 <= c < w,
    ensures
        (r * w + c) / w == r,
        (r * w + c) % w == c,
{
    vstd::arithmetic::div_mod::lemma_fundamental_div_mod_converse(r * w + c, w, r, c);
}

/// An empty grid has no cell: a grid with a cell has a positive width.
pub proof fn lemma_positive_width(i: int, w: int, h: int)
    requires
        0 <= i < w * h,
        0 <= w,
        0 <= h,
    ensures
        w > 0,
        h > 0,
{
    if w == 0 {
        assert(w * h == 0) by (nonlinear_arith)
            requires
                w == 0,
        ;
    }
    if h == 0 {
        assert(w * h == 0) by (nonlinear_arith)
            requires
                h == 0,
        ;
    }
}

/// The number of cells of a grid of `u16` dimensions fits in 32 bits.
pub proof fn lemma_grid_fits(w: int, h: int)
    requires
        0 <= w <= u16::MAX,
        0 <= h <= u16::MAX,
    ensures
        0 <= w * h <= u16::MAX * u16::MAX,
        w * h < u32::MAX,
{
    assert(0 <= w * h <= u16::MAX * u16::MAX) by (nonlinear_arith)
        requires
            0 <= w <= u16::MAX,
            0 <= h <= u16::MAX,
    ;
}

} // verus!

verus! {

/// Multiplying both sides of `a <= b` by `w >= 0` keeps the order.
pub proof fn lemma_mul_le(a: int, b: int, w: int)
    requires
        a <= b,
        0 <= w,
    ensures
        a * w <= b * w,
{
    vstd::arithmetic::mul::lemma_mul_inequality(a, b, w);
}

/// The `i`-th cell of a `w`-wide grid laid at column `x`, row `y` of a screen `sw` wide, with
/// the grid within the screen's width, lands at a screen index that no other cell of the grid
/// lands at, inside a screen of `sh` rows when the grid's `h` rows fit below `y`.
pub proof fn lemma_region_index(sw: int, sh: int, x: int, y: int, w: int, h: int, i: int, j: int)
    requires
        0 <= x,
        0 <= y,
        0 < w,
        x + w <= sw,
        y + h <= sh,
        0 <= i < w * h,
        0 <= j < w * h,
    ensures
        0 <= (y + i / w) * sw + x + i % w < sw * sh,
        i != j ==> (y + i / w) * sw + x + i % w != (y + j / w) * sw + x + j % w,
{
    lemma_row_col(i, w);
    lemma_row_col(j, w);
    lemma_row_bound(i, w, h);
    lemma_row_bound(j, w, h);
    lemma_cell_index(y + i / w, x + i % w, sw, sh);
    let ri = i / w;
    let rj = j / w;
    if i != j {
        if ri == rj {
            assert(i % w != j % w);
        } else if ri < rj {
            lemma_mul_le(y + ri + 1, y + rj, sw);
            assert((y + ri + 1) * sw == (y + ri) * sw + sw) by (nonlinear_arith);
        } else {
            lemma_mul_le(y + rj + 1, y + ri, sw);
            assert((y + rj + 1) * sw == (y + rj) * sw + sw) by (nonlinear_arith);
        }
    }
}

} // verus!
