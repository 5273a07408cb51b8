//! Arithmetic facts about cell grids indexed by 16-bit coordinates.

use vstd::prelude::*;

verus! {

/// A row-major index built from 16-bit coordinates fits in 32 bits.
pub proof fn lemma_grid_index_fits(r: int, w: int, c: int)
    requires
        0 <= r <= 0xffff,
        0 <= w <= 0xffff,
        0 <= c <= 0xffff,
    ensures
        0 <= r * w,
        r * w + c <= 0xffff_ffff,
        r < 0xffff ==> r * w + c + 1 <= 0xffff_ffff,
{
    assert(0 <= r * w <= 0xffff * 0xffff) by (nonlinear_arith)
        requires
            0 <= r <= 0xffff,
            0 <= w <= 0xffff,
    ;
    if r < 0xffff {
        assert(r * w <= 0xfffe * 0xffff) by (nonlinear_arith)
            requires
                0 <= r <= 0xfffe,
                0 <= w <= 0xffff,
        ;
    }
}

/// Within a grid of `w` columns and `h` rows, cell (`r`, `c`) lies before the end.
pub proof fn lemma_grid_index_in_bounds(r: int, c: int, w: int, h: int)
    requires
        0 <= r < h,
        0 <= c < w,
    ensures
        0 <= r * w + c < w * h,
        r * w + c < h * w,
        r * w + w <= w * h,
        r * w + w <= h * w,
{
    assert(r * w + w <= w * h && 0 <= r * w && w * h == h * w) by (nonlinear_arith)
        requires
            0 <= r < h,
            0 <= c < w,
    ;
}

/// Consecutive rows of a grid follow each other.
pub proof fn lemma_next_row(r: int, w: int)
    ensures
        (r + 1) * w == r * w + w,
{
    assert((r + 1) * w == r * w + w) by (nonlinear_arith);
}

/// An index into a grid of `w` x `h` cells splits into the row and the column.
pub proof fn lemma_split_cell(j: int, w: int, h: int)
    requires
        0 <= j < w * h,
        0 < w,
    ensures
        0 <= j / w < h,
        0 <= j % w < w,
        (j / w) * w + j % w == j,
{
    vstd::arithmetic::div_mod::lemma_fundamental_div_mod(j, w);
    vstd::arithmetic::div_mod::lemma_mod_pos_bound(j, w);
    vstd::arithmetic::div_mod::lemma_div_pos_is_pos(j, w);
    let y = j / w;
    let x = j % w;
    assert(y < h) by (nonlinear_arith)
        requires
            j == w * y + x,
            0 <= x,
            j < w * h,
            0 < w,
    ;
    assert(y * w + x == j) by (nonlinear_arith)
        requires
            j == w * y + x,
    ;
}

/// An index into a grid of `w` x `h` cells of four bytes each splits into
/// the row, the column and the byte within the cell.
pub proof fn lemma_split_index(j: int, w: int, h: int)
    requires
        0 <= j < w * h * 4,
        0 < w,
    ensures
        0 <= (j / 4) / w < h,
        0 <= (j / 4) % w < w,
        0 <= j % 4 < 4,
        (((j / 4) / w) * w + (j / 4) % w) * 4 + j % 4 == j,
{
    let q = j / 4;
    vstd::arithmetic::div_mod::lemma_fundamental_div_mod(j, 4);
    vstd::arithmetic::div_mod::lemma_mod_pos_bound(j, 4);
    vstd::arithmetic::div_mod::lemma_div_pos_is_pos(j, 4);
    vstd::arithmetic::div_mod::lemma_fundamental_div_mod(q, w);
    vstd::arithmetic::div_mod::lemma_mod_pos_bound(q, w);
    vstd::arithmetic::div_mod::lemma_div_pos_is_pos(q, w);
    let yy = q / w;
    let xx = q % w;
    assert(q < w * h) by (nonlinear_arith)
        requires
            j == 4 * q + j % 4,
            0 <= j % 4 < 4,
            j < w * h * 4,
    ;
    assert(yy < h) by (nonlinear_arith)
        requires
            q == w * yy + xx,
            0 <= xx,
            q < w * h,
            0 < w,
    ;
    assert((yy * w + xx) * 4 + j % 4 == j) by (nonlinear_arith)
        requires
            q == w * yy + xx,
            j == 4 * q + j % 4,
    ;
}

} // verus!
