//! What the patches of an image are laid out as.

use crate::models::qwen3_5_vision::{
    angle, blocks, cell, corner_index, frame_size, lemma_cell, lemma_lines, line_above, line_below,
    patch_at,
};
use crate::scalar::lemma_exact_quotient;
use vstd::prelude::*;

verus! {

/// The place of a patch in a frame.
pub open spec fn place_of(row: int, column: int, wb: int, m: int) -> int {
    (row / m) * (wb * (m * m)) + (column / m) * (m * m) + (row % m) * m + column % m
}

proof fn lemma_split_place(p: int, wb: int, m: int)
    requires
        p >= 0,
        wb > 0,
        m > 0,
    ensures
        ({
            let bh = p / (wb * (m * m));
            let bw = (p / (m * m)) % wb;
            let ih = (p / m) % m;
            let iw = p % m;
            p == bh * (wb * (m * m)) + bw * (m * m) + ih * m + iw
        }),
{
    let mm = m * m;
    assert(mm > 0 && wb * mm > 0) by (nonlinear_arith)
        requires
            m > 0,
            wb > 0,
            mm == m * m,
    ;
    vstd::arithmetic::div_mod::lemma_fundamental_div_mod(p, m);
    let a = p / m;
    vstd::arithmetic::div_mod::lemma_div_pos_is_pos(p, m);
    vstd::arithmetic::div_mod::lemma_fundamental_div_mod(a, m);
    vstd::arithmetic::div_mod::lemma_div_denominator(p, m, m);
    let b = p / mm;
    assert(a / m == b);
    vstd::arithmetic::div_mod::lemma_div_pos_is_pos(p, mm);
    vstd::arithmetic::div_mod::lemma_fundamental_div_mod(b, wb);
    vstd::arithmetic::div_mod::lemma_div_denominator(p, mm, wb);
    assert(mm * wb == wb * mm) by (nonlinear_arith);
    let bh = p / (wb * mm);
    assert(b / wb == bh);
    let bw = b % wb;
    let ih = a % m;
    let iw = p % m;
    assert(p == bh * (wb * mm) + bw * mm + ih * m + iw) by (nonlinear_arith)
        requires
            p == m * a + iw,
            a == m * b + ih,
            b == wb * bh + bw,
            mm == m * m,
    ;
}

/// The layout of a frame loses nothing: from the row and column of a patch its place comes back,
/// so no two places hold the same patch.
pub proof fn places_come_back(p: int, h: int, w: int, m: int)
    requires
        h >= 0,
        w >= 0,
        m > 0,
        0 <= p < frame_size(h, w, m),
    ensures
        place_of(cell(p, blocks(w, m), m).0, cell(p, blocks(w, m), m).1, blocks(w, m), m) == p,
{
    let wb = blocks(w, m);
    lemma_cell(p, h, w, m);
    lemma_split_place(p, wb, m);
    let bh = p / (wb * (m * m));
    let bw = (p / (m * m)) % wb;
    let ih = (p / m) % m;
    let iw = p % m;
    vstd::arithmetic::div_mod::lemma_mod_bound(p / m, m);
    vstd::arithmetic::div_mod::lemma_mod_bound(p, m);
    vstd::arithmetic::div_mod::lemma_fundamental_div_mod_converse(bh * m + ih, m, bh, ih);
    vstd::arithmetic::div_mod::lemma_fundamental_div_mod_converse(bw * m + iw, m, bw, iw);
}

/// The layout of a frame leaves nothing out: every patch of the whole squares has a place, and it
/// is the patch at that place.
pub proof fn patches_have_a_place(row: int, column: int, h: int, w: int, m: int)
    requires
        h >= 0,
        w >= 0,
        m > 0,
        0 <= row < blocks(h, m) * m,
        0 <= column < blocks(w, m) * m,
    ensures
        0 <= place_of(row, column, blocks(w, m), m) < frame_size(h, w, m),
        cell(place_of(row, column, blocks(w, m), m), blocks(w, m), m) == (row, column),
{
    let hb = blocks(h, m);
    let wb = blocks(w, m);
    let mm = m * m;
    let (bh, ih) = (row / m, row % m);
    let (bw, iw) = (column / m, column % m);
    vstd::arithmetic::div_mod::lemma_fundamental_div_mod(row, m);
    vstd::arithmetic::div_mod::lemma_fundamental_div_mod(column, m);
    vstd::arithmetic::div_mod::lemma_mod_bound(row, m);
    vstd::arithmetic::div_mod::lemma_mod_bound(column, m);
    vstd::arithmetic::div_mod::lemma_div_pos_is_pos(row, m);
    vstd::arithmetic::div_mod::lemma_div_pos_is_pos(column, m);
    assert(hb * m == m * hb && wb * m == m * wb) by (nonlinear_arith);
    vstd::arithmetic::div_mod::lemma_multiply_divide_lt(row, m, hb);
    vstd::arithmetic::div_mod::lemma_multiply_divide_lt(column, m, wb);
    let inner = ih * m + iw;
    assert(0 <= inner < mm) by (nonlinear_arith)
        requires
            0 <= ih < m,
            0 <= iw < m,
            inner == ih * m + iw,
            mm == m * m,
    ;
    let rest = bw * mm + inner;
    let band = wb * mm;
    assert(0 <= rest < band) by (nonlinear_arith)
        requires
            0 <= bw < wb,
            0 <= inner < mm,
            rest == bw * mm + inner,
            band == wb * mm,
    ;
    let p = bh * band + rest;
    assert(p == place_of(row, column, wb, m));
    assert(0 <= p < hb * band) by (nonlinear_arith)
        requires
            0 <= bh < hb,
            0 <= rest < band,
            p == bh * band + rest,
    ;
    vstd::arithmetic::div_mod::lemma_fundamental_div_mod_converse(p, band, bh, rest);
    let q = bh * wb + bw;
    assert(p == q * mm + inner) by (nonlinear_arith)
        requires
            p == bh * band + rest,
            rest == bw * mm + inner,
            band == wb * mm,
            q == bh * wb + bw,
    ;
    vstd::arithmetic::div_mod::lemma_fundamental_div_mod_converse(p, mm, q, inner);
    vstd::arithmetic::div_mod::lemma_fundamental_div_mod_converse(q, wb, bh, bw);
    let s = q * m + ih;
    assert(p == s * m + iw) by (nonlinear_arith)
        requires
            p == q * mm + inner,
            mm == m * m,
            inner == ih * m + iw,
            s == q * m + ih,
    ;
    vstd::arithmetic::div_mod::lemma_fundamental_div_mod_converse(p, m, s, iw);
    vstd::arithmetic::div_mod::lemma_fundamental_div_mod_converse(s, m, q, ih);
    assert(bh * m + ih == row) by (nonlinear_arith)
        requires
            row == m * bh + ih,
    ;
    assert(bw * m + iw == column) by (nonlinear_arith)
        requires
            column == m * bw + iw,
    ;
    assert(wb * (m * m) == band);
    assert(p / (wb * (m * m)) == bh && p / m == s && s % m == ih);
    assert(p / (m * m) == q && q % wb == bw && p % m == iw);
}

/// Every frame is laid out like the first.
pub proof fn frames_repeat(p: int, h: i32, w: i32, m: i32)
    requires
        frame_size(h as int, w as int, m as int) > 0,
    ensures
        patch_at(p + frame_size(h as int, w as int, m as int), h, w, m) == patch_at(p, h, w, m),
{
    vstd::arithmetic::div_mod::lemma_mod_add_multiples_vanish(
        p,
        frame_size(h as int, w as int, m as int),
    );
}

/// The corners between which a patch lies are entries of the learned grid.
pub proof fn corners_lie_in_the_grid(k: int, row: int, column: int, h: int, w: int, side: int)
    requires
        0 <= k < 4,
        0 <= row < h,
        0 <= column < w,
        1 <= side <= 0x1_0000,
    ensures
        0 <= corner_index(k, row, column, h, w, side) < side * side,
{
    lemma_lines(row, h, side);
    lemma_lines(column, w, side);
    let r = if k < 2 {
        line_below(row, h, side)
    } else {
        line_above(row, h, side)
    };
    let c = if k == 0 || k == 2 {
        line_below(column, w, side)
    } else {
        line_above(column, w, side)
    };
    assert(0 <= r * side + c < side * side) by (nonlinear_arith)
        requires
            0 <= r <= side - 1,
            0 <= c <= side - 1,
            side >= 1,
    ;
}

/// The first and the last patch of a side lie on the first and the last line of the learned grid,
/// and on a grid of the same size every patch lies on its own line. Past products of 2^24, single
/// precision can miss the last line.
pub proof fn ends_meet_the_grid(i: int, n: int, side: int)
    requires
        0 <= i < n,
        n >= 2,
        side >= 1,
        n <= 0x100_0000,
        side <= 0x100_0000,
        (n - 1) * (side - 1) < 0x100_0000,
    ensures
        line_below(0, n, side) == 0,
        line_below(n - 1, n, side) == side - 1,
        side == n ==> line_below(i, n, side) == i,
{
    let (m, s) = ((n - 1) as nat, (side - 1) as nat);
    assert(0 * s == 0);
    assert(i * s <= m * s) by (nonlinear_arith)
        requires
            0 <= i <= m,
    ;
    lemma_exact_quotient(0, s, m);
    lemma_exact_quotient(m, s, m);
    lemma_exact_quotient(i as nat, s, m);
    vstd::arithmetic::div_mod::lemma_div_of0(m as int);
    assert(m * s == s * m) by (nonlinear_arith);
    vstd::arithmetic::div_mod::lemma_div_multiples_vanish(s as int, m as int);
    if side == n {
        vstd::arithmetic::div_mod::lemma_div_by_multiple(i, m as int);
    }
}

/// The second half of the features of a head turns like the first.
pub proof fn halves_turn_alike(row: int, column: int, j: int, d: int)
    requires
        d >= 0,
        d % 2 == 0,
        0 <= j < d / 2,
    ensures
        angle(row, column, j + d / 2, d) == angle(row, column, j, d),
{
}

} // verus!
