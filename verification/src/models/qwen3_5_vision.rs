//! The vision tower of Qwen3.5: patches of one image become tokens of the text model.
//!
//! A patch is embedded by one linear layer, learned positions are interpolated from a square grid,
//! every block attends on all patches with heads turned by row and column, and squares of patches
//! are merged in the end.

use std::sync::Arc;

use crate::array::{tn, Array, Dtype, Term, Tn};
use crate::error::Exception;
use crate::models::qwen3::layer_count;
use crate::models::qwen3_5::{power_minus_half, power_minus_half_of, NORM_EPS_BITS};
use crate::nn::{table_built, linear_built, t_embed, t_linear, AnyEmbedding, AnyLinear, LayerNorm};
use crate::ops::create::{t_constants, t_integers, t_ones, t_scalar};
use crate::ops::elementwise::{t_add, t_cast, t_gelu, t_gelu_approximate, t_multiply};
use crate::ops::layout::{t_reshape, t_transpose};
use crate::ops::product::{matmul, t_matmul};
use crate::ops::reduce::{softmax_axis, t_softmax};
use crate::ops::select::{concatenate_axis, t_concatenate, t_select, t_slice};
use crate::params::{lemma_part, LeafFrame, Parameters};
use crate::scalar::{
    divide_single, lemma_quotient_bound, lit, single_quotient, ONE_BITS, Scalar, ZERO_BITS,
};
use crate::text::{begins, same_text, strip_prefix};
use crate::weights::{entries, entries_outcome, file_entries, load_files, loaded_from, Remap};
use vstd::prelude::*;
use vstd::string::*;

verus! {

/// The bit pattern of the base of the turning, `10000`.
pub const VISION_ROPE_THETA_BITS: u32 = 0x461c_4000;

/// The bit pattern of minus one.
pub const MINUS_ONE_BITS: u32 = 0xbf80_0000;

/// The configuration of a tower.
#[derive(Clone, Copy, PartialEq, Eq, Debug, Structural)]
pub struct VisionConfig {
    pub depth: i32,
    pub hidden_size: i32,
    pub num_heads: i32,
    pub intermediate_size: i32,
    pub patch_size: i32,
    pub spatial_merge_size: i32,
    pub temporal_patch_size: i32,
    pub in_channels: i32,
    pub out_hidden_size: i32,
    pub num_position_embeddings: i32,
}

/// The number of whole squares of side `m` along a side of `n` patches.
pub open spec fn blocks(n: int, m: int) -> int {
    if m > 0 {
        n / m
    } else {
        0
    }
}

/// The row and column of place `p` in a frame of `wb` squares of side `m` a row: squares row by
/// row, and in each square the patches row by row.
pub open spec fn cell(p: int, wb: int, m: int) -> (int, int) {
    (
        (p / (wb * (m * m))) * m + (p / m) % m,
        ((p / (m * m)) % wb) * m + p % m,
    )
}

/// The number of patches in the whole squares of a frame.
pub open spec fn frame_size(h: int, w: int, m: int) -> int {
    blocks(h, m) * (blocks(w, m) * (m * m))
}

/// Whether sizes of a grid are in range: the number of patches can be counted.
pub open spec fn grid_fits(t: i32, h: i32, w: i32) -> bool {
    &&& t >= 0 && h >= 0 && w >= 0
    &&& t * h <= i32::MAX
    &&& t * h * w <= i32::MAX
}

/// A grid with a frame has frames whose patches can be counted.
pub proof fn lemma_grid_fits(t: i32, h: i32, w: i32)
    requires
        grid_fits(t, h, w),
    ensures
        t * (h * w) == t * h * w,
        t > 0 ==> h * w <= i32::MAX,
{
    assert(t * (h * w) == t * h * w) by (nonlinear_arith);
    if t > 0 {
        assert(h * w <= t * (h * w)) by (nonlinear_arith)
            requires
                t >= 1,
                h >= 0,
                w >= 0,
        ;
    }
}

/// The number of patches of a grid.
fn patches(t: i32, h: i32, w: i32) -> (r: i32)
    requires
        grid_fits(t, h, w),
    ensures
        r == t * h * w,
{
    assert(t * h >= 0 && t * h * w >= 0) by (nonlinear_arith)
        requires
            t >= 0,
            h >= 0,
            w >= 0,
    ;
    t * h * w
}

/// A frame holds no more patches than the grid.
pub proof fn lemma_frame(h: int, w: int, m: int)
    requires
        h >= 0,
        w >= 0,
        m > 0,
    ensures
        0 <= blocks(h, m) <= h,
        0 <= blocks(w, m) <= w,
        blocks(h, m) * m <= h,
        blocks(w, m) * m <= w,
        0 <= frame_size(h, w, m) <= h * w,
        frame_size(h, w, m) == (blocks(h, m) * m) * (blocks(w, m) * m),
{
    let hb = h / m;
    let wb = w / m;
    vstd::arithmetic::div_mod::lemma_fundamental_div_mod(h, m);
    vstd::arithmetic::div_mod::lemma_fundamental_div_mod(w, m);
    vstd::arithmetic::div_mod::lemma_div_pos_is_pos(h, m);
    vstd::arithmetic::div_mod::lemma_div_pos_is_pos(w, m);
    assert(hb <= hb * m && wb <= wb * m && hb * m == m * hb && wb * m == m * wb)
        by (nonlinear_arith)
        requires
            hb >= 0,
            wb >= 0,
            m >= 1,
    ;
    assert(hb * (wb * (m * m)) == (hb * m) * (wb * m)) by (nonlinear_arith);
    assert(0 <= (hb * m) * (wb * m) <= h * w) by (nonlinear_arith)
        requires
            0 <= hb * m <= h,
            0 <= wb * m <= w,
    ;
}

/// A place of a frame has its row and column in the grid.
pub proof fn lemma_cell(p: int, h: int, w: int, m: int)
    requires
        h >= 0,
        w >= 0,
        m > 0,
        0 <= p < frame_size(h, w, m),
    ensures
        blocks(w, m) > 0,
        0 <= cell(p, blocks(w, m), m).0 < blocks(h, m) * m,
        0 <= cell(p, blocks(w, m), m).1 < blocks(w, m) * m,
{
    let hb = blocks(h, m);
    let wb = blocks(w, m);
    lemma_frame(h, w, m);
    assert(wb > 0 && m * m > 0) by (nonlinear_arith)
        requires
            0 <= p,
            p < hb * (wb * (m * m)),
            wb >= 0,
            hb >= 0,
            m > 0,
    ;
    let s = wb * (m * m);
    assert(s > 0) by (nonlinear_arith)
        requires
            wb > 0,
            m * m > 0,
            s == wb * (m * m),
    ;
    vstd::arithmetic::div_mod::lemma_div_pos_is_pos(p, s);
    vstd::arithmetic::div_mod::lemma_multiply_divide_lt(p, s, hb);
    assert(hb * s == s * hb) by (nonlinear_arith);
    vstd::arithmetic::div_mod::lemma_mod_bound(p / m, m);
    vstd::arithmetic::div_mod::lemma_mod_bound(p / (m * m), wb);
    vstd::arithmetic::div_mod::lemma_mod_bound(p, m);
    let (bh, bw) = (p / s, (p / (m * m)) % wb);
    let (ih, iw) = ((p / m) % m, p % m);
    assert(0 <= bh * m + ih < hb * m) by (nonlinear_arith)
        requires
            0 <= bh < hb,
            0 <= ih < m,
    ;
    assert(0 <= bw * m + iw < wb * m) by (nonlinear_arith)
        requires
            0 <= bw < wb,
            0 <= iw < m,
    ;
}

/// The rows and columns of all patches, square by square, once for each of `t` frames.
pub fn grid_layout(t: i32, h: i32, w: i32, m: i32) -> (out: Vec<(i32, i32)>)
    requires
        grid_fits(t, h, w),
        m != 0,
    ensures
        out@.len() == t * frame_size(h as int, w as int, m as int),
        forall|p: int|
            0 <= p < out@.len() ==> {
                let c = cell(
                    p % frame_size(h as int, w as int, m as int),
                    blocks(w as int, m as int),
                    m as int,
                );
                (#[trigger] out@[p]).0 == c.0 && out@[p].1 == c.1 && 0 <= out@[p].0 < h && 0
                    <= out@[p].1 < w
            },
{
    let mut out: Vec<(i32, i32)> = Vec::new();
    if t == 0 || m < 0 {
        assert(t * frame_size(h as int, w as int, m as int) == 0) by (nonlinear_arith)
            requires
                t == 0 || frame_size(h as int, w as int, m as int) == 0,
        ;
        return out;
    }
    proof {
        lemma_grid_fits(t, h, w);
        lemma_frame(h as int, w as int, m as int);
    }
    let wb: i64 = (w / m) as i64;
    let hb: i64 = (h / m) as i64;
    let ghost size = frame_size(h as int, w as int, m as int);
    proof {
        assert(t * size <= t * (h * w)) by (nonlinear_arith)
            requires
                t >= 0,
                size <= h * w,
        ;
        if size > 0 {
            lemma_cell(0, h as int, w as int, m as int);
            assert(m <= w) by (nonlinear_arith)
                requires
                    wb >= 1,
                    wb * m <= w,
                    m > 0,
            ;
        }
    }
    if hb == 0 || wb == 0 {
        proof {
            assert(hb * (wb * (m * m)) == 0) by (nonlinear_arith)
                requires
                    hb == 0 || wb == 0,
            ;
            assert(t * 0 == 0);
        }
        return out;
    }
    proof {
        assert(m <= w && m <= h) by (nonlinear_arith)
            requires
                wb >= 1,
                wb * m <= w,
                hb >= 1,
                hb * m <= h,
                m > 0,
        ;
        assert(m * m <= h * w) by (nonlinear_arith)
            requires
                0 < m <= w,
                m <= h,
        ;
        assert(0 < wb * (m * m) <= size) by (nonlinear_arith)
            requires
                wb >= 1,
                hb >= 1,
                m > 0,
                size == hb * (wb * (m * m)),
        ;
    }
    let square: i64 = m as i64 * m as i64;
    let band: i64 = wb * square;
    let frame: i64 = hb * band;
    proof {
        assert(0 <= t * size);
    }
    let total: i64 = t as i64 * frame;
    let mut p: i64 = 0;
    while p < total
        invariant
            0 <= p <= total,
            total == t * size,
            total <= i32::MAX,
            t >= 0,
            m > 0,
            h >= 0,
            w >= 0,
            wb == blocks(w as int, m as int),
            hb == blocks(h as int, m as int),
            hb * m <= h,
            wb * m <= w,
            square == m * m,
            band == wb * square,
            frame == size,
            size == frame_size(h as int, w as int, m as int),
            0 < band <= size <= i32::MAX,
            0 < square,
            0 < wb,
            out@.len() == p,
            forall|j: int|
                0 <= j < p ==> {
                    let c = cell(j % size, wb as int, m as int);
                    (#[trigger] out@[j]).0 == c.0 && out@[j].1 == c.1 && 0 <= out@[j].0 < h && 0
                        <= out@[j].1 < w
                },
        decreases total - p,
    {
        let q: i64 = p % frame;
        proof {
            vstd::arithmetic::div_mod::lemma_mod_bound(p as int, frame as int);
            lemma_cell(q as int, h as int, w as int, m as int);
            vstd::arithmetic::div_mod::lemma_mod_bound(q as int / (m as int), m as int);
            vstd::arithmetic::div_mod::lemma_mod_bound(q as int, m as int);
            vstd::arithmetic::div_mod::lemma_mod_bound(q as int / (m * m), wb as int);
            vstd::arithmetic::div_mod::lemma_div_pos_is_pos(q as int, band as int);
            vstd::arithmetic::div_mod::lemma_div_pos_is_pos(q as int, square as int);
            vstd::arithmetic::div_mod::lemma_div_pos_is_pos(q as int, m as int);
        }
        let side: i64 = m as i64;
        let bh: i64 = q / band;
        let bw: i64 = (q / square) % wb;
        let ih: i64 = (q / side) % side;
        let iw: i64 = q % side;
        proof {
            assert(0 <= bh * side && bh * side <= bh * side + ih);
            assert(bh * side + ih < h && bw * side + iw < w);
            assert(0 <= bw * side) by (nonlinear_arith)
                requires
                    0 <= bw,
                    0 < side,
            ;
        }
        out.push(((bh * side + ih) as i32, (bw * side + iw) as i32));
        p += 1;
    }
    out
}

/// The number of patches in the whole squares of all frames.
pub open spec fn grid_size(t: i32, h: i32, w: i32, m: i32) -> nat {
    (t * frame_size(h as int, w as int, m as int)) as nat
}

/// The row and column of patch `p`.
pub open spec fn patch_at(p: int, h: i32, w: i32, m: i32) -> (int, int) {
    cell(
        p % frame_size(h as int, w as int, m as int),
        blocks(w as int, m as int),
        m as int,
    )
}

/// The line of a grid of `side` lines at or below place `i` of `n` places spread evenly over it, the
/// place being computed in single precision.
pub open spec fn line_below(i: int, n: int, side: int) -> int {
    if n == 1 {
        0
    } else {
        single_quotient(i as nat, (side - 1) as nat, (n - 1) as nat) as int
    }
}

/// The line of the grid above it, or the last one.
pub open spec fn line_above(i: int, n: int, side: int) -> int {
    if line_below(i, n, side) + 1 < side - 1 {
        line_below(i, n, side) + 1
    } else {
        side - 1
    }
}

/// The place itself, in lines of the grid.
pub open spec fn line_at(i: int, n: int, side: int) -> Scalar {
    if n == 1 {
        lit(ZERO_BITS)
    } else {
        Scalar::Quotient(
            Arc::new(
                Scalar::Product(
                    Arc::new(Scalar::Int(i as i32)),
                    Arc::new(Scalar::Int((side - 1) as i32)),
                ),
            ),
            Arc::new(Scalar::Int((n - 1) as i32)),
        )
    }
}

/// How far the place is from the line below it.
pub open spec fn line_gap(i: int, n: int, side: int) -> Scalar {
    Scalar::Difference(
        Arc::new(line_at(i, n, side)),
        Arc::new(Scalar::Int(line_below(i, n, side) as i32)),
    )
}

/// One minus a scalar.
pub open spec fn complement(s: Scalar) -> Scalar {
    Scalar::Difference(Arc::new(lit(ONE_BITS)), Arc::new(s))
}

/// The entry of the grid at corner `k` of a place: row below or above (`k / 2`), column below or
/// above (`k % 2`).
pub open spec fn corner_index(k: int, row: int, column: int, h: int, w: int, side: int) -> int {
    let r = if k < 2 {
        line_below(row, h, side)
    } else {
        line_above(row, h, side)
    };
    let c = if k == 0 || k == 2 {
        line_below(column, w, side)
    } else {
        line_above(column, w, side)
    };
    r * side + c
}

/// The weight of corner `k` of a place.
pub open spec fn corner_weight(k: int, row: int, column: int, h: int, w: int, side: int) -> Scalar {
    let r = if k < 2 {
        complement(line_gap(row, h, side))
    } else {
        line_gap(row, h, side)
    };
    let c = if k == 0 || k == 2 {
        complement(line_gap(column, w, side))
    } else {
        line_gap(column, w, side)
    };
    Scalar::Product(Arc::new(r), Arc::new(c))
}

/// The entries of the grid at corner `k` of every patch.
pub open spec fn corner_indices(k: int, t: i32, h: i32, w: i32, side: i32, m: i32) -> Seq<i32> {
    Seq::new(
        grid_size(t, h, w, m),
        |p: int|
            corner_index(
                k,
                patch_at(p, h, w, m).0,
                patch_at(p, h, w, m).1,
                h as int,
                w as int,
                side as int,
            ) as i32,
    )
}

/// The weights of corner `k` of every patch.
pub open spec fn corner_weights(k: int, t: i32, h: i32, w: i32, side: i32, m: i32) -> Seq<Scalar> {
    Seq::new(
        grid_size(t, h, w, m),
        |p: int|
            corner_weight(
                k,
                patch_at(p, h, w, m).0,
                patch_at(p, h, w, m).1,
                h as int,
                w as int,
                side as int,
            ),
    )
}

/// The lines around a place lie in the grid.
pub proof fn lemma_lines(i: int, n: int, side: int)
    requires
        0 <= i < n,
        1 <= side <= 0x1_0000,
    ensures
        0 <= line_below(i, n, side) <= line_above(i, n, side) <= side - 1,
{
    if n > 1 {
        lemma_quotient_bound(i as nat, (side - 1) as nat, (n - 1) as nat);
    }
}

/// Finds the lines around a place, and how far the place is from the lower one.
fn lines_around(i: i32, n: i32, side: i32) -> (r: (i32, i32, Scalar))
    requires
        0 <= i < n,
        1 <= side <= 0x1_0000,
    ensures
        r.0 == line_below(i as int, n as int, side as int),
        r.1 == line_above(i as int, n as int, side as int),
        r.2 == line_gap(i as int, n as int, side as int),
        0 <= r.0 <= r.1 <= side - 1,
{
    proof {
        lemma_lines(i as int, n as int, side as int);
    }
    let below: i32;
    let at: Scalar;
    if n == 1 {
        below = 0;
        at = Scalar::lit(ZERO_BITS);
    } else {
        below = divide_single(i, side - 1, n - 1);
        at = Scalar::Int(i).times(Scalar::Int(side - 1)).over(Scalar::Int(n - 1));
    }
    let above: i32 = if below < side - 2 {
        below + 1
    } else {
        side - 1
    };
    (below, above, at.minus(Scalar::Int(below)))
}

/// The corners and weights by which the learned positions are interpolated for every patch: four
/// lists of entries of the grid, and four lists of weights.
pub fn bilinear_indices_and_weights(t: i32, h: i32, w: i32, side: i32, m: i32) -> (r: (
    Vec<Vec<i32>>,
    Vec<Vec<Scalar>>,
))
    requires
        grid_fits(t, h, w),
        m != 0,
        side >= 1,
        side * side <= i32::MAX,
    ensures
        r.0@.len() == 4,
        r.1@.len() == 4,
        forall|k: int|
            0 <= k < 4 ==> (#[trigger] r.0@[k])@ == corner_indices(k, t, h, w, side, m),
        forall|k: int|
            0 <= k < 4 ==> (#[trigger] r.1@[k])@ == corner_weights(k, t, h, w, side, m),
{
    let layout = grid_layout(t, h, w, m);
    let ghost size = frame_size(h as int, w as int, m as int);
    proof {
        assert(side <= 0x1_0000) by (nonlinear_arith)
            requires
                side * side <= i32::MAX,
                side >= 1,
        ;
    }
    let mut i0: Vec<i32> = Vec::new();
    let mut i1: Vec<i32> = Vec::new();
    let mut i2: Vec<i32> = Vec::new();
    let mut i3: Vec<i32> = Vec::new();
    let mut w0: Vec<Scalar> = Vec::new();
    let mut w1: Vec<Scalar> = Vec::new();
    let mut w2: Vec<Scalar> = Vec::new();
    let mut w3: Vec<Scalar> = Vec::new();
    let mut p: usize = 0;
    while p < layout.len()
        invariant
            p <= layout@.len(),
            layout@.len() == grid_size(t, h, w, m),
            size == frame_size(h as int, w as int, m as int),
            side >= 1,
            side <= 0x1_0000,
            side * side <= i32::MAX,
            forall|q: int|
                0 <= q < layout@.len() ==> {
                    let c = cell(q % size, blocks(w as int, m as int), m as int);
                    (#[trigger] layout@[q]).0 == c.0 && layout@[q].1 == c.1 && 0 <= layout@[q].0
                        < h && 0 <= layout@[q].1 < w
                },
            i0@ =~= corner_indices(0, t, h, w, side, m).take(p as int),
            i1@ =~= corner_indices(1, t, h, w, side, m).take(p as int),
            i2@ =~= corner_indices(2, t, h, w, side, m).take(p as int),
            i3@ =~= corner_indices(3, t, h, w, side, m).take(p as int),
            w0@ =~= corner_weights(0, t, h, w, side, m).take(p as int),
            w1@ =~= corner_weights(1, t, h, w, side, m).take(p as int),
            w2@ =~= corner_weights(2, t, h, w, side, m).take(p as int),
            w3@ =~= corner_weights(3, t, h, w, side, m).take(p as int),
        decreases layout@.len() - p,
    {
        let (row, column): (i32, i32) = layout[p];
        let (hf, hc, hfr) = lines_around(row, h, side);
        let (wf, wc, wfr) = lines_around(column, w, side);
        proof {
            assert(0 <= hf * side <= (side - 1) * side && 0 <= hc * side <= (side - 1) * side)
                by (nonlinear_arith)
                requires
                    0 <= hf <= side - 1,
                    0 <= hc <= side - 1,
                    side >= 1,
            ;
            assert((side - 1) * side + (side - 1) < side * side) by (nonlinear_arith)
                requires
                    side >= 1,
            ;
            assert(patch_at(p as int, h, w, m) == (row as int, column as int));
        }
        i0.push(hf * side + wf);
        i1.push(hf * side + wc);
        i2.push(hc * side + wf);
        i3.push(hc * side + wc);
        let hrest = Scalar::lit(ONE_BITS).minus(hfr.copy());
        let wrest = Scalar::lit(ONE_BITS).minus(wfr.copy());
        w0.push(hrest.copy().times(wrest.copy()));
        w1.push(hrest.times(wfr.copy()));
        w2.push(hfr.copy().times(wrest));
        w3.push(hfr.times(wfr));
        p += 1;
    }
    proof {
        assert(i0@ =~= corner_indices(0, t, h, w, side, m));
        assert(i1@ =~= corner_indices(1, t, h, w, side, m));
        assert(i2@ =~= corner_indices(2, t, h, w, side, m));
        assert(i3@ =~= corner_indices(3, t, h, w, side, m));
        assert(w0@ =~= corner_weights(0, t, h, w, side, m));
        assert(w1@ =~= corner_weights(1, t, h, w, side, m));
        assert(w2@ =~= corner_weights(2, t, h, w, side, m));
        assert(w3@ =~= corner_weights(3, t, h, w, side, m));
    }
    (vec![i0, i1, i2, i3], vec![w0, w1, w2, w3])
}

/// The frequency `i` of `r / 2`: `1 / theta ^ (2i / r)`.
pub open spec fn frequency(i: int, r: int) -> Scalar {
    Scalar::Quotient(
        Arc::new(lit(ONE_BITS)),
        Arc::new(
            Scalar::Power(
                Arc::new(lit(VISION_ROPE_THETA_BITS)),
                Arc::new(
                    Scalar::Quotient(
                        Arc::new(Scalar::Int((2 * i) as i32)),
                        Arc::new(Scalar::Int(r as i32)),
                    ),
                ),
            ),
        ),
    )
}

/// The angle by which feature `j` of a head of `d` features is turned: the first quarter of the
/// features by the row, the second by the column, and the second half like the first.
pub open spec fn angle(row: int, column: int, j: int, d: int) -> Scalar {
    let r = d / 2;
    let n = r / 2;
    let i = if j >= r {
        j - r
    } else {
        j
    };
    if i < n {
        Scalar::Product(Arc::new(Scalar::Int(row as i32)), Arc::new(frequency(i, r)))
    } else if i < 2 * n {
        Scalar::Product(Arc::new(Scalar::Int(column as i32)), Arc::new(frequency(i - n, r)))
    } else {
        lit(ZERO_BITS)
    }
}

/// The angle at place `k` of a table with a row of `d` features for every patch.
pub open spec fn table_angle(k: int, h: i32, w: i32, m: i32, d: i32) -> Scalar {
    let c = patch_at(k / (d as int), h, w, m);
    angle(c.0, c.1, k % (d as int), d as int)
}

/// The cosines of all angles.
pub open spec fn cosines(t: i32, h: i32, w: i32, m: i32, d: i32) -> Seq<Scalar> {
    Seq::new(
        grid_size(t, h, w, m) * (d as nat),
        |k: int| Scalar::Cosine(Arc::new(table_angle(k, h, w, m, d))),
    )
}

/// The sines of all angles.
pub open spec fn sines(t: i32, h: i32, w: i32, m: i32, d: i32) -> Seq<Scalar> {
    Seq::new(
        grid_size(t, h, w, m) * (d as nat),
        |k: int| Scalar::Sine(Arc::new(table_angle(k, h, w, m, d))),
    )
}

fn frequency_of(i: i32, r: i32) -> (s: Scalar)
    requires
        0 <= i,
        2 * i <= i32::MAX,
    ensures
        s == frequency(i as int, r as int),
{
    let exponent = Scalar::Int(2 * i).over(Scalar::Int(r));
    let power = Scalar::Power(
        Arc::new(Scalar::lit(VISION_ROPE_THETA_BITS)),
        Arc::new(exponent),
    );
    Scalar::lit(ONE_BITS).over(power)
}

fn angle_of(row: i32, column: i32, j: i32, d: i32) -> (s: Scalar)
    requires
        0 <= j < d,
    ensures
        s == angle(row as int, column as int, j as int, d as int),
{
    let r: i32 = d / 2;
    let n: i32 = r / 2;
    let i: i32 = if j >= r {
        j - r
    } else {
        j
    };
    if i < n {
        Scalar::Int(row).times(frequency_of(i, r))
    } else if i < 2 * n {
        Scalar::Int(column).times(frequency_of(i - n, r))
    } else {
        Scalar::lit(ZERO_BITS)
    }
}

/// The cosines and sines by which heads of `head_dim` features are turned, a row for every patch.
pub fn vision_rope_cos_sin(t: i32, h: i32, w: i32, m: i32, head_dim: i32) -> (r: (
    Vec<Scalar>,
    Vec<Scalar>,
))
    requires
        grid_fits(t, h, w),
        m != 0,
        head_dim >= 0,
    ensures
        r.0@ == cosines(t, h, w, m, head_dim),
        r.1@ == sines(t, h, w, m, head_dim),
{
    let layout = grid_layout(t, h, w, m);
    let ghost size = frame_size(h as int, w as int, m as int);
    let mut cos: Vec<Scalar> = Vec::new();
    let mut sin: Vec<Scalar> = Vec::new();
    let mut p: usize = 0;
    proof {
        assert(cos@ =~= cosines(t, h, w, m, head_dim).take(0));
        assert(sin@ =~= sines(t, h, w, m, head_dim).take(0));
    }
    while p < layout.len()
        invariant
            p <= layout@.len(),
            layout@.len() == grid_size(t, h, w, m),
            size == frame_size(h as int, w as int, m as int),
            head_dim >= 0,
            forall|q: int|
                0 <= q < layout@.len() ==> {
                    let c = cell(q % size, blocks(w as int, m as int), m as int);
                    (#[trigger] layout@[q]).0 == c.0 && layout@[q].1 == c.1
                },
            cos@ =~= cosines(t, h, w, m, head_dim).take(p * head_dim),
            sin@ =~= sines(t, h, w, m, head_dim).take(p * head_dim),
            0 <= p * head_dim <= grid_size(t, h, w, m) * (head_dim as nat),
        decreases layout@.len() - p,
    {
        let (row, column): (i32, i32) = layout[p];
        proof {
            assert(patch_at(p as int, h, w, m) == (row as int, column as int));
            assert((p + 1) * head_dim == p * head_dim + head_dim) by (nonlinear_arith);
            assert((p + 1) * head_dim <= grid_size(t, h, w, m) * (head_dim as nat))
                by (nonlinear_arith)
                requires
                    p + 1 <= grid_size(t, h, w, m),
                    head_dim >= 0,
            ;
        }
        let mut j: i32 = 0;
        while j < head_dim
            invariant
                0 <= j <= head_dim,
                0 <= p * head_dim,
                p * head_dim + head_dim <= grid_size(t, h, w, m) * (head_dim as nat),
                patch_at(p as int, h, w, m) == (row as int, column as int),
                cos@ =~= cosines(t, h, w, m, head_dim).take(p * head_dim + j),
                sin@ =~= sines(t, h, w, m, head_dim).take(p * head_dim + j),
            decreases head_dim - j,
        {
            let a = angle_of(row, column, j, head_dim);
            proof {
                let k = p * head_dim + j;
                let ps = p as int;
                let d = head_dim as int;
                assert(k == d * ps + j) by (nonlinear_arith)
                    requires
                        k == ps * d + j,
                ;
                vstd::arithmetic::div_mod::lemma_fundamental_div_mod_converse(
                    k,
                    d,
                    ps,
                    j as int,
                );
                assert(table_angle(k, h, w, m, head_dim) == a);
            }
            cos.push(Scalar::Cosine(Arc::new(a.copy())));
            sin.push(Scalar::Sine(Arc::new(a)));
            j += 1;
        }
        p += 1;
    }
    proof {
        assert(cos@ =~= cosines(t, h, w, m, head_dim));
        assert(sin@ =~= sines(t, h, w, m, head_dim));
    }
    (cos, sin)
}

/// The embedding of patches.
pub struct VisionPatchEmbed {
    pub proj: AnyLinear,
}

impl Parameters for VisionPatchEmbed {
    type Frame = LeafFrame;

    open spec fn frame(&self) -> LeafFrame {
        self.proj.frame()
    }

    open spec fn param(&self, key: Seq<char>) -> Option<Term> {
        if begins(key, "proj."@) {
            self.proj.param(key.skip("proj."@.len() as int))
        } else {
            None
        }
    }

    fn has_param(&self, key: &str) -> bool {
        match strip_prefix(key, "proj.") {
            Some(rest) => {
                return self.proj.has_param(rest);
            },
            None => {},
        }
        false
    }

    fn set_param(&mut self, key: &str, value: Array) -> bool {
        let ghost before = *self;
        match strip_prefix(key, "proj.") {
            Some(rest) => {
                let ghost v = value@;
                let done = self.proj.set_param(rest, value);
                proof {
                    lemma_part(before.proj, self.proj, key@, "proj."@, v, done);
                }
                return done;
            },
            None => {},
        }
        false
    }
}

/// A feed-forward layer.
pub struct VisionMlp {
    pub linear_fc1: AnyLinear,
    pub linear_fc2: AnyLinear,
}

impl VisionMlp {
    /// The layer applied to `x`.
    pub open spec fn apply(&self, x: Tn) -> Tn {
        t_linear(self.linear_fc2@, t_gelu_approximate(t_linear(self.linear_fc1@, x)))
    }

    /// Applies the layer.
    pub fn forward(&self, x: &Array) -> (r: Result<Array, Exception>)
        ensures
            tn(r) == self.apply(Ok(x@)),
    {
        let h = self.linear_fc1.forward(x)?.gelu_approximate()?;
        self.linear_fc2.forward(&h)
    }
}

impl Parameters for VisionMlp {
    type Frame = (LeafFrame, LeafFrame);

    open spec fn frame(&self) -> Self::Frame {
        (self.linear_fc1.frame(), self.linear_fc2.frame())
    }

    open spec fn param(&self, key: Seq<char>) -> Option<Term> {
        if begins(key, "linear_fc1."@) {
            self.linear_fc1.param(key.skip("linear_fc1."@.len() as int))
        } else if begins(key, "linear_fc2."@) {
            self.linear_fc2.param(key.skip("linear_fc2."@.len() as int))
        } else {
            None
        }
    }

    fn has_param(&self, key: &str) -> bool {
        match strip_prefix(key, "linear_fc1.") {
            Some(rest) => {
                return self.linear_fc1.has_param(rest);
            },
            None => {},
        }
        match strip_prefix(key, "linear_fc2.") {
            Some(rest) => {
                return self.linear_fc2.has_param(rest);
            },
            None => {},
        }
        false
    }

    fn set_param(&mut self, key: &str, value: Array) -> bool {
        let ghost before = *self;
        match strip_prefix(key, "linear_fc1.") {
            Some(rest) => {
                let ghost v = value@;
                let done = self.linear_fc1.set_param(rest, value);
                proof {
                    lemma_part(before.linear_fc1, self.linear_fc1, key@, "linear_fc1."@, v, done);
                }
                return done;
            },
            None => {},
        }
        match strip_prefix(key, "linear_fc2.") {
            Some(rest) => {
                let ghost v = value@;
                let done = self.linear_fc2.set_param(rest, value);
                proof {
                    lemma_part(before.linear_fc2, self.linear_fc2, key@, "linear_fc2."@, v, done);
                }
                return done;
            },
            None => {},
        }
        false
    }
}

/// `x` (`[seq, heads, features]`) turned: with its halves `a` and `b`, `x * cos + (-b, a) * sin`.
pub open spec fn turned(x: Tn, cos: Tn, sin: Tn) -> Tn {
    match x {
        Ok(t) => if t.shape.len() >= 3 && t.shape[2] >= 0 {
            let d = t.shape[2];
            let half = (d / 2) as i32;
            let swapped = t_concatenate(
                t_multiply(t_slice(x, 2, half, d), t_scalar(lit(MINUS_ONE_BITS))),
                t_slice(x, 2, 0, half),
                -1i32,
            );
            t_add(t_multiply(x, cos), t_multiply(swapped, sin))
        } else {
            Err(Exception::Operands)
        },
        Err(e) => Err(e),
    }
}

/// Turns heads by the given cosines and sines.
pub fn apply_rope(x: &Array, cos: &Array, sin: &Array) -> (r: Result<Array, Exception>)
    ensures
        tn(r) == turned(Ok(x@), Ok(cos@), Ok(sin@)),
{
    if x.ndim() < 3 || x.shape()[2] < 0 {
        return Err(Exception::Operands);
    }
    let d: i32 = x.shape()[2];
    let half: i32 = d / 2;
    let x1 = x.slice(2, 0, half)?;
    let x2 = x.slice(2, half, d)?;
    let minus = Array::from_scalar(Scalar::lit(MINUS_ONE_BITS));
    let swapped = concatenate_axis(&x2.multiply(&minus)?, &x1, -1)?;
    x.multiply(cos)?.add(&swapped.multiply(sin)?)
}

/// Attention on all patches of an image.
pub struct VisionAttention {
    pub qkv: AnyLinear,
    pub proj: AnyLinear,
    pub num_heads: i32,
    pub head_dim: i32,
    pub scale: Scalar,
}

/// The order of axes that swaps the first two of three.
pub open spec fn swap_first() -> Seq<i32> {
    seq![1i32, 0i32, 2i32]
}

/// The order of axes that swaps the last two of three.
pub open spec fn swap_last() -> Seq<i32> {
    seq![0i32, 2i32, 1i32]
}

fn swap_first_axes(x: &Array) -> (r: Result<Array, Exception>)
    ensures
        tn(r) == t_transpose(Ok(x@), swap_first()),
{
    let axes: Vec<i32> = vec![1, 0, 2];
    proof {
        assert(axes@ =~= swap_first());
    }
    x.transpose_axes(axes)
}

fn swap_last_axes(x: &Array) -> (r: Result<Array, Exception>)
    ensures
        tn(r) == t_transpose(Ok(x@), swap_last()),
{
    let axes: Vec<i32> = vec![0, 2, 1];
    proof {
        assert(axes@ =~= swap_last());
    }
    x.transpose_axes(axes)
}

impl VisionAttention {
    /// Whether the width of all heads fits.
    pub open spec fn wf(&self) -> bool {
        i32::MIN <= self.num_heads * self.head_dim <= i32::MAX
    }

    /// Queries (`i` is 0), keys (1) or values (2) of every head, in single precision.
    pub open spec fn headed(&self, x: Term, i: i32) -> Tn {
        t_cast(
            t_select(
                t_reshape(
                    t_linear(self.qkv@, Ok(x)),
                    seq![x.shape[0], 3i32, self.num_heads, self.head_dim],
                ),
                1,
                i,
            ),
            Dtype::Float32,
        )
    }

    /// A table with an axis for the heads.
    pub open spec fn spread(&self, x: Term, table: Term) -> Tn {
        t_reshape(Ok(table), seq![x.shape[0], 1i32, self.head_dim])
    }

    /// Heads turned by their places, before the patches.
    pub open spec fn placed(&self, x: Term, i: i32, cos: Term, sin: Term) -> Tn {
        t_transpose(
            turned(self.headed(x, i), self.spread(x, cos), self.spread(x, sin)),
            swap_first(),
        )
    }

    /// What every patch attends to, before the last projection.
    pub open spec fn attended(&self, x: Term, cos: Term, sin: Term) -> Tn {
        let keys = t_transpose(self.placed(x, 1, cos, sin), swap_last());
        let scores = t_multiply(
            t_matmul(self.placed(x, 0, cos, sin), keys),
            t_scalar(self.scale),
        );
        t_matmul(
            t_softmax(scores, -1i32, true),
            t_transpose(self.headed(x, 2), swap_first()),
        )
    }

    /// Attention on all patches.
    pub open spec fn apply(&self, x: Tn, cos: Term, sin: Term) -> Tn {
        match x {
            Ok(t) => if t.shape.len() >= 1 {
                t_linear(
                    self.proj@,
                    t_cast(
                        t_reshape(
                            t_transpose(self.attended(t, cos, sin), swap_first()),
                            seq![t.shape[0], (self.num_heads * self.head_dim) as i32],
                        ),
                        t.dtype,
                    ),
                )
            } else {
                Err(Exception::Operands)
            },
            Err(e) => Err(e),
        }
    }

    /// Attends on all patches. `x` is `[seq, hidden]`, `cos` and `sin` are `[seq, head_dim]`.
    pub fn forward(&self, x: &Array, cos: &Array, sin: &Array) -> (r: Result<Array, Exception>)
        requires
            self.wf(),
        ensures
            tn(r) == self.apply(Ok(x@), cos@, sin@),
    {
        if x.ndim() < 1 {
            return Err(Exception::Operands);
        }
        let seq: i32 = x.shape()[0];
        let four: Vec<i32> = vec![seq, 3, self.num_heads, self.head_dim];
        let table: Vec<i32> = vec![seq, 1, self.head_dim];
        let flat: Vec<i32> = vec![seq, self.num_heads * self.head_dim];
        proof {
            assert(four@ =~= seq![x@.shape[0], 3i32, self.num_heads, self.head_dim]);
            assert(table@ =~= seq![x@.shape[0], 1i32, self.head_dim]);
            assert(flat@ =~= seq![x@.shape[0], (self.num_heads * self.head_dim) as i32]);
        }
        let qkv = self.qkv.forward(x)?.reshape(&four)?;
        let q = qkv.select(1, 0)?.as_dtype(Dtype::Float32)?;
        let k = qkv.select(1, 1)?.as_dtype(Dtype::Float32)?;
        let v = qkv.select(1, 2)?.as_dtype(Dtype::Float32)?;
        let cos = cos.reshape(&table)?;
        let sin = sin.reshape(&table)?;
        let q = swap_first_axes(&apply_rope(&q, &cos, &sin)?)?;
        let k = swap_first_axes(&apply_rope(&k, &cos, &sin)?)?;
        let v = swap_first_axes(&v)?;
        let kt = swap_last_axes(&k)?;
        let scores = matmul(&q, &kt)?.multiply(&Array::from_scalar(self.scale.copy()))?;
        let probs = softmax_axis(&scores, -1, true)?;
        let out = matmul(&probs, &v)?;
        let out = swap_first_axes(&out)?.reshape(&flat)?.as_dtype(x.dtype())?;
        self.proj.forward(&out)
    }
}

impl Parameters for VisionAttention {
    type Frame = (LeafFrame, LeafFrame, i32, i32, Scalar);

    open spec fn frame(&self) -> Self::Frame {
        (self.qkv.frame(), self.proj.frame(), self.num_heads, self.head_dim, self.scale)
    }

    open spec fn param(&self, key: Seq<char>) -> Option<Term> {
        if begins(key, "qkv."@) {
            self.qkv.param(key.skip("qkv."@.len() as int))
        } else if begins(key, "proj."@) {
            self.proj.param(key.skip("proj."@.len() as int))
        } else {
            None
        }
    }

    fn has_param(&self, key: &str) -> bool {
        match strip_prefix(key, "qkv.") {
            Some(rest) => {
                return self.qkv.has_param(rest);
            },
            None => {},
        }
        match strip_prefix(key, "proj.") {
            Some(rest) => {
                return self.proj.has_param(rest);
            },
            None => {},
        }
        false
    }

    fn set_param(&mut self, key: &str, value: Array) -> bool {
        let ghost before = *self;
        match strip_prefix(key, "qkv.") {
            Some(rest) => {
                let ghost v = value@;
                let done = self.qkv.set_param(rest, value);
                proof {
                    lemma_part(before.qkv, self.qkv, key@, "qkv."@, v, done);
                }
                return done;
            },
            None => {},
        }
        match strip_prefix(key, "proj.") {
            Some(rest) => {
                let ghost v = value@;
                let done = self.proj.set_param(rest, value);
                proof {
                    lemma_part(before.proj, self.proj, key@, "proj."@, v, done);
                }
                return done;
            },
            None => {},
        }
        false
    }
}

/// A block: attention and feed-forward, each on normalized states and added to what came in.
pub struct VisionBlock {
    pub norm1: LayerNorm,
    pub norm2: LayerNorm,
    pub attn: VisionAttention,
    pub mlp: VisionMlp,
}

impl VisionBlock {
    /// The block applied to `x`.
    pub open spec fn apply(&self, x: Tn, cos: Term, sin: Term) -> Tn {
        let h = t_add(x, self.attn.apply(self.norm1.apply(x), cos, sin));
        t_add(h, self.mlp.apply(self.norm2.apply(h)))
    }

    /// Runs the block.
    pub fn forward(&self, x: &Array, cos: &Array, sin: &Array) -> (r: Result<Array, Exception>)
        requires
            self.attn.wf(),
        ensures
            tn(r) == self.apply(Ok(x@), cos@, sin@),
    {
        let a = self.attn.forward(&self.norm1.forward(x)?, cos, sin)?;
        let h = x.add(&a)?;
        let m = self.mlp.forward(&self.norm2.forward(&h)?)?;
        h.add(&m)
    }
}

impl Parameters for VisionBlock {
    type Frame = (
        <LayerNorm as Parameters>::Frame,
        <LayerNorm as Parameters>::Frame,
        <VisionAttention as Parameters>::Frame,
        <VisionMlp as Parameters>::Frame,
    );

    open spec fn frame(&self) -> Self::Frame {
        (self.norm1.frame(), self.norm2.frame(), self.attn.frame(), self.mlp.frame())
    }

    open spec fn param(&self, key: Seq<char>) -> Option<Term> {
        if begins(key, "norm1."@) {
            self.norm1.param(key.skip("norm1."@.len() as int))
        } else if begins(key, "norm2."@) {
            self.norm2.param(key.skip("norm2."@.len() as int))
        } else if begins(key, "attn."@) {
            self.attn.param(key.skip("attn."@.len() as int))
        } else if begins(key, "mlp."@) {
            self.mlp.param(key.skip("mlp."@.len() as int))
        } else {
            None
        }
    }

    fn has_param(&self, key: &str) -> bool {
        match strip_prefix(key, "norm1.") {
            Some(rest) => {
                return self.norm1.has_param(rest);
            },
            None => {},
        }
        match strip_prefix(key, "norm2.") {
            Some(rest) => {
                return self.norm2.has_param(rest);
            },
            None => {},
        }
        match strip_prefix(key, "attn.") {
            Some(rest) => {
                return self.attn.has_param(rest);
            },
            None => {},
        }
        match strip_prefix(key, "mlp.") {
            Some(rest) => {
                return self.mlp.has_param(rest);
            },
            None => {},
        }
        false
    }

    fn set_param(&mut self, key: &str, value: Array) -> bool {
        let ghost before = *self;
        match strip_prefix(key, "norm1.") {
            Some(rest) => {
                let ghost v = value@;
                let done = self.norm1.set_param(rest, value);
                proof {
                    lemma_part(before.norm1, self.norm1, key@, "norm1."@, v, done);
                }
                return done;
            },
            None => {},
        }
        match strip_prefix(key, "norm2.") {
            Some(rest) => {
                let ghost v = value@;
                let done = self.norm2.set_param(rest, value);
                proof {
                    lemma_part(before.norm2, self.norm2, key@, "norm2."@, v, done);
                }
                return done;
            },
            None => {},
        }
        match strip_prefix(key, "attn.") {
            Some(rest) => {
                let ghost v = value@;
                let done = self.attn.set_param(rest, value);
                proof {
                    lemma_part(before.attn, self.attn, key@, "attn."@, v, done);
                }
                return done;
            },
            None => {},
        }
        match strip_prefix(key, "mlp.") {
            Some(rest) => {
                let ghost v = value@;
                let done = self.mlp.set_param(rest, value);
                proof {
                    lemma_part(before.mlp, self.mlp, key@, "mlp."@, v, done);
                }
                return done;
            },
            None => {},
        }
        false
    }
}

/// The merging of squares of patches into tokens.
pub struct VisionPatchMerger {
    pub norm: LayerNorm,
    pub linear_fc1: AnyLinear,
    pub linear_fc2: AnyLinear,
    pub merged_dim: i32,
}

impl VisionPatchMerger {
    /// The tokens of patches: every patch is normalized, then the patches of a square are laid
    /// side by side.
    pub open spec fn apply(&self, x: Tn) -> Tn {
        t_linear(
            self.linear_fc2@,
            t_gelu(
                t_linear(
                    self.linear_fc1@,
                    t_reshape(self.norm.apply(x), seq![-1i32, self.merged_dim]),
                ),
            ),
        )
    }

    /// Merges patches.
    pub fn forward(&self, x: &Array) -> (r: Result<Array, Exception>)
        ensures
            tn(r) == self.apply(Ok(x@)),
    {
        let shape: Vec<i32> = vec![-1, self.merged_dim];
        proof {
            assert(shape@ =~= seq![-1i32, self.merged_dim]);
        }
        let x = self.norm.forward(x)?.reshape(&shape)?;
        let x = self.linear_fc1.forward(&x)?.gelu()?;
        self.linear_fc2.forward(&x)
    }
}

impl Parameters for VisionPatchMerger {
    type Frame = (<LayerNorm as Parameters>::Frame, LeafFrame, LeafFrame, i32);

    open spec fn frame(&self) -> Self::Frame {
        (self.norm.frame(), self.linear_fc1.frame(), self.linear_fc2.frame(), self.merged_dim)
    }

    open spec fn param(&self, key: Seq<char>) -> Option<Term> {
        if begins(key, "norm."@) {
            self.norm.param(key.skip("norm."@.len() as int))
        } else if begins(key, "linear_fc1."@) {
            self.linear_fc1.param(key.skip("linear_fc1."@.len() as int))
        } else if begins(key, "linear_fc2."@) {
            self.linear_fc2.param(key.skip("linear_fc2."@.len() as int))
        } else {
            None
        }
    }

    fn has_param(&self, key: &str) -> bool {
        match strip_prefix(key, "norm.") {
            Some(rest) => {
                return self.norm.has_param(rest);
            },
            None => {},
        }
        match strip_prefix(key, "linear_fc1.") {
            Some(rest) => {
                return self.linear_fc1.has_param(rest);
            },
            None => {},
        }
        match strip_prefix(key, "linear_fc2.") {
            Some(rest) => {
                return self.linear_fc2.has_param(rest);
            },
            None => {},
        }
        false
    }

    fn set_param(&mut self, key: &str, value: Array) -> bool {
        let ghost before = *self;
        match strip_prefix(key, "norm.") {
            Some(rest) => {
                let ghost v = value@;
                let done = self.norm.set_param(rest, value);
                proof {
                    lemma_part(before.norm, self.norm, key@, "norm."@, v, done);
                }
                return done;
            },
            None => {},
        }
        match strip_prefix(key, "linear_fc1.") {
            Some(rest) => {
                let ghost v = value@;
                let done = self.linear_fc1.set_param(rest, value);
                proof {
                    lemma_part(before.linear_fc1, self.linear_fc1, key@, "linear_fc1."@, v, done);
                }
                return done;
            },
            None => {},
        }
        match strip_prefix(key, "linear_fc2.") {
            Some(rest) => {
                let ghost v = value@;
                let done = self.linear_fc2.set_param(rest, value);
                proof {
                    lemma_part(before.linear_fc2, self.linear_fc2, key@, "linear_fc2."@, v, done);
                }
                return done;
            },
            None => {},
        }
        false
    }
}

/// The tower.
pub struct VisionModel {
    pub patch_embed: VisionPatchEmbed,
    pub pos_embed: AnyEmbedding,
    pub blocks: Vec<VisionBlock>,
    pub merger: VisionPatchMerger,
    pub spatial_merge_size: i32,
    pub num_grid_per_side: i32,
    pub head_dim: i32,
}

/// The number of numbers in a patch.
pub open spec fn patch_numbers(cfg: &VisionConfig) -> int {
    cfg.in_channels * cfg.temporal_patch_size * cfg.patch_size * cfg.patch_size
}

/// The number of features of a square of patches.
pub open spec fn merged_features(cfg: &VisionConfig) -> int {
    cfg.hidden_size * cfg.spatial_merge_size * cfg.spatial_merge_size
}

/// Whether the sizes of a tower are in range.
pub open spec fn tower_fits(cfg: &VisionConfig) -> bool {
    &&& cfg.num_heads > 0
    &&& cfg.hidden_size >= 0
    &&& i32::MIN <= cfg.in_channels * cfg.temporal_patch_size <= i32::MAX
    &&& i32::MIN <= cfg.in_channels * cfg.temporal_patch_size * cfg.patch_size <= i32::MAX
    &&& i32::MIN <= patch_numbers(cfg) <= i32::MAX
    &&& i32::MIN <= cfg.hidden_size * cfg.spatial_merge_size <= i32::MAX
    &&& i32::MIN <= merged_features(cfg) <= i32::MAX
    &&& cfg.hidden_size * 3 <= i32::MAX
}

/// The largest whole number whose square is not above `n`; zero for negative `n`.
pub open spec fn is_root(r: int, n: int) -> bool {
    if n < 0 {
        r == 0
    } else {
        0 <= r && r * r <= n < (r + 1) * (r + 1)
    }
}

/// Computes the whole part of a square root.
pub fn whole_root(n: i32) -> (r: i32)
    ensures
        is_root(r as int, n as int),
        0 <= r <= 46340,
{
    if n < 0 {
        return 0;
    }
    let mut r: i32 = 0;
    while r < 46340 && (r + 1) * (r + 1) <= n
        invariant
            0 <= r <= 46340,
            r * r <= n,
            0 <= n,
            r < 46340 ==> (r + 1) * (r + 1) <= 46340 * 46340,
        decreases 46340 - r,
    {
        r += 1;
        proof {
            if r < 46340 {
                assert((r + 1) * (r + 1) <= 46340 * 46340) by (nonlinear_arith)
                    requires
                        0 <= r,
                        r + 1 <= 46340,
                ;
            }
        }
    }
    proof {
        if r == 46340 {
            assert((r + 1) * (r + 1) == 46341 * 46341);
        }
    }
    r
}

/// A fresh layer with a bias.
pub open spec fn biased(l: AnyLinear, input: i32, output: i32) -> bool {
    linear_built(Ok(l@), input, output, true)
}

/// Whether a layer with a bias cannot be built.
pub open spec fn no_biased(input: i32, output: i32, e: Exception) -> bool {
    linear_built(Err(e), input, output, true)
}

impl VisionBlock {
    /// Whether this is a fresh block.
    pub open spec fn is_fresh(&self, cfg: &VisionConfig) -> bool {
        let h = cfg.hidden_size;
        let d = (h / cfg.num_heads) as i32;
        &&& self.norm1.is_fresh(h, lit(NORM_EPS_BITS))
        &&& self.norm2.is_fresh(h, lit(NORM_EPS_BITS))
        &&& biased(self.attn.qkv, h, (h * 3) as i32)
        &&& biased(self.attn.proj, h, h)
        &&& self.attn.num_heads == cfg.num_heads
        &&& self.attn.head_dim == d
        &&& self.attn.scale == power_minus_half(d)
        &&& biased(self.mlp.linear_fc1, h, cfg.intermediate_size)
        &&& biased(self.mlp.linear_fc2, cfg.intermediate_size, h)
    }

    /// Whether a block cannot be built.
    pub open spec fn cannot_build(cfg: &VisionConfig, e: Exception) -> bool {
        let h = cfg.hidden_size;
        ||| t_ones(seq![h], Dtype::Float32) == Err::<Term, Exception>(e)
        ||| no_biased(h, (h * 3) as i32, e)
        ||| no_biased(h, h, e)
        ||| no_biased(h, cfg.intermediate_size, e)
        ||| no_biased(cfg.intermediate_size, h, e)
    }

    /// A fresh block.
    pub fn new(cfg: &VisionConfig) -> (r: Result<VisionBlock, Exception>)
        requires
            tower_fits(cfg),
        ensures
            match r {
                Ok(b) => b.is_fresh(cfg) && b.attn.wf(),
                Err(e) => VisionBlock::cannot_build(cfg, e),
            },
    {
        let h: i32 = cfg.hidden_size;
        let head_dim: i32 = h / cfg.num_heads;
        proof {
            let n = cfg.num_heads as int;
            vstd::arithmetic::div_mod::lemma_fundamental_div_mod(h as int, n);
            vstd::arithmetic::div_mod::lemma_mod_bound(h as int, n);
            vstd::arithmetic::div_mod::lemma_div_pos_is_pos(h as int, n);
            assert(0 <= n * head_dim <= h) by (nonlinear_arith)
                requires
                    h as int == n * head_dim + (h as int % n),
                    0 <= h as int % n,
                    n > 0,
                    head_dim >= 0,
            ;
        }
        let norm1 = LayerNorm::new(h, Scalar::lit(NORM_EPS_BITS))?;
        let norm2 = LayerNorm::new(h, Scalar::lit(NORM_EPS_BITS))?;
        let qkv = AnyLinear::linear(h, h * 3, true)?;
        let proj = AnyLinear::linear(h, h, true)?;
        let linear_fc1 = AnyLinear::linear(h, cfg.intermediate_size, true)?;
        let linear_fc2 = AnyLinear::linear(cfg.intermediate_size, h, true)?;
        Ok(
            VisionBlock {
                norm1,
                norm2,
                attn: VisionAttention {
                    qkv,
                    proj,
                    num_heads: cfg.num_heads,
                    head_dim,
                    scale: power_minus_half_of(head_dim),
                },
                mlp: VisionMlp { linear_fc1, linear_fc2 },
            },
        )
    }
}

/// The blocks applied one after the other.
pub open spec fn run_blocks(blocks: Seq<VisionBlock>, x: Tn, cos: Term, sin: Term, n: nat) -> Tn
    decreases n,
{
    if n == 0 {
        x
    } else {
        blocks[n - 1].apply(run_blocks(blocks, x, cos, sin, (n - 1) as nat), cos, sin)
    }
}

proof fn lemma_blocks_fail(
    blocks: Seq<VisionBlock>,
    x: Tn,
    cos: Term,
    sin: Term,
    k: nat,
    n: nat,
    e: Exception,
)
    requires
        k <= n,
        run_blocks(blocks, x, cos, sin, k) == Err::<Term, Exception>(e),
    ensures
        run_blocks(blocks, x, cos, sin, n) == Err::<Term, Exception>(e),
    decreases n,
{
    if k < n {
        lemma_blocks_fail(blocks, x, cos, sin, k, (n - 1) as nat, e);
    }
}

fn forward_blocks(blocks: &Vec<VisionBlock>, x: Array, cos: &Array, sin: &Array) -> (r: Result<
    Array,
    Exception,
>)
    requires
        forall|i: int| 0 <= i < blocks@.len() ==> (#[trigger] blocks@[i]).attn.wf(),
    ensures
        tn(r) == run_blocks(blocks@, Ok(x@), cos@, sin@, blocks@.len()),
{
    let mut h = x.share();
    let mut i: usize = 0;
    while i < blocks.len()
        invariant
            forall|i: int| 0 <= i < blocks@.len() ==> (#[trigger] blocks@[i]).attn.wf(),
            i <= blocks@.len(),
            run_blocks(blocks@, Ok(x@), cos@, sin@, i as nat) == Ok::<Term, Exception>(h@),
        decreases blocks@.len() - i,
    {
        let y = blocks[i].forward(&h, cos, sin);
        proof {
            assert(run_blocks(blocks@, Ok(x@), cos@, sin@, (i + 1) as nat) == tn(y));
            match y {
                Ok(_) => {},
                Err(e) => {
                    lemma_blocks_fail(
                        blocks@,
                        Ok(x@),
                        cos@,
                        sin@,
                        (i + 1) as nat,
                        blocks@.len(),
                        e,
                    );
                },
            }
        }
        h = y?;
        i += 1;
    }
    Ok(h)
}

impl VisionModel {
    /// Whether the tower can run: the blocks have sizes in range, there is a grid of learned
    /// positions, and squares have a side.
    pub open spec fn wf(&self) -> bool {
        &&& forall|i: int| 0 <= i < self.blocks@.len() ==> (#[trigger] self.blocks@[i]).attn.wf()
        &&& 1 <= self.num_grid_per_side <= 46340
        &&& self.spatial_merge_size != 0
        &&& self.head_dim >= 0
    }

    /// Whether this is a fresh tower.
    pub open spec fn is_fresh(&self, cfg: &VisionConfig) -> bool {
        let h = cfg.hidden_size;
        let merged = merged_features(cfg) as i32;
        &&& biased(self.patch_embed.proj, patch_numbers(cfg) as i32, h)
        &&& table_built(Ok(self.pos_embed@), cfg.num_position_embeddings, h)
        &&& self.blocks@.len() == layer_count(cfg.depth)
        &&& forall|i: int|
            0 <= i < self.blocks@.len() ==> (#[trigger] self.blocks@[i]).is_fresh(cfg)
        &&& self.merger.norm.is_fresh(h, lit(NORM_EPS_BITS))
        &&& biased(self.merger.linear_fc1, merged, merged)
        &&& biased(self.merger.linear_fc2, merged, cfg.out_hidden_size)
        &&& self.merger.merged_dim == merged
        &&& self.spatial_merge_size == cfg.spatial_merge_size
        &&& is_root(self.num_grid_per_side as int, cfg.num_position_embeddings as int)
        &&& self.head_dim == h / cfg.num_heads
    }

    /// Whether a tower cannot be built.
    pub open spec fn cannot_build(cfg: &VisionConfig, e: Exception) -> bool {
        let h = cfg.hidden_size;
        let merged = merged_features(cfg) as i32;
        ||| no_biased(patch_numbers(cfg) as i32, h, e)
        ||| table_built(Err(e), cfg.num_position_embeddings, h)
        ||| cfg.depth > 0 && VisionBlock::cannot_build(cfg, e)
        ||| t_ones(seq![h], Dtype::Float32) == Err::<Term, Exception>(e)
        ||| no_biased(merged, merged, e)
        ||| no_biased(merged, cfg.out_hidden_size, e)
    }

    /// A fresh tower.
    pub fn new(cfg: &VisionConfig) -> (r: Result<VisionModel, Exception>)
        requires
            tower_fits(cfg),
        ensures
            match r {
                Ok(m) => {
                    &&& m.is_fresh(cfg)
                    &&& cfg.num_position_embeddings >= 1 && cfg.spatial_merge_size != 0 ==> m.wf()
                },
                Err(e) => VisionModel::cannot_build(cfg, e),
            },
    {
        let h: i32 = cfg.hidden_size;
        let head_dim: i32 = h / cfg.num_heads;
        let patch_in: i32 = cfg.in_channels * cfg.temporal_patch_size * cfg.patch_size
            * cfg.patch_size;
        let merged_dim: i32 = h * cfg.spatial_merge_size * cfg.spatial_merge_size;
        let patch_embed = VisionPatchEmbed { proj: AnyLinear::linear(patch_in, h, true)? };
        let pos_embed = AnyEmbedding::embedding(cfg.num_position_embeddings, h)?;
        let mut blocks: Vec<VisionBlock> = Vec::new();
        let mut i: i32 = 0;
        while i < cfg.depth
            invariant
                0 <= i,
                i <= cfg.depth || i == 0,
                tower_fits(cfg),
                blocks@.len() == i,
                forall|j: int|
                    0 <= j < i ==> (#[trigger] blocks@[j]).is_fresh(cfg) && blocks@[j].attn.wf(),
            decreases cfg.depth - i,
        {
            blocks.push(VisionBlock::new(cfg)?);
            i += 1;
        }
        let norm = LayerNorm::new(h, Scalar::lit(NORM_EPS_BITS))?;
        let linear_fc1 = AnyLinear::linear(merged_dim, merged_dim, true)?;
        let linear_fc2 = AnyLinear::linear(merged_dim, cfg.out_hidden_size, true)?;
        let side: i32 = whole_root(cfg.num_position_embeddings);
        proof {
            vstd::arithmetic::div_mod::lemma_div_pos_is_pos(h as int, cfg.num_heads as int);
            if cfg.num_position_embeddings >= 1 && side == 0 {
                assert((side + 1) * (side + 1) == 1) by (nonlinear_arith)
                    requires
                        side == 0,
                ;
            }
        }
        Ok(
            VisionModel {
                patch_embed,
                pos_embed,
                blocks,
                merger: VisionPatchMerger { norm, linear_fc1, linear_fc2, merged_dim },
                spatial_merge_size: cfg.spatial_merge_size,
                num_grid_per_side: side,
                head_dim,
            },
        )
    }

    /// The learned positions at corner `k` of every patch, by their weights.
    pub open spec fn corner(&self, k: int, t: i32, h: i32, w: i32) -> Tn {
        let side = self.num_grid_per_side;
        let m = self.spatial_merge_size;
        let n = (t * h * w) as i32;
        match t_integers(corner_indices(k, t, h, w, side, m), seq![n], Dtype::Int32) {
            Ok(idx) => t_multiply(
                t_cast(t_embed(self.pos_embed@, idx), Dtype::Float32),
                t_constants(corner_weights(k, t, h, w, side, m), seq![n, 1i32]),
            ),
            Err(e) => Err(e),
        }
    }

    /// The learned positions of every patch.
    pub open spec fn positions(&self, t: i32, h: i32, w: i32) -> Tn {
        t_add(
            t_add(t_add(self.corner(0, t, h, w), self.corner(1, t, h, w)), self.corner(2, t, h, w)),
            self.corner(3, t, h, w),
        )
    }

    /// The embedded patches with their positions.
    pub open spec fn embedded(&self, pixels: Term, t: i32, h: i32, w: i32) -> Tn {
        match t_linear(self.patch_embed.proj@, t_cast(Ok(pixels), Dtype::Bfloat16)) {
            Ok(x) => t_add(Ok(x), t_cast(self.positions(t, h, w), x.dtype)),
            Err(e) => Err(e),
        }
    }

    /// The tokens of an image.
    pub open spec fn run(&self, pixels: Term, t: i32, h: i32, w: i32) -> Tn {
        let m = self.spatial_merge_size;
        let n = (t * h * w) as i32;
        let d = self.head_dim;
        match (
            self.embedded(pixels, t, h, w),
            t_constants(cosines(t, h, w, m, d), seq![n, d]),
            t_constants(sines(t, h, w, m, d), seq![n, d]),
        ) {
            (Ok(x), Ok(cos), Ok(sin)) => self.merger.apply(
                run_blocks(self.blocks@, Ok(x), cos, sin, self.blocks@.len()),
            ),
            _ => Err(Exception::Operands),
        }
    }

    fn embed_corner(&self, idx: Vec<i32>, wt: Vec<Scalar>, n: i32) -> (r: Result<Array, Exception>)
        ensures
            tn(r) == match t_integers(idx@, seq![n], Dtype::Int32) {
                Ok(i) => t_multiply(
                    t_cast(t_embed(self.pos_embed@, i), Dtype::Float32),
                    t_constants(wt@, seq![n, 1i32]),
                ),
                Err(e) => Err(e),
            },
    {
        let row: Vec<i32> = vec![n];
        let column: Vec<i32> = vec![n, 1];
        proof {
            assert(row@ =~= seq![n]);
            assert(column@ =~= seq![n, 1i32]);
        }
        let idx = Array::integers(idx, row, Dtype::Int32)?;
        let emb = self.pos_embed.forward(&idx)?.as_dtype(Dtype::Float32)?;
        let wt = Array::constants(wt, column)?;
        emb.multiply(&wt)
    }

    fn embed(&self, pixels: &Array, t: i32, h: i32, w: i32) -> (r: Result<Array, Exception>)
        requires
            self.wf(),
            grid_fits(t, h, w),
        ensures
            tn(r) == self.embedded(pixels@, t, h, w),
    {
        let n: i32 = patches(t, h, w);
        let x = self.patch_embed.proj.forward(&pixels.as_dtype(Dtype::Bfloat16)?)?;
        let side: i32 = self.num_grid_per_side;
        proof {
            assert(side * side <= i32::MAX) by (nonlinear_arith)
                requires
                    1 <= side <= 46340,
            ;
        }
        let (mut idx, mut wt) = bilinear_indices_and_weights(
            t,
            h,
            w,
            side,
            self.spatial_merge_size,
        );
        let (i3, w3) = (idx.remove(3), wt.remove(3));
        let (i2, w2) = (idx.remove(2), wt.remove(2));
        let (i1, w1) = (idx.remove(1), wt.remove(1));
        let (i0, w0) = (idx.remove(0), wt.remove(0));
        let pos = self.embed_corner(i0, w0, n)?;
        let pos = pos.add(&self.embed_corner(i1, w1, n)?)?;
        let pos = pos.add(&self.embed_corner(i2, w2, n)?)?;
        let pos = pos.add(&self.embed_corner(i3, w3, n)?)?;
        x.add(&pos.as_dtype(x.dtype())?)
    }

    /// The tokens of one image. `pixel_values` is `[seq, numbers]`, the patches square by square;
    /// `grid_thw` counts the patches of the image in time, height and width.
    pub fn forward(&self, pixel_values: &Array, grid_thw: (i32, i32, i32)) -> (r: Result<
        Array,
        Exception,
    >)
        requires
            self.wf(),
            grid_fits(grid_thw.0, grid_thw.1, grid_thw.2),
        ensures
            tn(r) == self.run(pixel_values@, grid_thw.0, grid_thw.1, grid_thw.2),
    {
        let (t, h, w): (i32, i32, i32) = grid_thw;
        let n: i32 = patches(t, h, w);
        let hidden = self.embed(pixel_values, t, h, w)?;
        let (cos, sin) = vision_rope_cos_sin(t, h, w, self.spatial_merge_size, self.head_dim);
        let shape: Vec<i32> = vec![n, self.head_dim];
        let shape2: Vec<i32> = vec![n, self.head_dim];
        proof {
            assert(shape@ =~= seq![n, self.head_dim]);
            assert(shape2@ =~= seq![n, self.head_dim]);
        }
        let cos = Array::constants(cos, shape)?;
        let sin = Array::constants(sin, shape2)?;
        let x = forward_blocks(&self.blocks, hidden, &cos, &sin)?;
        self.merger.forward(&x)
    }
}

impl Parameters for VisionModel {
    type Frame = (
        <VisionPatchEmbed as Parameters>::Frame,
        LeafFrame,
        <Vec<VisionBlock> as Parameters>::Frame,
        <VisionPatchMerger as Parameters>::Frame,
        i32,
        i32,
        i32,
    );

    open spec fn frame(&self) -> Self::Frame {
        (
            self.patch_embed.frame(),
            self.pos_embed.frame(),
            self.blocks.frame(),
            self.merger.frame(),
            self.spatial_merge_size,
            self.num_grid_per_side,
            self.head_dim,
        )
    }

    open spec fn param(&self, key: Seq<char>) -> Option<Term> {
        if begins(key, "patch_embed."@) {
            self.patch_embed.param(key.skip("patch_embed."@.len() as int))
        } else if begins(key, "pos_embed."@) {
            self.pos_embed.param(key.skip("pos_embed."@.len() as int))
        } else if begins(key, "blocks."@) {
            self.blocks.param(key.skip("blocks."@.len() as int))
        } else if begins(key, "merger."@) {
            self.merger.param(key.skip("merger."@.len() as int))
        } else {
            None
        }
    }

    fn has_param(&self, key: &str) -> bool {
        match strip_prefix(key, "patch_embed.") {
            Some(rest) => {
                return self.patch_embed.has_param(rest);
            },
            None => {},
        }
        match strip_prefix(key, "pos_embed.") {
            Some(rest) => {
                return self.pos_embed.has_param(rest);
            },
            None => {},
        }
        match strip_prefix(key, "blocks.") {
            Some(rest) => {
                return self.blocks.has_param(rest);
            },
            None => {},
        }
        match strip_prefix(key, "merger.") {
            Some(rest) => {
                return self.merger.has_param(rest);
            },
            None => {},
        }
        false
    }

    fn set_param(&mut self, key: &str, value: Array) -> bool {
        let ghost before = *self;
        match strip_prefix(key, "patch_embed.") {
            Some(rest) => {
                let ghost v = value@;
                let done = self.patch_embed.set_param(rest, value);
                proof {
                    lemma_part(
                        before.patch_embed,
                        self.patch_embed,
                        key@,
                        "patch_embed."@,
                        v,
                        done,
                    );
                }
                return done;
            },
            None => {},
        }
        match strip_prefix(key, "pos_embed.") {
            Some(rest) => {
                let ghost v = value@;
                let done = self.pos_embed.set_param(rest, value);
                proof {
                    lemma_part(before.pos_embed, self.pos_embed, key@, "pos_embed."@, v, done);
                }
                return done;
            },
            None => {},
        }
        match strip_prefix(key, "blocks.") {
            Some(rest) => {
                let ghost v = value@;
                let done = self.blocks.set_param(rest, value);
                proof {
                    lemma_part(before.blocks, self.blocks, key@, "blocks."@, v, done);
                }
                return done;
            },
            None => {},
        }
        match strip_prefix(key, "merger.") {
            Some(rest) => {
                let ghost v = value@;
                let done = self.merger.set_param(rest, value);
                proof {
                    lemma_part(before.merger, self.merger, key@, "merger."@, v, done);
                }
                return done;
            },
            None => {},
        }
        false
    }
}

/// The weight of the patch embedding as a matrix: a kernel of five axes, channels last, becomes one
/// row for every output with the channels first.
pub open spec fn patch_weight(name: Seq<char>, value: Term, patch_in: i32) -> Tn {
    if name == "patch_embed.proj.weight"@ && value.shape.len() == 5 {
        t_reshape(
            t_transpose(Ok(value), seq![0i32, 4i32, 1i32, 2i32, 3i32]),
            seq![value.shape[0], patch_in],
        )
    } else {
        Ok(value)
    }
}

/// The weights of the tower in a checkpoint, under their names in the tower.
pub open spec fn tower_entries(e: Seq<(Seq<char>, Term)>, patch_in: i32) -> Result<
    Seq<(Seq<char>, Term)>,
    Exception,
>
    decreases e.len(),
{
    if e.len() == 0 {
        Ok(seq![])
    } else {
        match tower_entries(e.drop_last(), patch_in) {
            Ok(front) => if begins(e.last().0, "vision_tower."@) {
                let name = e.last().0.skip("vision_tower."@.len() as int);
                match patch_weight(name, e.last().1, patch_in) {
                    Ok(v) => Ok(front.push((name, v))),
                    Err(x) => Err(x),
                }
            } else {
                Ok(front)
            },
            Err(x) => Err(x),
        }
    }
}

proof fn lemma_tower_fails(e: Seq<(Seq<char>, Term)>, patch_in: i32, n: int)
    requires
        0 <= n <= e.len(),
        tower_entries(e.take(n), patch_in) is Err,
    ensures
        tower_entries(e, patch_in) == tower_entries(e.take(n), patch_in),
    decreases e.len() - n,
{
    if n < e.len() {
        assert(e.take(n + 1).drop_last() =~= e.take(n));
        lemma_tower_fails(e, patch_in, n + 1);
    } else {
        assert(e.take(n) =~= e);
    }
}

fn fix_patch_weight(name: &str, value: &Array, patch_in: i32) -> (r: Result<Array, Exception>)
    ensures
        tn(r) == patch_weight(name@, value@, patch_in),
{
    if same_text(name, "patch_embed.proj.weight") && value.ndim() == 5 {
        let axes: Vec<i32> = vec![0, 4, 1, 2, 3];
        let shape: Vec<i32> = vec![value.shape()[0], patch_in];
        proof {
            assert(axes@ =~= seq![0i32, 4i32, 1i32, 2i32, 3i32]);
            assert(shape@ =~= seq![value@.shape[0], patch_in]);
        }
        value.transpose_axes(axes)?.reshape(&shape)
    } else {
        Ok(value.share())
    }
}

/// Picks the weights of the tower out of a checkpoint.
pub fn tower_weights(loaded: &Vec<(String, Array)>, patch_in: i32) -> (r: Result<
    Vec<(String, Array)>,
    Exception,
>)
    ensures
        entries_outcome(r) == tower_entries(entries(loaded@), patch_in),
{
    let ghost all = entries(loaded@);
    let mut out: Vec<(String, Array)> = Vec::new();
    let mut i: usize = 0;
    proof {
        assert(all.take(0) =~= seq![]);
        assert(entries(out@) =~= seq![]);
    }
    while i < loaded.len()
        invariant
            i <= loaded.len(),
            all == entries(loaded@),
            tower_entries(all.take(i as int), patch_in) == Ok::<_, Exception>(entries(out@)),
        decreases loaded.len() - i,
    {
        let key: &str = loaded[i].0.as_str();
        proof {
            assert(all.take(i + 1).drop_last() =~= all.take(i as int));
            assert(all.take(i + 1).last() == (key@, loaded@[i as int].1@));
        }
        match strip_prefix(key, "vision_tower.") {
            Some(name) => {
                let value = fix_patch_weight(name, &loaded[i].1, patch_in);
                proof {
                    if value is Err {
                        lemma_tower_fails(all, patch_in, i + 1);
                    }
                }
                let value = value?;
                let ghost before = entries(out@);
                out.push((String::from_str(name), value));
                proof {
                    assert(entries(out@) =~= before.push((name@, value@)));
                }
            },
            None => {},
        }
        i += 1;
    }
    proof {
        assert(all.take(i as int) =~= all);
    }
    Ok(out)
}

/// The weights of the tower in the files of a checkpoint.
pub open spec fn tower_files(files: Seq<Seq<(Seq<char>, Term)>>, patch_in: i32) -> Result<
    Seq<Seq<(Seq<char>, Term)>>,
    Exception,
>
    decreases files.len(),
{
    if files.len() == 0 {
        Ok(seq![])
    } else {
        match (tower_files(files.drop_last(), patch_in), tower_entries(files.last(), patch_in)) {
            (Ok(front), Ok(e)) => Ok(front.push(e)),
            (Err(x), _) => Err(x),
            (Ok(_), Err(x)) => Err(x),
        }
    }
}

proof fn lemma_files_fail(files: Seq<Seq<(Seq<char>, Term)>>, patch_in: i32, n: int)
    requires
        0 <= n <= files.len(),
        tower_files(files.take(n), patch_in) is Err,
    ensures
        tower_files(files, patch_in) == tower_files(files.take(n), patch_in),
    decreases files.len() - n,
{
    if n < files.len() {
        assert(files.take(n + 1).drop_last() =~= files.take(n));
        lemma_files_fail(files, patch_in, n + 1);
    } else {
        assert(files.take(n) =~= files);
    }
}

/// Picks the weights of the tower out of the files of a checkpoint.
fn pick_tower_files(files: &Vec<Vec<(String, Array)>>, patch_in: i32) -> (r: Result<
    Vec<Vec<(String, Array)>>,
    Exception,
>)
    ensures
        tower_files(file_entries(files@), patch_in) == match r {
            Ok(v) => Ok::<Seq<Seq<(Seq<char>, Term)>>, Exception>(file_entries(v@)),
            Err(e) => Err(e),
        },
{
    let ghost all = file_entries(files@);
    let mut out: Vec<Vec<(String, Array)>> = Vec::new();
    let mut i: usize = 0;
    proof {
        assert(all.take(0) =~= seq![]);
        assert(file_entries(out@) =~= seq![]);
    }
    while i < files.len()
        invariant
            i <= files@.len(),
            all == file_entries(files@),
            tower_files(all.take(i as int), patch_in) == Ok::<
                Seq<Seq<(Seq<char>, Term)>>,
                Exception,
            >(file_entries(out@)),
        decreases files@.len() - i,
    {
        proof {
            assert(all.take(i + 1).drop_last() =~= all.take(i as int));
            assert(all.take(i + 1).last() == entries(files@[i as int]@));
        }
        let tower = tower_weights(&files[i], patch_in);
        proof {
            if tower is Err {
                lemma_files_fail(all, patch_in, i + 1);
            }
        }
        let tower = tower?;
        let ghost before = file_entries(out@);
        let ghost e = entries(tower@);
        out.push(tower);
        proof {
            assert(file_entries(out@) =~= before.push(e));
        }
        i += 1;
    }
    proof {
        assert(all.take(i as int) =~= all);
    }
    Ok(out)
}

/// Replacing parameters leaves a tower able to run.
proof fn lemma_tower_kept(a: VisionModel, b: VisionModel)
    requires
        a.wf(),
        a.frame() == b.frame(),
    ensures
        b.wf(),
{
    let (fa, fb) = (a.blocks.frame(), b.blocks.frame());
    assert(fa == fb);
    assert forall|i: int| 0 <= i < b.blocks@.len() implies (#[trigger] b.blocks@[i]).attn.wf() by {
        assert(fa.len() == a.blocks@.len() && fb.len() == b.blocks@.len());
        assert(fa[i] == a.blocks@[i].frame() && fb[i] == b.blocks@[i].frame());
        assert(a.blocks@[i].attn.wf());
    }
}

/// Builds the tower of a configuration and puts its weights in the files of a checkpoint into it,
/// counting for each file the arrays that found a place.
pub fn load_vision_tower(cfg: &VisionConfig, files: &Vec<Vec<(String, Array)>>) -> (r: Result<
    (VisionModel, Vec<usize>),
    Exception,
>)
    requires
        tower_fits(cfg),
    ensures
        match (r, tower_files(file_entries(files@), patch_numbers(cfg) as i32)) {
            (Ok((m, counts)), Ok(e)) => {
                &&& exists|f: VisionModel| #[trigger]
                    f.is_fresh(cfg) && loaded_from(Remap::AsStored, f, e, m, counts@)
                &&& cfg.num_position_embeddings >= 1 && cfg.spatial_merge_size != 0 ==> m.wf()
            },
            (Err(x), Ok(_)) => VisionModel::cannot_build(cfg, x),
            (Err(x), Err(y)) => VisionModel::cannot_build(cfg, x) || x == y,
            (Ok(_), Err(_)) => false,
        },
{
    let patch_in: i32 = cfg.in_channels * cfg.temporal_patch_size * cfg.patch_size
        * cfg.patch_size;
    let mut model = VisionModel::new(cfg)?;
    let ghost fresh = model;
    let tower = pick_tower_files(files, patch_in)?;
    let counts = load_files(&mut model, &tower, Remap::AsStored);
    proof {
        assert(fresh.is_fresh(cfg));
        if cfg.num_position_embeddings >= 1 && cfg.spatial_merge_size != 0 {
            lemma_tower_kept(fresh, model);
        }
    }
    Ok((model, counts))
}

} // verus!
