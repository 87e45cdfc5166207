//! Where the elements come from that an operation moves.

use crate::array::{promoted, Term};
use crate::laws::elements::num;
use crate::laws::heads::{heads_of, sizes};
use crate::laws::hybrid_model::lemma_grouped;
use crate::laws::parts::{lemma_grouping, lemma_is_reshape, lemma_swap, lemma_swapped};
use crate::meaning::{in_shape, stretched_index};
use crate::models::qwen3_5::heads_first;
use crate::ops::layout::{
    raw_broadcast_to, raw_expand_dims, raw_squeeze, t_broadcast_to, t_expand_dims, t_reshape,
    t_squeeze, t_transpose,
};
use crate::ops::select::{
    position_of, raw_concatenate, raw_select, raw_slice, t_concatenate, t_select, t_slice, OPEN,
};
use crate::shape::{axis_of, broadcast};
use vstd::prelude::*;

verus! {

/// A slice begins where it is asked to.
pub proof fn slices_begin_where_asked(
    x: Term,
    axis: i32,
    k: int,
    lo: i32,
    hi: i32,
    ix: Seq<int>,
)
    requires
        axis_of(axis, x.shape.len()) == Some(k),
        x.shape.len() <= 5,
        0 <= lo <= hi <= x.shape[k] || (hi == OPEN && 0 <= lo <= x.shape[k]),
    ensures
        t_slice(Ok(x), axis, lo, hi) matches Ok(r) && r.dtype == x.dtype && r.shape
            == x.shape.update(
            k,
            if hi <= x.shape[k] {
                (hi - lo) as i32
            } else {
                (x.shape[k] - lo) as i32
            },
        ) && num(r, ix) == num(x, ix.update(k, ix[k] + lo)),
{
    reveal(raw_slice);
    reveal(num);
    let r = t_slice(Ok(x), axis, lo, hi)->Ok_0;
    assert(r.args[0] == x);
}

/// Two arrays are joined in their order.
pub proof fn joins_keep_the_order(x: Term, y: Term, axis: i32, k: int, ix: Seq<int>)
    requires
        axis_of(axis, x.shape.len()) == Some(k),
        x.shape.len() <= 5,
        y.shape.len() == x.shape.len(),
        x.shape[k] >= 0,
        y.shape[k] >= 0,
        x.shape[k] + y.shape[k] <= i32::MAX,
        y.shape == x.shape.update(k, y.shape[k]),
    ensures
        t_concatenate(Ok(x), Ok(y), axis) matches Ok(r) && r.dtype == promoted(x.dtype, y.dtype)
            && r.shape == x.shape.update(k, (x.shape[k] + y.shape[k]) as i32) && num(r, ix).e
            == if ix[k] < x.shape[k] {
            num(x, ix).e
        } else {
            num(y, ix.update(k, ix[k] - x.shape[k])).e
        },
{
    reveal(raw_concatenate);
    reveal(num);
    assert(x.shape.update(k, 0) =~= y.shape.update(k, 0));
    let r = t_concatenate(Ok(x), Ok(y), axis)->Ok_0;
    assert(r.args[0] == x && r.args[1] == y);
}

/// A stretched array repeats its elements on the axes of length one.
pub proof fn stretching_repeats(x: Term, shape: Seq<i32>, ix: Seq<int>)
    requires
        broadcast(x.shape, shape) == Some(shape),
    ensures
        t_broadcast_to(Ok(x), shape) matches Ok(r) && r.dtype == x.dtype && r.shape == shape && num(
            r,
            ix,
        ) == num(x, stretched_index(ix, x.shape)),
{
    reveal(raw_broadcast_to);
    reveal(num);
    let r = t_broadcast_to(Ok(x), shape)->Ok_0;
    assert(r.args[0] == x);
}

/// A new axis of one position.
pub proof fn new_axes_hold_one_position(x: Term, axis: i32, k: int, ix: Seq<int>)
    requires
        axis_of(axis, x.shape.len() + 1) == Some(k),
        x.shape.len() <= 4,
    ensures
        t_expand_dims(Ok(x), axis) matches Ok(r) && r.dtype == x.dtype && r.shape == x.shape.insert(
            k,
            1,
        ) && num(r, ix) == num(x, ix.remove(k)),
{
    reveal(raw_expand_dims);
    reveal(num);
    let r = t_expand_dims(Ok(x), axis)->Ok_0;
    assert(r.args[0] == x);
}

/// An axis of one position, dropped.
pub proof fn dropped_axes_held_one_position(x: Term, axis: i32, k: int, ix: Seq<int>)
    requires
        axis_of(axis, x.shape.len()) == Some(k),
        x.shape.len() <= 5,
        x.shape[k] == 1,
    ensures
        t_squeeze(Ok(x), axis) matches Ok(r) && r.dtype == x.dtype && r.shape == x.shape.remove(k)
            && num(r, ix) == num(x, ix.insert(k, 0)),
{
    reveal(raw_squeeze);
    reveal(num);
    let r = t_squeeze(Ok(x), axis)->Ok_0;
    assert(r.args[0] == x);
}

/// One position of an axis.
pub proof fn selections_take_one_position(
    x: Term,
    axis: i32,
    k: int,
    i: i32,
    p: int,
    ix: Seq<int>,
)
    requires
        axis_of(axis, x.shape.len()) == Some(k),
        x.shape.len() <= 5,
        position_of(i, x.shape[k]) == Some(p),
    ensures
        t_select(Ok(x), axis, i) matches Ok(r) && r.dtype == x.dtype && r.shape == x.shape.remove(k)
            && num(r, ix) == num(x, ix.insert(k, p)),
{
    reveal(raw_select);
    reveal(num);
    let r = t_select(Ok(x), axis, i)->Ok_0;
    assert(r.args[0] == x);
}

/// Features under `n` heads of `d` features: feature `j` of head `h` is feature `h * d + j`.
pub proof fn groups_are_stretches(y: Term, b: i32, l: i32, n: i32, d: i32, ix: Seq<int>)
    requires
        sizes(b, l, n, d),
        y.shape == seq![b, l, (n * d) as i32],
        in_shape(ix, heads_of(b, l, n, d)),
    ensures
        t_reshape(Ok(y), seq![b, l, n, d]) matches Ok(r) && r.dtype == y.dtype && r.shape
            == heads_of(b, l, n, d) && in_shape(
            seq![ix[0], ix[1], ix[2] * d + ix[3]],
            y.shape,
        ) && num(r, ix) == num(y, seq![ix[0], ix[1], ix[2] * d + ix[3]]),
{
    lemma_grouped(Ok(y), b, l, n, d);
    let r = t_reshape(Ok(y), seq![b, l, n, d])->Ok_0;
    lemma_is_reshape(y, seq![b, l, n, d]);
    lemma_grouping(y, r, b, l, n, d, ix);
    reveal(num);
}

/// The two axes in the middle, swapped.
pub proof fn swaps_go_by_place(x: Term, a: i32, b: i32, c: i32, d: i32, ix: Seq<int>)
    requires
        x.shape == seq![a, b, c, d],
        ix.len() == 4,
    ensures
        t_transpose(Ok(x), heads_first()) matches Ok(r) && r.dtype == x.dtype && r.shape == seq![
            a,
            c,
            b,
            d,
        ] && num(r, ix) == num(x, seq![ix[0], ix[2], ix[1], ix[3]]),
{
    lemma_swap(x, a, b, c, d);
    lemma_swapped(x, t_transpose(Ok(x), heads_first())->Ok_0, ix);
    reveal(num);
}

} // verus!
