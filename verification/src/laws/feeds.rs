//! Feed-forward layers on some of the positions of a longer run.

use crate::array::{BinaryOp, Kind, Term, UnaryOp};
use crate::laws::arrays::part_on;
use crate::laws::parts::{
    all_is_a_part, cuts_on_parts, held_by, lemma_last_rows, lemma_moved, lemma_stretch_self,
    linear_on_parts, moved, pairs_on_parts, unary_on_parts,
};
use crate::laws::shapes::{goes, has_shape, packed_rows};
use crate::meaning::{
    computed, elem, in_shape, left_row, length_of, reduced_index, routed, stretched_index,
    stretched_row, Elem,
};
use crate::models::hybrid::FeedForward;
use crate::models::qwen3::Mlp;
use crate::models::qwen3_5_moe::{QuantLinear, SparseMoeBlock};
use crate::models::qwen3_moe::{best_experts, blended, expert_scores, QSwitchLinear, SwitchGlu};
use crate::nn::{t_linear, LinearTerm};
use crate::ops::elementwise::{raw_binary, t_binary, t_multiply, t_sigmoid, t_silu};
use crate::ops::layout::{raw_expand_dims, raw_squeeze, t_expand_dims, t_squeeze};
use crate::ops::product::{packs, raw_gather_qmm};
use crate::ops::reduce::{
    raw_argpartition, raw_softmax, raw_sum, reduced, t_argpartition, t_softmax, t_sum,
};
use crate::ops::select::{raw_slice, raw_take_along, t_slice, t_take_along, OPEN};
use crate::shape::{axis_of, broadcast_shape};
use vstd::prelude::*;

verus! {

/// Whether the feed-forward part of a layer works position by position: what it makes of some
/// positions is what it makes of them within a longer run.
pub open spec fn feeds_by_position<F: FeedForward>(f: F, b: i32, dim: i32) -> bool {
    forall|x: Term, w: Term, p: int|
        #![trigger part_on(x, w, 1, p), f.feed(x), f.feed(w)]
        part_on(x, w, 1, p) && x.shape == seq![b, x.shape[1], dim] && x.shape[1] > 0 && f.feed(
            x,
        ) is Ok && f.feed(w) is Ok ==> part_on(f.feed(x)->Ok_0, f.feed(w)->Ok_0, 1, p)
}

/// Whether a feed-forward layer goes from `dim` features over `hidden` ones back.
pub open spec fn mlp_goes(f: Mlp, dim: i32, hidden: i32) -> bool {
    &&& goes(f.gate_proj@, dim, hidden)
    &&& goes(f.up_proj@, dim, hidden)
    &&& goes(f.down_proj@, hidden, dim)
}

proof fn lemma_mlp_on_parts(
    f: Mlp,
    x: Term,
    w: Term,
    p: int,
    b: i32,
    n: i32,
    t: i32,
    dim: i32,
    hidden: i32,
)
    requires
        mlp_goes(f, dim, hidden),
        part_on(x, w, 1, p),
        x.shape == seq![b, n, dim],
        w.shape == seq![b, t, dim],
    ensures
        held_by(f.apply(Ok(x)), f.apply(Ok(w)), 1, p, seq![b, n, dim], seq![b, t, dim]),
{
    linear_on_parts(f.gate_proj@, x, w, p, b, n, t, dim, hidden);
    linear_on_parts(f.up_proj@, x, w, p, b, n, t, dim, hidden);
    let (gx, gw) = (t_linear(f.gate_proj@, Ok(x)), t_linear(f.gate_proj@, Ok(w)));
    let (ux, uw) = (t_linear(f.up_proj@, Ok(x)), t_linear(f.up_proj@, Ok(w)));
    unary_on_parts(UnaryOp::Silu, gx->Ok_0, gw->Ok_0, 1, p);
    let (sx, sw) = (t_silu(gx), t_silu(gw));
    pairs_on_parts(BinaryOp::Multiply, sx->Ok_0, sw->Ok_0, ux->Ok_0, uw->Ok_0, 1, p);
    linear_on_parts(
        f.down_proj@,
        t_multiply(sx, ux)->Ok_0,
        t_multiply(sw, uw)->Ok_0,
        p,
        b,
        n,
        t,
        hidden,
        dim,
    );
}

/// The shape of a run of which another array holds some positions.
proof fn lemma_run_shape(x: Term, w: Term, p: int, b: i32, dim: i32)
    requires
        part_on(x, w, 1, p),
        x.shape == seq![b, x.shape[1], dim],
    ensures
        w.shape == seq![b, w.shape[1], dim],
{
    let n = x.shape[1];
    assert(w.shape.update(1, n)[0] == b && w.shape.update(1, n)[2] == dim);
    assert(w.shape =~= seq![b, w.shape[1], dim]);
}

/// A gated feed-forward layer works position by position.
pub proof fn linear_layers_feed_by_position(f: Mlp, b: i32, dim: i32, hidden: i32)
    requires
        mlp_goes(f, dim, hidden),
    ensures
        feeds_by_position(f, b, dim),
{
    assert forall|x: Term, w: Term, p: int|
        #![trigger part_on(x, w, 1, p), f.feed(x), f.feed(w)]
        part_on(x, w, 1, p) && x.shape == seq![b, x.shape[1], dim] && x.shape[1] > 0 && f.feed(
            x,
        ) is Ok && f.feed(w) is Ok implies part_on(f.feed(x)->Ok_0, f.feed(w)->Ok_0, 1, p) by {
        lemma_run_shape(x, w, p, b, dim);
        lemma_mlp_on_parts(f, x, w, p, b, x.shape[1], w.shape[1], dim, hidden);
    }
}

/// An operation that reads whole rows works position by position.
proof fn lemma_rowwise(a: Term, b: Term, x: Term, w: Term, lo: int)
    requires
        part_on(x, w, 1, lo),
        x.shape.len() == 3,
        a.shape == x.shape,
        b.shape == w.shape,
        a.dtype == b.dtype,
        a.kind == b.kind,
        match a.kind {
            Kind::Softmax { axis, .. } => axis == 2,
            Kind::ArgPartition { axis, .. } => axis == 2,
            _ => false,
        },
        a.args.len() == 1,
        b.args.len() == 1,
        a.args[0] == x,
        b.args[0] == w,
    ensures
        part_on(a, b, 1, lo),
{
    assert forall|ix: Seq<int>| #[trigger] in_shape(ix, a.shape) implies elem(a, ix) == elem(
        b,
        ix.update(1, ix[1] + lo),
    ) by {
        lemma_last_rows(ix, x, w, 1, lo);
        let jx = moved(ix, 1, lo);
        reveal(computed);
        reveal(routed);
        assert(elem(a, ix) == computed(a, ix) && elem(b, jx) == computed(b, jx));
    }
}

/// The index of an array whose last axis is stretched.
proof fn lemma_stretch_last(ix: Seq<int>, x: Seq<i32>, y: Seq<i32>)
    requires
        in_shape(ix, x),
        x.len() > 0,
        y == x.update(x.len() - 1, 1),
    ensures
        stretched_index(ix, y) == ix.update(ix.len() - 1, 0),
        in_shape(ix.update(ix.len() - 1, 0), y),
{
    let last = ix.len() - 1;
    let s = stretched_index(ix, y);
    let q = ix.update(last, 0);
    assert forall|i: int| 0 <= i < s.len() implies s[i] == q[i] by {
        assert(0 <= ix[i] < x[i]);
    }
    assert(s =~= q);
    assert forall|i: int| 0 <= i < q.len() implies 0 <= #[trigger] q[i] < y[i] by {
        assert(0 <= ix[i] < x[i]);
    }
}

/// An operation with an operand whose last axis is stretched works position by position.
proof fn wider_on_parts(op: BinaryOp, x: Term, w: Term, y: Term, v: Term, k: int, lo: int)
    requires
        part_on(x, w, k, lo),
        part_on(y, v, k, lo),
        k < x.shape.len() - 1,
        y.shape == x.shape.update(x.shape.len() - 1, 1),
        v.shape == w.shape.update(w.shape.len() - 1, 1),
    ensures
        t_binary(op, Ok(x), Ok(y)) matches Ok(a) && t_binary(op, Ok(w), Ok(v)) matches Ok(b)
            && part_on(a, b, k, lo) && a.shape == x.shape && b.shape == w.shape,
        t_binary(op, Ok(y), Ok(x)) matches Ok(a) && t_binary(op, Ok(v), Ok(w)) matches Ok(b)
            && part_on(a, b, k, lo) && a.shape == x.shape && b.shape == w.shape,
{
    reveal(raw_binary);
    assert(broadcast_shape(x.shape, y.shape) =~= x.shape);
    assert(broadcast_shape(y.shape, x.shape) =~= x.shape);
    assert(broadcast_shape(w.shape, v.shape) =~= w.shape);
    assert(broadcast_shape(v.shape, w.shape) =~= w.shape);
    let a = t_binary(op, Ok(x), Ok(y))->Ok_0;
    let b = t_binary(op, Ok(w), Ok(v))->Ok_0;
    let d = t_binary(op, Ok(y), Ok(x))->Ok_0;
    let e = t_binary(op, Ok(v), Ok(w))->Ok_0;
    assert(a.args[0] == x && a.args[1] == y && b.args[0] == w && b.args[1] == v);
    assert(d.args[0] == y && d.args[1] == x && e.args[0] == v && e.args[1] == w);
    assert forall|ix: Seq<int>| #[trigger] in_shape(ix, x.shape) implies elem(a, ix) == elem(
        b,
        ix.update(k, ix[k] + lo),
    ) && elem(d, ix) == elem(e, ix.update(k, ix[k] + lo)) by {
        let jx = moved(ix, k, lo);
        let last = ix.len() - 1;
        lemma_moved(ix, x, w, k, lo);
        lemma_stretch_self(ix, x.shape);
        lemma_stretch_self(jx, w.shape);
        lemma_stretch_last(ix, x.shape, y.shape);
        lemma_stretch_last(jx, w.shape, v.shape);
        lemma_moved(ix.update(last, 0), y, v, k, lo);
        assert(moved(ix.update(last, 0), k, lo) =~= jx.update(last, 0));
    }
}

/// A new axis behind the positions works position by position.
proof fn lemma_expand(x: Term, w: Term, axis: i32, at: int, lo: int)
    requires
        part_on(x, w, 1, lo),
        2 <= x.shape.len() <= 4,
        axis_of(axis, x.shape.len() + 1) == Some(at),
        at > 1,
    ensures
        held_by(
            t_expand_dims(Ok(x), axis),
            t_expand_dims(Ok(w), axis),
            1,
            lo,
            x.shape.insert(at, 1),
            w.shape.insert(at, 1),
        ),
{
    reveal(raw_expand_dims);
    let a = t_expand_dims(Ok(x), axis)->Ok_0;
    let b = t_expand_dims(Ok(w), axis)->Ok_0;
    assert(a.args[0] == x && b.args[0] == w);
    assert(a.shape =~= b.shape.update(1, a.shape[1])) by {
        assert(x.shape =~= w.shape.update(1, x.shape[1]));
    }
    assert forall|ix: Seq<int>| #[trigger] in_shape(ix, a.shape) implies elem(a, ix) == elem(
        b,
        ix.update(1, ix[1] + lo),
    ) by {
        let kx = ix.remove(at);
        assert forall|i: int| 0 <= i < kx.len() implies 0 <= #[trigger] kx[i] < x.shape[i] by {
            if i < at {
                assert(0 <= ix[i] < a.shape[i]);
            } else {
                assert(0 <= ix[i + 1] < a.shape[i + 1]);
            }
        }
        assert(in_shape(kx, x.shape));
        lemma_moved(kx, x, w, 1, lo);
        assert(moved(kx, 1, lo) =~= moved(ix, 1, lo).remove(at));
    }
}

/// Dropping an axis of one behind the positions works position by position.
proof fn lemma_squeeze(x: Term, w: Term, axis: i32, at: int, lo: int)
    requires
        part_on(x, w, 1, lo),
        3 <= x.shape.len() <= 5,
        axis_of(axis, x.shape.len()) == Some(at),
        at > 1,
        x.shape[at] == 1,
    ensures
        held_by(
            t_squeeze(Ok(x), axis),
            t_squeeze(Ok(w), axis),
            1,
            lo,
            x.shape.remove(at),
            w.shape.remove(at),
        ),
{
    reveal(raw_squeeze);
    assert(x.shape[at] == w.shape.update(1, x.shape[1])[at]);
    let a = t_squeeze(Ok(x), axis)->Ok_0;
    let b = t_squeeze(Ok(w), axis)->Ok_0;
    assert(a.args[0] == x && b.args[0] == w);
    assert(a.shape =~= b.shape.update(1, a.shape[1])) by {
        assert(x.shape =~= w.shape.update(1, x.shape[1]));
    }
    assert forall|ix: Seq<int>| #[trigger] in_shape(ix, a.shape) implies elem(a, ix) == elem(
        b,
        ix.update(1, ix[1] + lo),
    ) by {
        let kx = ix.insert(at, 0);
        assert forall|i: int| 0 <= i < kx.len() implies 0 <= #[trigger] kx[i] < x.shape[i] by {
            if i < at {
                assert(0 <= ix[i] < a.shape[i]);
            } else if i > at {
                assert(0 <= ix[i - 1] < a.shape[i - 1]);
            }
        }
        assert(in_shape(kx, x.shape));
        lemma_moved(kx, x, w, 1, lo);
        assert(moved(kx, 1, lo) =~= moved(ix, 1, lo).insert(at, 0));
    }
}

/// Adding up an axis behind the positions works position by position.
proof fn lemma_sum(x: Term, w: Term, axis: i32, at: int, keep: bool, lo: int)
    requires
        part_on(x, w, 1, lo),
        3 <= x.shape.len() <= 5,
        axis_of(axis, x.shape.len()) == Some(at),
        at > 1,
    ensures
        t_sum(Ok(x), axis, keep) matches Ok(a) && t_sum(Ok(w), axis, keep) matches Ok(b)
            && part_on(a, b, 1, lo) && a.shape == reduced(x.shape, at, keep)
            && b.shape == reduced(w.shape, at, keep),
{
    reveal(raw_sum);
    let a = t_sum(Ok(x), axis, keep)->Ok_0;
    let b = t_sum(Ok(w), axis, keep)->Ok_0;
    assert(a.args[0] == x && b.args[0] == w);
    assert(x.shape =~= w.shape.update(1, x.shape[1]));
    assert(x.shape[at] == w.shape[at]);
    assert(a.shape =~= b.shape.update(1, a.shape[1]));
    assert forall|ix: Seq<int>| #[trigger] in_shape(ix, a.shape) implies elem(a, ix) == elem(
        b,
        ix.update(1, ix[1] + lo),
    ) by {
        let jx = moved(ix, 1, lo);
        let n = length_of(x.shape[at]);
        let r = Seq::new(n, |i: int| elem(x, reduced_index(ix, at, keep, i)));
        let q = Seq::new(n, |i: int| elem(w, reduced_index(jx, at, keep, i)));
        assert forall|i: int| 0 <= i < n implies r[i] == q[i] by {
            let kx = reduced_index(ix, at, keep, i);
            assert forall|j: int| 0 <= j < kx.len() implies 0 <= #[trigger] kx[j] < x.shape[j] by {
                if j < at {
                    assert(0 <= ix[j] < a.shape[j]);
                } else if j > at {
                    if keep {
                        assert(0 <= ix[j] < a.shape[j]);
                    } else {
                        assert(0 <= ix[j - 1] < a.shape[j - 1]);
                    }
                }
            }
            assert(in_shape(kx, x.shape));
            lemma_moved(kx, x, w, 1, lo);
            assert(moved(kx, 1, lo) =~= reduced_index(jx, at, keep, i));
        }
        assert(r =~= q);
        assert(at as usize as int == at);
        assert(elem(a, ix)->Applied_2 =~= r);
        assert(elem(b, jx)->Applied_2 =~= q);
    }
}

/// The entries of a row that an index may be looked up in.
proof fn lemma_stretched_rows(ix: Seq<int>, x: Term, w: Term, lo: int)
    requires
        part_on(x, w, 1, lo),
        x.shape.len() == 3,
        ix.len() == 3,
        0 <= ix[0] < x.shape[0],
        0 <= ix[1] < x.shape[1],
    ensures
        stretched_row(x, ix) == stretched_row(w, moved(ix, 1, lo)),
        forall|c: int|
            0 <= c < x.shape[2] ==> elem(x, #[trigger] stretched_index(ix.update(2, c), x.shape))
                == elem(w, stretched_index(moved(ix, 1, lo).update(2, c), w.shape)),
{
    let jx = moved(ix, 1, lo);
    assert(x.shape[2] == w.shape.update(1, x.shape[1])[2]);
    assert forall|c: int|
        0 <= c < x.shape[2] implies elem(x, #[trigger] stretched_index(ix.update(2, c), x.shape))
        == elem(w, stretched_index(jx.update(2, c), w.shape)) by {
        let kx = ix.update(2, c);
        assert(in_shape(kx, x.shape));
        lemma_moved(kx, x, w, 1, lo);
        assert(moved(kx, 1, lo) =~= jx.update(2, c));
        lemma_stretch_self(kx, x.shape);
        lemma_stretch_self(jx.update(2, c), w.shape);
    }
    assert(stretched_row(x, ix) =~= stretched_row(w, jx));
}

/// Looking up entries of every row works position by position.
proof fn lemma_along(
    x: Term,
    w: Term,
    i: Term,
    j: Term,
    lo: int,
    b: i32,
    n: i32,
    t: i32,
    e: i32,
    k: i32,
)
    requires
        part_on(x, w, 1, lo),
        part_on(i, j, 1, lo),
        x.shape == seq![b, n, e],
        w.shape == seq![b, t, e],
        i.shape == seq![b, n, k],
        j.shape == seq![b, t, k],
    ensures
        held_by(
            t_take_along(Ok(x), Ok(i), -1i32),
            t_take_along(Ok(w), Ok(j), -1i32),
            1,
            lo,
            seq![b, n, k],
            seq![b, t, k],
        ),
{
    reveal(raw_take_along);
    assert(x.shape.update(2, 1) =~= seq![b, n, 1i32]);
    assert(w.shape.update(2, 1) =~= seq![b, t, 1i32]);
    assert(broadcast_shape(seq![b, n, 1i32], seq![b, n, k]) =~= seq![b, n, k]);
    assert(broadcast_shape(seq![b, t, 1i32], seq![b, t, k]) =~= seq![b, t, k]);
    let p = t_take_along(Ok(x), Ok(i), -1i32)->Ok_0;
    let q = t_take_along(Ok(w), Ok(j), -1i32)->Ok_0;
    assert(p.args[0] == x && p.args[1] == i && q.args[0] == w && q.args[1] == j);
    assert(seq![b, n, k] =~= seq![b, t, k].update(1, n));
    assert forall|ix: Seq<int>| #[trigger] in_shape(ix, p.shape) implies elem(p, ix) == elem(
        q,
        ix.update(1, ix[1] + lo),
    ) by {
        assert(0 <= ix[0] < p.shape[0] && 0 <= ix[1] < p.shape[1]);
        lemma_along_at(p, q, x, w, i, j, ix, lo);
    }
}

proof fn lemma_along_at(
    p: Term,
    q: Term,
    x: Term,
    w: Term,
    i: Term,
    j: Term,
    ix: Seq<int>,
    lo: int,
)
    requires
        part_on(x, w, 1, lo),
        part_on(i, j, 1, lo),
        x.shape.len() == 3,
        in_shape(ix, i.shape),
        0 <= ix[0] < x.shape[0],
        0 <= ix[1] < x.shape[1],
        ix.len() == 3,
        p.kind == (Kind::TakeAlong { axis: 2 }),
        q.kind == p.kind,
        p.args.len() == 2,
        q.args.len() == 2,
        p.args[0] == x,
        p.args[1] == i,
        q.args[0] == w,
        q.args[1] == j,
    ensures
        elem(p, ix) == elem(q, moved(ix, 1, lo)),
{
    let jx = moved(ix, 1, lo);
    lemma_moved(ix, i, j, 1, lo);
    lemma_stretch_self(ix, i.shape);
    lemma_stretch_self(jx, j.shape);
    lemma_stretched_rows(ix, x, w, lo);
    assert(x.shape[2] == w.shape.update(1, x.shape[1])[2]);
    reveal(computed);
    reveal(routed);
    match elem(i, ix) {
        Elem::Int(c) if 0 <= c < x.shape[2] => {
            assert(elem(p, ix) == elem(x, stretched_index(ix.update(2, c), x.shape)));
            assert(elem(q, jx) == elem(w, stretched_index(jx.update(2, c), w.shape)));
        },
        _ => {
            assert(elem(p, ix) == computed(p, ix) && elem(q, jx) == computed(q, jx));
        },
    }
}

/// Whether stacked packed matrices go from `n` features to `m`.
pub open spec fn stack_goes(l: QSwitchLinear, n: i32, m: i32) -> bool {
    &&& l.weight@.shape.len() == 3
    &&& l.scales@.shape.len() == 3
    &&& l.biases@.shape == l.scales@.shape
    &&& l.weight@.shape[0] == l.scales@.shape[0]
    &&& l.weight@.shape[1] == m
    &&& l.scales@.shape[1] == m
    &&& packs(n, l.weight@.shape[2], l.scales@.shape[2], l.group_size, l.bits)
}

/// The row that an element of a product with a picked matrix reads.
proof fn lemma_left_rows(
    ix: Seq<int>,
    x: Term,
    w: Term,
    lo: int,
    b: i32,
    n: i32,
    t: i32,
    c: i32,
    k: i32,
    d: i32,
)
    requires
        part_on(x, w, 1, lo),
        x.shape == seq![b, n, c, 1i32, d],
        w.shape == seq![b, t, c, 1i32, d],
        c == 1 || c == k,
        ix.len() == 5,
        0 <= ix[0] < b,
        0 <= ix[1] < n,
        0 <= ix[2] < k,
        ix[3] == 0,
    ensures
        left_row(x, ix) == left_row(w, moved(ix, 1, lo)),
{
    let jx = moved(ix, 1, lo);
    let z = if c == 1 {
        0
    } else {
        ix[2]
    };
    let (ax, aw) = (seq![ix[0], ix[1], z], seq![ix[0], ix[1] + lo, z]);
    assert(stretched_index(ix.take(3), x.shape.take(3)) =~= ax);
    assert(stretched_index(jx.take(3), w.shape.take(3)) =~= aw);
    let (r, q) = (left_row(x, ix), left_row(w, jx));
    assert(r.len() == q.len());
    assert forall|i: int| 0 <= i < r.len() implies r[i] == q[i] by {
        let kx = ax.push(0).push(i);
        assert(in_shape(kx, x.shape));
        lemma_moved(kx, x, w, 1, lo);
        assert(moved(kx, 1, lo) =~= aw.push(0).push(i));
    }
    assert(r =~= q);
}

/// Products with picked matrices work position by position.
proof fn lemma_gather(
    l: QSwitchLinear,
    x: Term,
    w: Term,
    i: Term,
    j: Term,
    lo: int,
    b: i32,
    n: i32,
    t: i32,
    c: i32,
    k: i32,
    d: i32,
    m: i32,
)
    requires
        stack_goes(l, d, m),
        part_on(x, w, 1, lo),
        part_on(i, j, 1, lo),
        x.shape == seq![b, n, c, 1i32, d],
        w.shape == seq![b, t, c, 1i32, d],
        c == 1 || c == k,
        i.shape == seq![b, n, k],
        j.shape == seq![b, t, k],
    ensures
        held_by(
            l.apply(Ok(x), Ok(i)),
            l.apply(Ok(w), Ok(j)),
            1,
            lo,
            seq![b, n, k, 1i32, m],
            seq![b, t, k, 1i32, m],
        ),
{
    reveal(raw_gather_qmm);
    assert(x.shape.take(3) =~= seq![b, n, c]);
    assert(w.shape.take(3) =~= seq![b, t, c]);
    assert(broadcast_shape(seq![b, n, c], seq![b, n, k]) =~= seq![b, n, k]);
    assert(broadcast_shape(seq![b, t, c], seq![b, t, k]) =~= seq![b, t, k]);
    let p = l.apply(Ok(x), Ok(i))->Ok_0;
    let q = l.apply(Ok(w), Ok(j))->Ok_0;
    let s = seq![b, n, k, 1i32, m];
    assert(seq![b, n, k].push(1i32).push(m) =~= s);
    assert(seq![b, t, k].push(1i32).push(m) =~= seq![b, t, k, 1i32, m]);
    assert(s =~= seq![b, t, k, 1i32, m].update(1, n));
    assert(p.args == seq![x, l.weight@, l.scales@, l.biases@, i]);
    assert(q.args == seq![w, l.weight@, l.scales@, l.biases@, j]);
    assert forall|ix: Seq<int>| #[trigger] in_shape(ix, s) implies elem(p, ix) == elem(
        q,
        ix.update(1, ix[1] + lo),
    ) by {
        let jx = moved(ix, 1, lo);
        assert(0 <= ix[0] < s[0] && 0 <= ix[1] < s[1] && 0 <= ix[2] < s[2] && 0 <= ix[3] < s[3]);
        lemma_left_rows(ix, x, w, lo, b, n, t, c, k, d);
        let kx = ix.take(3);
        assert(in_shape(kx, i.shape));
        lemma_moved(kx, i, j, 1, lo);
        assert(moved(kx, 1, lo) =~= jx.take(3));
        lemma_stretch_self(kx, i.shape);
        lemma_stretch_self(jx.take(3), j.shape);
        lemma_gathered(p, q, ix, jx);
    }
}

proof fn lemma_gathered(p: Term, q: Term, ix: Seq<int>, jx: Seq<int>)
    requires
        p.kind is GatherQmm,
        q.kind == p.kind,
        p.args.len() == 5,
        q.args.len() == 5,
        p.args[1] == q.args[1],
        p.args[2] == q.args[2],
        p.args[3] == q.args[3],
        p.args[0].dtype == q.args[0].dtype,
        ix.len() == 5,
        jx.len() == 5,
        ix.last() == jx.last(),
        left_row(p.args[0], ix) == left_row(q.args[0], jx),
        elem(p.args[4], stretched_index(ix.take(3), p.args[4].shape)) == elem(
            q.args[4],
            stretched_index(jx.take(3), q.args[4].shape),
        ),
    ensures
        elem(p, ix) == elem(q, jx),
{
    reveal(computed);
    reveal(routed);
    assert(elem(p, ix) == computed(p, ix) && elem(q, jx) == computed(q, jx));
}

/// Picking the best experts works position by position.
proof fn lemma_picked(x: Term, w: Term, lo: int, b: i32, n: i32, t: i32, e: i32, k: i32)
    requires
        part_on(x, w, 1, lo),
        x.shape == seq![b, n, e],
        w.shape == seq![b, t, e],
        1 <= k <= e,
    ensures
        held_by(
            best_experts(Ok(x), k, e),
            best_experts(Ok(w), k, e),
            1,
            lo,
            seq![b, n, k],
            seq![b, t, k],
        ),
{
    let (p, q) = (
        t_argpartition(Ok(x), (-k) as i32, -1i32),
        t_argpartition(Ok(w), (-k) as i32, -1i32),
    );
    assert(has_shape(p, x.shape) && has_shape(q, w.shape) && part_on(p->Ok_0, q->Ok_0, 1, lo)) by {
        reveal(raw_argpartition);
        lemma_rowwise(p->Ok_0, q->Ok_0, x, w, lo);
    }
    let at = (e - k) as i32;
    let (r, z) = (t_slice(p, -1i32, at, OPEN), t_slice(q, -1i32, at, OPEN));
    assert(has_shape(r, x.shape.update(2, k)) && t_slice(p, 2, at, OPEN) == r && t_slice(
        q,
        2,
        at,
        OPEN,
    ) == z) by {
        reveal(raw_slice);
    }
    cuts_on_parts(p->Ok_0, q->Ok_0, 1, lo, at, OPEN, k);
    assert(x.shape.update(2, k) =~= seq![b, n, k]);
    assert(w.shape.update(2, k) =~= seq![b, t, k]);
}

/// Scoring the picked experts works position by position.
proof fn lemma_scores(
    x: Term,
    w: Term,
    i: Term,
    j: Term,
    normalize: bool,
    lo: int,
    b: i32,
    n: i32,
    t: i32,
    e: i32,
    k: i32,
)
    requires
        part_on(x, w, 1, lo),
        part_on(i, j, 1, lo),
        x.shape == seq![b, n, e],
        w.shape == seq![b, t, e],
        i.shape == seq![b, n, k],
        j.shape == seq![b, t, k],
    ensures
        held_by(
            expert_scores(Ok(x), Ok(i), normalize),
            expert_scores(Ok(w), Ok(j), normalize),
            1,
            lo,
            seq![b, n, k],
            seq![b, t, k],
        ),
{
    lemma_along(x, w, i, j, lo, b, n, t, e, k);
    if normalize {
        let (p, q) = (
            t_take_along(Ok(x), Ok(i), -1i32)->Ok_0,
            t_take_along(Ok(w), Ok(j), -1i32)->Ok_0,
        );
        lemma_sum(p, q, -1i32, 2, true, lo);
        wider_on_parts(
            BinaryOp::Divide,
            p,
            q,
            t_sum(Ok(p), -1i32, true)->Ok_0,
            t_sum(Ok(q), -1i32, true)->Ok_0,
            1,
            lo,
        );
    }
}

/// The picked experts work position by position.
proof fn lemma_switch(
    g: SwitchGlu,
    x: Term,
    w: Term,
    i: Term,
    j: Term,
    lo: int,
    b: i32,
    n: i32,
    t: i32,
    k: i32,
    dim: i32,
    hidden: i32,
)
    requires
        stack_goes(g.gate_proj, dim, hidden),
        stack_goes(g.up_proj, dim, hidden),
        stack_goes(g.down_proj, hidden, dim),
        part_on(x, w, 1, lo),
        part_on(i, j, 1, lo),
        x.shape == seq![b, n, dim],
        w.shape == seq![b, t, dim],
        i.shape == seq![b, n, k],
        j.shape == seq![b, t, k],
    ensures
        held_by(
            g.apply(Ok(x), Ok(i)),
            g.apply(Ok(w), Ok(j)),
            1,
            lo,
            seq![b, n, k, dim],
            seq![b, t, k, dim],
        ),
{
    lemma_expand(x, w, -2i32, 2, lo);
    let (p, q) = (t_expand_dims(Ok(x), -2i32)->Ok_0, t_expand_dims(Ok(w), -2i32)->Ok_0);
    assert(p.shape =~= seq![b, n, 1i32, dim] && q.shape =~= seq![b, t, 1i32, dim]);
    lemma_expand(p, q, -2i32, 3, lo);
    let (wx, ww) = (t_expand_dims(Ok(p), -2i32)->Ok_0, t_expand_dims(Ok(q), -2i32)->Ok_0);
    assert(wx.shape =~= seq![b, n, 1i32, 1i32, dim] && ww.shape =~= seq![b, t, 1i32, 1i32, dim]);
    assert(axis_of(-2i32, 4) == Some(2int) && axis_of(-2i32, 5) == Some(3int));
    lemma_gather(g.up_proj, wx, ww, i, j, lo, b, n, t, 1, k, dim, hidden);
    lemma_gather(g.gate_proj, wx, ww, i, j, lo, b, n, t, 1, k, dim, hidden);
    let (ux, uw) = (g.up_proj.apply(Ok(wx), Ok(i)), g.up_proj.apply(Ok(ww), Ok(j)));
    let (gx, gw) = (g.gate_proj.apply(Ok(wx), Ok(i)), g.gate_proj.apply(Ok(ww), Ok(j)));
    unary_on_parts(UnaryOp::Silu, gx->Ok_0, gw->Ok_0, 1, lo);
    let (sx, sw) = (t_silu(gx), t_silu(gw));
    pairs_on_parts(BinaryOp::Multiply, sx->Ok_0, sw->Ok_0, ux->Ok_0, uw->Ok_0, 1, lo);
    let (ax, aw) = (t_multiply(sx, ux)->Ok_0, t_multiply(sw, uw)->Ok_0);
    lemma_gather(g.down_proj, ax, aw, i, j, lo, b, n, t, k, k, hidden, dim);
    let (dx, dw) = (g.down_proj.apply(Ok(ax), Ok(i)), g.down_proj.apply(Ok(aw), Ok(j)));
    lemma_squeeze(dx->Ok_0, dw->Ok_0, -2i32, 3, lo);
    assert(seq![b, n, k, 1i32, dim].remove(3) =~= seq![b, n, k, dim]);
    assert(seq![b, t, k, 1i32, dim].remove(3) =~= seq![b, t, k, dim]);
}

/// Adding up the experts by their scores works position by position.
proof fn lemma_blended(
    x: Term,
    w: Term,
    s: Term,
    r: Term,
    lo: int,
    b: i32,
    n: i32,
    t: i32,
    k: i32,
    dim: i32,
)
    requires
        part_on(x, w, 1, lo),
        part_on(s, r, 1, lo),
        x.shape == seq![b, n, k, dim],
        w.shape == seq![b, t, k, dim],
        s.shape == seq![b, n, k],
        r.shape == seq![b, t, k],
    ensures
        held_by(
            blended(Ok(x), Ok(s)),
            blended(Ok(w), Ok(r)),
            1,
            lo,
            seq![b, n, dim],
            seq![b, t, dim],
        ),
{
    assert(axis_of(-1i32, 4) == Some(3int) && axis_of(-2i32, 4) == Some(2int));
    lemma_expand(s, r, -1i32, 3, lo);
    let (p, q) = (t_expand_dims(Ok(s), -1i32)->Ok_0, t_expand_dims(Ok(r), -1i32)->Ok_0);
    assert(p.shape =~= x.shape.update(3, 1) && q.shape =~= w.shape.update(3, 1));
    wider_on_parts(BinaryOp::Multiply, x, w, p, q, 1, lo);
    let (y, z) = (t_multiply(Ok(x), Ok(p))->Ok_0, t_multiply(Ok(w), Ok(q))->Ok_0);
    lemma_sum(y, z, -2i32, 2, false, lo);
    assert(seq![b, n, k, dim].remove(2) =~= seq![b, n, dim]);
    assert(seq![b, t, k, dim].remove(2) =~= seq![b, t, dim]);
}

/// A packed matrix as a linear layer.
spec fn packed_layer(l: QuantLinear) -> LinearTerm {
    LinearTerm::Packed {
        weight: l.weight@,
        scales: l.scales@,
        biases: l.biases@,
        bias: None,
        group_size: l.group_size,
        bits: l.bits,
    }
}

/// Whether a packed matrix goes from `n` features to `m`.
pub open spec fn quant_goes(l: QuantLinear, n: i32, m: i32) -> bool {
    packed_rows(l.weight@, l.scales@, l.biases@, m, n, l.group_size, l.bits)
}

/// A product with a packed matrix works position by position.
proof fn lemma_quant(
    l: QuantLinear,
    x: Term,
    w: Term,
    lo: int,
    b: i32,
    n: i32,
    t: i32,
    d: i32,
    m: i32,
)
    requires
        quant_goes(l, d, m),
        part_on(x, w, 1, lo),
        x.shape == seq![b, n, d],
        w.shape == seq![b, t, d],
    ensures
        held_by(l.apply(Ok(x)), l.apply(Ok(w)), 1, lo, seq![b, n, m], seq![b, t, m]),
{
    reveal(goes);
    linear_on_parts(packed_layer(l), x, w, lo, b, n, t, d, m);
}

/// Whether a layer of routed experts goes from `dim` features over `hidden` ones, and its shared
/// expert over `shared` ones, back.
pub open spec fn experts_go(f: SparseMoeBlock, dim: i32, hidden: i32, shared: i32) -> bool {
    &&& 1 <= f.top_k <= f.num_experts
    &&& quant_goes(f.gate, dim, f.num_experts)
    &&& stack_goes(f.switch_mlp.gate_proj, dim, hidden)
    &&& stack_goes(f.switch_mlp.up_proj, dim, hidden)
    &&& stack_goes(f.switch_mlp.down_proj, hidden, dim)
    &&& mlp_goes(f.shared_expert, dim, shared)
    &&& quant_goes(f.shared_expert_gate, dim, 1)
}

/// The routed experts of a layer work position by position.
proof fn lemma_routed(
    f: SparseMoeBlock,
    x: Term,
    w: Term,
    lo: int,
    b: i32,
    n: i32,
    t: i32,
    dim: i32,
    hidden: i32,
    shared: i32,
)
    requires
        experts_go(f, dim, hidden, shared),
        part_on(x, w, 1, lo),
        x.shape == seq![b, n, dim],
        w.shape == seq![b, t, dim],
    ensures
        held_by(
            f.routed(Ok(x)),
            f.routed(Ok(w)),
            1,
            lo,
            seq![b, n, dim],
            seq![b, t, dim],
        ),
{
    let (e, k) = (f.num_experts, f.top_k);
    lemma_quant(f.gate, x, w, lo, b, n, t, dim, e);
    let (lx, lw) = (f.gate.apply(Ok(x)), f.gate.apply(Ok(w)));
    let (gx, gw) = (t_softmax(lx, -1i32, true), t_softmax(lw, -1i32, true));
    assert(has_shape(gx, seq![b, n, e]) && has_shape(gw, seq![b, t, e]) && part_on(
        gx->Ok_0,
        gw->Ok_0,
        1,
        lo,
    )) by {
        reveal(raw_softmax);
        lemma_rowwise(gx->Ok_0, gw->Ok_0, lx->Ok_0, lw->Ok_0, lo);
    }
    lemma_picked(gx->Ok_0, gw->Ok_0, lo, b, n, t, e, k);
    let (px, pw) = (best_experts(gx, k, e), best_experts(gw, k, e));
    lemma_scores(
        gx->Ok_0,
        gw->Ok_0,
        px->Ok_0,
        pw->Ok_0,
        f.norm_topk_prob,
        lo,
        b,
        n,
        t,
        e,
        k,
    );
    let sx = expert_scores(gx, px, f.norm_topk_prob);
    let sw = expert_scores(gw, pw, f.norm_topk_prob);
    lemma_switch(f.switch_mlp, x, w, px->Ok_0, pw->Ok_0, lo, b, n, t, k, dim, hidden);
    let (yx, yw) = (f.switch_mlp.apply(Ok(x), px), f.switch_mlp.apply(Ok(w), pw));
    lemma_blended(yx->Ok_0, yw->Ok_0, sx->Ok_0, sw->Ok_0, lo, b, n, t, k, dim);
}

/// A layer of routed experts on some positions and on the whole run.
proof fn lemma_experts_on_parts(
    f: SparseMoeBlock,
    x: Term,
    w: Term,
    p: int,
    b: i32,
    n: i32,
    t: i32,
    dim: i32,
    hidden: i32,
    shared: i32,
)
    requires
        experts_go(f, dim, hidden, shared),
        part_on(x, w, 1, p),
        x.shape == seq![b, n, dim],
        w.shape == seq![b, t, dim],
    ensures
        held_by(f.feed(x), f.feed(w), 1, p, seq![b, n, dim], seq![b, t, dim]),
{
    lemma_routed(f, x, w, p, b, n, t, dim, hidden, shared);
    lemma_quant(f.shared_expert_gate, x, w, p, b, n, t, dim, 1);
    let (gx, gw) = (f.shared_expert_gate.apply(Ok(x)), f.shared_expert_gate.apply(Ok(w)));
    unary_on_parts(UnaryOp::Sigmoid, gx->Ok_0, gw->Ok_0, 1, p);
    lemma_mlp_on_parts(f.shared_expert, x, w, p, b, n, t, dim, shared);
    let (sx, sw) = (f.shared_expert.apply(Ok(x)), f.shared_expert.apply(Ok(w)));
    assert(seq![b, n, 1i32] =~= seq![b, n, dim].update(2, 1));
    assert(seq![b, t, 1i32] =~= seq![b, t, dim].update(2, 1));
    let (hx, hw) = (t_sigmoid(gx), t_sigmoid(gw));
    wider_on_parts(BinaryOp::Multiply, sx->Ok_0, sw->Ok_0, hx->Ok_0, hw->Ok_0, 1, p);
    let (zx, zw) = (t_multiply(hx, sx), t_multiply(hw, sw));
    pairs_on_parts(
        BinaryOp::Add,
        f.routed(Ok(x))->Ok_0,
        f.routed(Ok(w))->Ok_0,
        zx->Ok_0,
        zw->Ok_0,
        1,
        p,
    );
}

/// A layer of routed experts works position by position: the experts of a position are picked by
/// that position alone.
pub proof fn experts_feed_by_position(
    f: SparseMoeBlock,
    b: i32,
    dim: i32,
    hidden: i32,
    shared: i32,
)
    requires
        experts_go(f, dim, hidden, shared),
    ensures
        feeds_by_position(f, b, dim),
{
    assert forall|x: Term, w: Term, p: int|
        #![trigger part_on(x, w, 1, p), f.feed(x), f.feed(w)]
        part_on(x, w, 1, p) && x.shape == seq![b, x.shape[1], dim] && x.shape[1] > 0 && f.feed(
            x,
        ) is Ok && f.feed(w) is Ok implies part_on(f.feed(x)->Ok_0, f.feed(w)->Ok_0, 1, p) by {
        lemma_run_shape(x, w, p, b, dim);
        lemma_experts_on_parts(
            f,
            x,
            w,
            p,
            b,
            x.shape[1],
            w.shape[1],
            dim,
            hidden,
            shared,
        );
    }
}

/// A layer of routed experts gives back what it takes: `n` positions of `dim` features.
pub proof fn experts_keep_rows(
    f: SparseMoeBlock,
    x: Term,
    b: i32,
    n: i32,
    dim: i32,
    hidden: i32,
    shared: i32,
)
    requires
        experts_go(f, dim, hidden, shared),
        x.shape == seq![b, n, dim],
    ensures
        has_shape(f.feed(x), seq![b, n, dim]),
{
    all_is_a_part(x, 1);
    lemma_experts_on_parts(f, x, x, 0, b, n, n, dim, hidden, shared);
}

} // verus!
