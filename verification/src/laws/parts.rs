//! Arrays that hold some of the positions of a longer run.
//!
//! Most operations work position by position: what they make of some positions is, element by
//! element, what they make of the same positions within the whole run.

use crate::array::{BinaryOp, Kind, Term, Tn, UnaryOp};
use crate::fast::{raw_rms_norm, raw_rope, t_rms_norm};
use crate::laws::arrays::part_on;
use crate::laws::lookup::places_lead_back;
use crate::laws::shapes::{
    a_linear_layer_keeps_rows, goes, has_shape, lemma_count_four, lemma_count_three,
    prescaling_keeps_shape, turning_keeps_shape, turns_heads,
};
use crate::meaning::{
    computed, elem, flat_index, in_shape, last_row, left_row, right_column, stretched_index,
};
use crate::models::qwen3_5::heads_first;
use crate::nn::{t_linear, LinearTerm};
use crate::ops::create::t_scalar;
use crate::ops::elementwise::{
    raw_binary, raw_cast, raw_unary, t_binary, t_cast, t_multiply, t_unary,
};
use crate::ops::layout::{raw_reshape, raw_transpose, t_reshape, t_transpose};
use crate::ops::product::{raw_matmul, raw_quantized_matmul, t_matmul, t_quantized_matmul};
use crate::ops::select::{raw_concatenate, raw_slice, t_concatenate, t_slice, OPEN};
use crate::scalar::Scalar;
use crate::shape::{bound_of, broadcast, broadcast_shape, is_permutation, permuted};
use crate::utils::rope::{prescaled, RopeVariant};
use vstd::prelude::*;

verus! {

/// The index in the whole run of an index into a part.
pub open spec fn moved(ix: Seq<int>, k: int, lo: int) -> Seq<int> {
    ix.update(k, ix[k] + lo)
}

/// Whether two outcomes are arrays of these shapes, the first a part of the second.
pub open spec fn held_by(
    a: Tn,
    b: Tn,
    k: int,
    lo: int,
    small: Seq<i32>,
    large: Seq<i32>,
) -> bool {
    has_shape(a, small) && has_shape(b, large) && part_on(a->Ok_0, b->Ok_0, k, lo)
}

pub(crate) proof fn lemma_moved(ix: Seq<int>, x: Term, w: Term, k: int, lo: int)
    requires
        part_on(x, w, k, lo),
        in_shape(ix, x.shape),
    ensures
        in_shape(moved(ix, k, lo), w.shape),
        elem(x, ix) == elem(w, moved(ix, k, lo)),
{
    let jx = moved(ix, k, lo);
    assert forall|i: int| 0 <= i < jx.len() implies 0 <= #[trigger] jx[i] < w.shape[i] by {
        assert(0 <= ix[i] < x.shape[i]);
    }
}

pub(crate) proof fn lemma_stretch_self(ix: Seq<int>, shape: Seq<i32>)
    requires
        in_shape(ix, shape),
    ensures
        stretched_index(ix, shape) == ix,
{
    let s = stretched_index(ix, shape);
    assert forall|i: int| 0 <= i < s.len() implies s[i] == ix[i] by {
        assert(0 <= ix[i] < shape[i]);
    }
    assert(s =~= ix);
}

/// An array is the part of itself that holds everything.
pub proof fn all_is_a_part(w: Term, k: int)
    requires
        0 <= k < w.shape.len(),
    ensures
        part_on(w, w, k, 0),
{
    assert(w.shape.update(k, w.shape[k]) =~= w.shape);
    assert forall|ix: Seq<int>| #[trigger] in_shape(ix, w.shape) implies elem(w, ix) == elem(
        w,
        ix.update(k, ix[k] + 0),
    ) by {
        assert(ix.update(k, ix[k] + 0) =~= ix);
    }
}

/// An operation on single elements works position by position.
pub proof fn unary_on_parts(op: UnaryOp, x: Term, w: Term, k: int, lo: int)
    requires
        part_on(x, w, k, lo),
    ensures
        t_unary(op, Ok(x)) matches Ok(a) && t_unary(op, Ok(w)) matches Ok(b) && part_on(a, b, k, lo)
            && a.shape == x.shape && b.shape == w.shape,
{
    reveal(raw_unary);
    let a = t_unary(op, Ok(x))->Ok_0;
    let b = t_unary(op, Ok(w))->Ok_0;
    assert(a.args[0] == x && b.args[0] == w);
    assert forall|ix: Seq<int>| #[trigger] in_shape(ix, a.shape) implies elem(a, ix) == elem(
        b,
        ix.update(k, ix[k] + lo),
    ) by {
        lemma_moved(ix, x, w, k, lo);
    }
}

/// An operation on pairs of elements works position by position.
pub proof fn pairs_on_parts(op: BinaryOp, x: Term, w: Term, y: Term, v: Term, k: int, lo: int)
    requires
        part_on(x, w, k, lo),
        part_on(y, v, k, lo),
        x.shape == y.shape,
        w.shape == v.shape,
    ensures
        t_binary(op, Ok(x), Ok(y)) matches Ok(a) && t_binary(op, Ok(w), Ok(v)) matches Ok(b)
            && part_on(a, b, k, lo) && a.shape == x.shape && b.shape == w.shape,
{
    reveal(raw_binary);
    assert(broadcast_shape(x.shape, x.shape) =~= x.shape);
    assert(broadcast_shape(w.shape, w.shape) =~= w.shape);
    let a = t_binary(op, Ok(x), Ok(y))->Ok_0;
    let b = t_binary(op, Ok(w), Ok(v))->Ok_0;
    assert(a.args[0] == x && a.args[1] == y && b.args[0] == w && b.args[1] == v);
    assert forall|ix: Seq<int>| #[trigger] in_shape(ix, a.shape) implies elem(a, ix) == elem(
        b,
        ix.update(k, ix[k] + lo),
    ) by {
        lemma_moved(ix, x, w, k, lo);
        lemma_moved(ix, y, v, k, lo);
        lemma_stretch_self(ix, x.shape);
        lemma_stretch_self(moved(ix, k, lo), w.shape);
    }
}

/// Whether an operand that is the same for all positions of axis `k` broadcasts to a shape.
pub open spec fn same_for_all(c: Seq<i32>, shape: Seq<i32>, k: int) -> bool {
    c.len() + k < shape.len() && broadcast(shape, c) == Some(shape) && broadcast(c, shape) == Some(
        shape,
    )
}

/// An operation with an operand that is the same for all positions works position by position.
pub proof fn constants_on_parts(op: BinaryOp, x: Term, w: Term, c: Term, k: int, lo: int)
    requires
        part_on(x, w, k, lo),
        same_for_all(c.shape, x.shape, k),
        same_for_all(c.shape, w.shape, k),
    ensures
        t_binary(op, Ok(x), Ok(c)) matches Ok(a) && t_binary(op, Ok(w), Ok(c)) matches Ok(b)
            && part_on(a, b, k, lo) && a.shape == x.shape && b.shape == w.shape,
        t_binary(op, Ok(c), Ok(x)) matches Ok(a) && t_binary(op, Ok(c), Ok(w)) matches Ok(b)
            && part_on(a, b, k, lo) && a.shape == x.shape && b.shape == w.shape,
{
    reveal(raw_binary);
    let a = t_binary(op, Ok(x), Ok(c))->Ok_0;
    let b = t_binary(op, Ok(w), Ok(c))->Ok_0;
    let d = t_binary(op, Ok(c), Ok(x))->Ok_0;
    let e = t_binary(op, Ok(c), Ok(w))->Ok_0;
    assert(a.args[0] == x && a.args[1] == c && b.args[0] == w && b.args[1] == c);
    assert(d.args[0] == c && d.args[1] == x && e.args[0] == c && e.args[1] == w);
    assert forall|ix: Seq<int>| #[trigger] in_shape(ix, x.shape) implies elem(a, ix) == elem(
        b,
        ix.update(k, ix[k] + lo),
    ) && elem(d, ix) == elem(e, ix.update(k, ix[k] + lo)) by {
        lemma_moved(ix, x, w, k, lo);
        lemma_stretch_self(ix, x.shape);
        let jx = moved(ix, k, lo);
        lemma_stretch_self(jx, w.shape);
        assert(stretched_index(ix, c.shape) =~= stretched_index(jx, c.shape));
    }
}

/// Normalizing the last axis works position by position.
pub proof fn norms_on_parts(weight: Option<Term>, eps: Scalar, x: Term, w: Term, k: int, lo: int)
    requires
        part_on(x, w, k, lo),
        k < x.shape.len() - 1,
        t_rms_norm(Ok(x), weight, eps) is Ok,
        t_rms_norm(Ok(w), weight, eps) is Ok,
    ensures
        part_on(
            t_rms_norm(Ok(x), weight, eps)->Ok_0,
            t_rms_norm(Ok(w), weight, eps)->Ok_0,
            k,
            lo,
        ),
        t_rms_norm(Ok(x), weight, eps)->Ok_0.shape == x.shape,
        t_rms_norm(Ok(w), weight, eps)->Ok_0.shape == w.shape,
{
    reveal(raw_rms_norm);
    reveal(computed);
    let a = t_rms_norm(Ok(x), weight, eps)->Ok_0;
    let b = t_rms_norm(Ok(w), weight, eps)->Ok_0;
    assert(a.args[0] == x && b.args[0] == w);
    assert(a.args.len() == b.args.len());
    assert(a.args.len() == 2 ==> a.args[1] == b.args[1]);
    assert forall|ix: Seq<int>| #[trigger] in_shape(ix, a.shape) implies elem(a, ix) == elem(
        b,
        ix.update(k, ix[k] + lo),
    ) by {
        lemma_last_rows(ix, x, w, k, lo);
        let jx = moved(ix, k, lo);
        assert(elem(a, ix) == computed(a, ix) && elem(b, jx) == computed(b, jx));
    }
}

/// The elements on the last axis of a part are those of the whole.
pub(crate) proof fn lemma_last_rows(ix: Seq<int>, x: Term, w: Term, k: int, lo: int)
    requires
        part_on(x, w, k, lo),
        k < x.shape.len() - 1,
        ix.len() == x.shape.len(),
        forall|i: int| 0 <= i < ix.len() - 1 ==> 0 <= #[trigger] ix[i] < x.shape[i],
    ensures
        last_row(x, ix) == last_row(w, moved(ix, k, lo)),
{
    let n = ix.len() - 1;
    let jx = moved(ix, k, lo);
    assert(x.shape.last() == w.shape.last());
    let r = last_row(x, ix);
    let q = last_row(w, jx);
    assert forall|i: int| 0 <= i < r.len() implies r[i] == q[i] by {
        let kx = ix.update(n, i);
        assert forall|j: int| 0 <= j < kx.len() implies 0 <= #[trigger] kx[j] < x.shape[j] by {
            if j < n {
                assert(0 <= ix[j] < x.shape[j]);
            }
        }
        assert(in_shape(kx, x.shape));
        lemma_moved(kx, x, w, k, lo);
        assert(moved(kx, k, lo) =~= jx.update(n, i));
    }
    assert(r =~= q);
}

/// Cutting the last axis works position by position.
pub proof fn cuts_on_parts(x: Term, w: Term, k: int, lo: int, start: i32, stop: i32, n: i32)
    requires
        part_on(x, w, k, lo),
        k < x.shape.len() - 1,
        x.shape.len() <= 4,
        has_shape(
            t_slice(Ok(x), -1i32, start, stop),
            x.shape.update(x.shape.len() - 1, n),
        ),
        x.shape.last() >= 0,
    ensures
        t_slice(Ok(w), -1i32, start, stop) matches Ok(b) && b.shape == w.shape.update(
            w.shape.len() - 1,
            n,
        ) && part_on(t_slice(Ok(x), -1i32, start, stop)->Ok_0, b, k, lo),
{
    reveal(raw_slice);
    let a = t_slice(Ok(x), -1i32, start, stop)->Ok_0;
    let b = t_slice(Ok(w), -1i32, start, stop)->Ok_0;
    let last = x.shape.len() - 1;
    assert(x.shape.last() == w.shape.last());
    assert(a.args[0] == x && b.args[0] == w);
    assert(a.shape[last] == n);
    assert(b.shape =~= w.shape.update(last, n));
    assert(a.shape =~= b.shape.update(k, a.shape[k]));
    let s = bound_of(start, x.shape.last());
    assert forall|ix: Seq<int>| #[trigger] in_shape(ix, a.shape) implies elem(a, ix) == elem(
        b,
        ix.update(k, ix[k] + lo),
    ) by {
        let jx = ix.update(last, ix[last] + s);
        assert forall|i: int| 0 <= i < jx.len() implies 0 <= #[trigger] jx[i] < x.shape[i] by {
            assert(0 <= ix[i] < a.shape[i]);
        }
        assert(in_shape(jx, x.shape));
        lemma_moved(jx, x, w, k, lo);
        let kx = moved(ix, k, lo);
        assert(moved(jx, k, lo) =~= kx.update(last, kx[last] + s));
    }
}

/// A linear layer works position by position.
pub proof fn linear_on_parts(
    l: LinearTerm,
    x: Term,
    w: Term,
    lo: int,
    b: i32,
    n: i32,
    t: i32,
    d: i32,
    m: i32,
)
    requires
        part_on(x, w, 1, lo),
        x.shape == seq![b, n, d],
        w.shape == seq![b, t, d],
        goes(l, d, m),
    ensures
        held_by(t_linear(l, Ok(x)), t_linear(l, Ok(w)), 1, lo, seq![b, n, m], seq![b, t, m]),
{
    a_linear_layer_keeps_rows(l, Ok(x), b, n, d, m);
    a_linear_layer_keeps_rows(l, Ok(w), b, t, d, m);
    reveal(goes);
    let (p, q, bias) = match l {
        LinearTerm::Dense { weight, bias } => {
            let wt = t_transpose(Ok(weight), seq![1i32, 0i32]);
            lemma_products(x, w, weight, lo, b, n, t, d, m);
            (t_matmul(Ok(x), wt), t_matmul(Ok(w), wt), bias)
        },
        LinearTerm::Packed { weight, scales, biases, bias, group_size, bits } => {
            let p = t_quantized_matmul(Ok(x), weight, scales, biases, group_size, bits);
            let q = t_quantized_matmul(Ok(w), weight, scales, biases, group_size, bits);
            reveal(raw_quantized_matmul);
            reveal(computed);
            assert(seq![b, n, d].update(2, m) =~= seq![b, n, m]);
            assert(seq![b, t, d].update(2, m) =~= seq![b, t, m]);
            let (a, c) = (p->Ok_0, q->Ok_0);
            assert(a.args == seq![x, weight, scales, biases]);
            assert(c.args == seq![w, weight, scales, biases]);
            assert(a.args[0] == x && c.args[0] == w);
            assert(a.args[1] == c.args[1] && a.args[2] == c.args[2] && a.args[3] == c.args[3]);
            assert(seq![b, n, m] =~= seq![b, t, m].update(1, n));
            assert forall|ix: Seq<int>| #[trigger] in_shape(ix, a.shape) implies elem(a, ix)
                == elem(c, ix.update(1, ix[1] + lo)) by {
                assert(0 <= ix[0] < a.shape[0] && 0 <= ix[1] < a.shape[1]);
                lemma_last_rows(ix, x, w, 1, lo);
                let jx = moved(ix, 1, lo);
                assert(elem(a, ix) == computed(a, ix) && elem(c, jx) == computed(c, jx));
            }
            (p, q, bias)
        },
    };
    match bias {
        Some(c) => {
            let e = Seq::<i32>::empty();
            assert(broadcast_shape(seq![b, n, m], seq![m]) =~= seq![b, n, m]);
            assert(broadcast_shape(seq![m], seq![b, n, m]) =~= seq![b, n, m]);
            assert(broadcast_shape(seq![b, t, m], seq![m]) =~= seq![b, t, m]);
            assert(broadcast_shape(seq![m], seq![b, t, m]) =~= seq![b, t, m]);
            constants_on_parts(BinaryOp::Add, p->Ok_0, q->Ok_0, c, 1, lo);
        },
        None => {},
    }
}

/// A product with a transposed weight works position by position.
proof fn lemma_products(
    x: Term,
    w: Term,
    weight: Term,
    lo: int,
    b: i32,
    n: i32,
    t: i32,
    d: i32,
    m: i32,
)
    requires
        part_on(x, w, 1, lo),
        x.shape == seq![b, n, d],
        w.shape == seq![b, t, d],
        weight.shape == seq![m, d],
    ensures
        ({
            let wt = t_transpose(Ok(weight), seq![1i32, 0i32]);
            held_by(t_matmul(Ok(x), wt), t_matmul(Ok(w), wt), 1, lo, seq![b, n, m], seq![b, t, m])
        }),
{
    let wt = t_transpose(Ok(weight), seq![1i32, 0i32]);
    let e = Seq::<i32>::empty();
    assert(wt is Ok && wt->Ok_0.shape == seq![d, m]) by {
        reveal(raw_transpose);
        let axes = seq![1i32, 0i32];
        assert(is_permutation(axes, 2));
        assert(permuted(weight.shape, axes) =~= seq![d, m]);
    }
    let z = wt->Ok_0;
    assert(z.shape.take(0) =~= e);
    assert(x.shape.take(1) =~= seq![b] && w.shape.take(1) =~= seq![b]);
    assert(broadcast_shape(seq![b], e) =~= seq![b]);
    assert(seq![b].push(n).push(m) =~= seq![b, n, m]);
    assert(seq![b].push(t).push(m) =~= seq![b, t, m]);
    let a = t_matmul(Ok(x), wt)->Ok_0;
    let c = t_matmul(Ok(w), wt)->Ok_0;
    assert(has_shape(t_matmul(Ok(x), wt), seq![b, n, m]) && has_shape(
        t_matmul(Ok(w), wt),
        seq![b, t, m],
    ) && is_product(a, x, z) && is_product(c, w, z) && a.dtype == c.dtype) by {
        reveal(raw_matmul);
    }
    assert(seq![b, n, m] =~= seq![b, t, m].update(1, n));
    assert forall|ix: Seq<int>| #[trigger] in_shape(ix, a.shape) implies elem(a, ix) == elem(
        c,
        ix.update(1, ix[1] + lo),
    ) by {
        let jx = moved(ix, 1, lo);
        assert(0 <= ix[0] < a.shape[0] && 0 <= ix[1] < a.shape[1]);
        lemma_left_rows(x, w, lo, b, n, t, d, ix);
        lemma_same_column(z, ix, jx);
        lemma_product_elems(a, c, x, w, z, ix, jx);
    }
}

/// Whether an expression is the product of two others.
spec fn is_product(a: Term, x: Term, z: Term) -> bool {
    a.kind == Kind::Matmul && a.args.len() == 2 && a.args[0] == x && a.args[1] == z
}

proof fn lemma_left_rows(x: Term, w: Term, lo: int, b: i32, n: i32, t: i32, d: i32, ix: Seq<int>)
    requires
        part_on(x, w, 1, lo),
        x.shape == seq![b, n, d],
        w.shape == seq![b, t, d],
        ix.len() == 3,
        0 <= ix[0] < b,
        0 <= ix[1] < n,
    ensures
        left_row(x, ix) == left_row(w, moved(ix, 1, lo)),
{
    let jx = moved(ix, 1, lo);
    let (r, q) = (left_row(x, ix), left_row(w, jx));
    assert(x.shape.take(1) =~= seq![b] && w.shape.take(1) =~= seq![b]);
    assert(ix.take(1) =~= seq![ix[0]] && jx.take(1) =~= seq![ix[0]]);
    assert(stretched_index(seq![ix[0]], seq![b]) =~= seq![ix[0]]);
    assert forall|i: int| 0 <= i < r.len() implies r[i] == q[i] by {
        let kx = seq![ix[0], ix[1], i];
        assert(seq![ix[0]].push(ix[1]).push(i) =~= kx);
        assert(in_shape(kx, x.shape));
        lemma_moved(kx, x, w, 1, lo);
        assert(seq![ix[0]].push(jx[1]).push(i) =~= moved(kx, 1, lo));
    }
    assert(r =~= q);
}

proof fn lemma_same_column(z: Term, ix: Seq<int>, jx: Seq<int>)
    requires
        z.shape.len() == 2,
        ix.len() == 3,
        jx.len() == 3,
        ix[2] == jx[2],
    ensures
        right_column(z, ix) == right_column(z, jx),
{
    let e = Seq::<i32>::empty();
    assert(z.shape.take(0) =~= e);
    assert(stretched_index(ix.take(1), e) =~= stretched_index(jx.take(1), e));
    assert(right_column(z, ix) =~= right_column(z, jx));
}

proof fn lemma_product_elems(
    a: Term,
    c: Term,
    x: Term,
    w: Term,
    z: Term,
    ix: Seq<int>,
    jx: Seq<int>,
)
    requires
        is_product(a, x, z),
        is_product(c, w, z),
        x.dtype == w.dtype,
        ix.len() == 3,
        jx.len() == 3,
        left_row(x, ix) == left_row(w, jx),
        right_column(z, ix) == right_column(z, jx),
    ensures
        elem(a, ix) == elem(c, jx),
{
    reveal(computed);
    assert(elem(a, ix) == computed(a, ix) && elem(c, jx) == computed(c, jx));
}

/// The place of a feature of a head among the features of all heads.
proof fn lemma_grouped_place(ix: Seq<int>, b: i32, n: i32, h: i32, d: i32)
    requires
        in_shape(ix, seq![b, n, h, d]),
        h * d <= i32::MAX,
    ensures
        in_shape(seq![ix[0], ix[1], ix[2] * d + ix[3]], seq![b, n, (h * d) as i32]),
        flat_index(ix, seq![b, n, h, d]) == flat_index(
            seq![ix[0], ix[1], ix[2] * d + ix[3]],
            seq![b, n, (h * d) as i32],
        ),
{
    let s = seq![b, n, h, d];
    let w = (h * d) as i32;
    let c = ix[2] * d + ix[3];
    assert(0 <= ix[0] < s[0] && 0 <= ix[1] < s[1] && 0 <= ix[2] < s[2] && 0 <= ix[3] < s[3]);
    assert(0 <= c < h * d) by (nonlinear_arith)
        requires
            0 <= ix[2] < h,
            0 <= ix[3] < d,
            c == ix[2] * d + ix[3],
    ;
    let none = Seq::<int>::empty();
    let e = Seq::<i32>::empty();
    let (i1, i2, i3) = (seq![ix[0]], seq![ix[0], ix[1]], seq![ix[0], ix[1], ix[2]]);
    let (s1, s2, s3) = (seq![b], seq![b, n], seq![b, n, h]);
    assert(ix.drop_last() =~= i3 && i3.drop_last() =~= i2 && i2.drop_last() =~= i1
        && i1.drop_last() =~= none);
    assert(s.drop_last() =~= s3 && s3.drop_last() =~= s2 && s2.drop_last() =~= s1
        && s1.drop_last() =~= e);
    let jx = seq![ix[0], ix[1], c];
    let t = seq![b, n, w];
    assert(jx.drop_last() =~= i2 && t.drop_last() =~= s2);
    let f = flat_index(i2, s2);
    assert(flat_index(i3, s3) == f * h + ix[2]);
    assert(flat_index(ix, s) == flat_index(i3, s3) * d + ix[3]);
    assert(flat_index(jx, t) == f * w + c);
    assert((f * h + ix[2]) * d + ix[3] == f * (h * d) + (ix[2] * d + ix[3])) by (nonlinear_arith);
}

/// Splitting features into heads puts every feature in its place.
pub(crate) proof fn lemma_grouping(x: Term, y: Term, b: i32, n: i32, h: i32, d: i32, ix: Seq<int>)
    requires
        b > 0,
        n > 0,
        h > 0,
        d > 0,
        b * n <= i32::MAX,
        h * d <= i32::MAX,
        x.shape == seq![b, n, (h * d) as i32],
        y.shape == seq![b, n, h, d],
        y.kind is Reshape,
        y.args == seq![x],
        in_shape(ix, y.shape),
    ensures
        in_shape(seq![ix[0], ix[1], ix[2] * d + ix[3]], x.shape),
        elem(y, ix) == elem(x, seq![ix[0], ix[1], ix[2] * d + ix[3]]),
{
    lemma_grouped_place(ix, b, n, h, d);
    let jx = seq![ix[0], ix[1], ix[2] * d + ix[3]];
    assert(h * d > 0) by (nonlinear_arith)
        requires
            h > 0,
            d > 0,
    ;
    lemma_count_three(b, n, (h * d) as i32);
    places_lead_back(jx, x.shape, (b * n) * ((h * d) as i32));
    assert(y.args[0] == x);
}

/// Joining heads puts every feature in its place.
pub(crate) proof fn lemma_ungrouping(x: Term, y: Term, b: i32, n: i32, h: i32, d: i32, ix: Seq<int>)
    requires
        b > 0,
        n > 0,
        h > 0,
        d > 0,
        b * n <= i32::MAX,
        h * d <= i32::MAX,
        x.shape == seq![b, n, h, d],
        y.shape == seq![b, n, (h * d) as i32],
        y.kind is Reshape,
        y.args == seq![x],
        in_shape(ix, y.shape),
    ensures
        in_shape(seq![ix[0], ix[1], ix[2] / (d as int), ix[2] % (d as int)], x.shape),
        elem(y, ix) == elem(x, seq![ix[0], ix[1], ix[2] / (d as int), ix[2] % (d as int)]),
{
    let s = y.shape;
    assert(0 <= ix[0] < s[0] && 0 <= ix[1] < s[1] && 0 <= ix[2] < s[2]);
    let (q, r) = (ix[2] / (d as int), ix[2] % (d as int));
    vstd::arithmetic::div_mod::lemma_fundamental_div_mod(ix[2], d as int);
    assert(0 <= q < h) by (nonlinear_arith)
        requires
            ix[2] == d * q + r,
            0 <= r < d,
            0 <= ix[2] < h * d,
    ;
    let jx = seq![ix[0], ix[1], q, r];
    assert(in_shape(jx, x.shape));
    lemma_grouped_place(jx, b, n, h, d);
    assert(jx[2] * d + jx[3] == ix[2]) by (nonlinear_arith)
        requires
            ix[2] == d * q + r,
            jx[2] == q,
            jx[3] == r,
    ;
    assert(seq![jx[0], jx[1], jx[2] * d + jx[3]] =~= ix);
    lemma_count_four(b, n, h, d);
    places_lead_back(jx, x.shape, (b * n) * (h * d));
    assert(y.args[0] == x);
}

/// The index into the operand of a transposition that swaps the two axes in the middle.
pub(crate) proof fn lemma_swapped(x: Term, y: Term, ix: Seq<int>)
    requires
        y.kind is Transpose,
        y.ints == heads_first(),
        y.args == seq![x],
        ix.len() == 4,
    ensures
        elem(y, ix) == elem(x, seq![ix[0], ix[2], ix[1], ix[3]]),
{
    let ints = y.ints;
    assert(ints[0] == 0 && ints[1] == 2 && ints[2] == 1 && ints[3] == 3);
    let jx = Seq::new(
        ix.len(),
        |j: int| ix[choose|i: int| 0 <= i < ints.len() && #[trigger] ints[i] == j],
    );
    assert(jx =~= seq![ix[0], ix[2], ix[1], ix[3]]) by {
        let c0 = choose|i: int| 0 <= i < ints.len() && #[trigger] ints[i] == 0;
        let c1 = choose|i: int| 0 <= i < ints.len() && #[trigger] ints[i] == 1;
        let c2 = choose|i: int| 0 <= i < ints.len() && #[trigger] ints[i] == 2;
        let c3 = choose|i: int| 0 <= i < ints.len() && #[trigger] ints[i] == 3;
        assert(c0 == 0 && c1 == 2 && c2 == 1 && c3 == 3);
    }
    assert(y.args[0] == x);
}

/// What a transposition that swaps the two axes in the middle gives.
pub(crate) proof fn lemma_swap(x: Term, a: i32, b: i32, c: i32, d: i32)
    requires
        x.shape == seq![a, b, c, d],
    ensures
        t_transpose(Ok(x), heads_first()) matches Ok(y) && y.shape == seq![a, c, b, d] && y.kind
            is Transpose && y.ints == heads_first() && y.args == seq![x] && y.dtype == x.dtype,
{
    reveal(raw_transpose);
    let axes = heads_first();
    assert(is_permutation(axes, 4));
    assert(permuted(x.shape, axes) =~= seq![a, c, b, d]);
}

/// Swapping the two axes in the middle turns parts on one into parts on the other.
pub proof fn swaps_on_parts(
    x: Term,
    w: Term,
    k: int,
    lo: int,
    a: i32,
    b: i32,
    c: i32,
    p: i32,
    q: i32,
    d: i32,
)
    requires
        k == 1 || k == 2,
        part_on(x, w, k, lo),
        x.shape == seq![a, b, c, d],
        w.shape == seq![a, p, q, d],
    ensures
        held_by(
            t_transpose(Ok(x), heads_first()),
            t_transpose(Ok(w), heads_first()),
            3 - k,
            lo,
            seq![a, c, b, d],
            seq![a, q, p, d],
        ),
{
    lemma_swap(x, a, b, c, d);
    lemma_swap(w, a, p, q, d);
    let y = t_transpose(Ok(x), heads_first())->Ok_0;
    let v = t_transpose(Ok(w), heads_first())->Ok_0;
    let m = 3 - k;
    assert(x.shape[0] == w.shape.update(k, x.shape[k])[0]);
    assert(x.shape[1] == w.shape.update(k, x.shape[k])[1]);
    assert(x.shape[2] == w.shape.update(k, x.shape[k])[2]);
    assert(y.shape =~= v.shape.update(m, y.shape[m]));
    assert forall|ix: Seq<int>| #[trigger] in_shape(ix, y.shape) implies elem(y, ix) == elem(
        v,
        ix.update(m, ix[m] + lo),
    ) by {
        let s = y.shape;
        assert(0 <= ix[0] < s[0] && 0 <= ix[1] < s[1] && 0 <= ix[2] < s[2] && 0 <= ix[3] < s[3]);
        lemma_swapped(x, y, ix);
        let jx = seq![ix[0], ix[2], ix[1], ix[3]];
        assert(in_shape(jx, x.shape));
        lemma_moved(jx, x, w, k, lo);
        let kx = moved(ix, m, lo);
        lemma_swapped(w, v, kx);
        assert(moved(jx, k, lo) =~= seq![kx[0], kx[2], kx[1], kx[3]]);
    }
}

/// Splitting features into heads works position by position.
pub proof fn grouping_on_parts(
    x: Term,
    w: Term,
    y: Term,
    v: Term,
    lo: int,
    b: i32,
    n: i32,
    t: i32,
    h: i32,
    d: i32,
)
    requires
        b > 0,
        n > 0,
        h > 0,
        d > 0,
        b * n <= i32::MAX,
        b * t <= i32::MAX,
        h * d <= i32::MAX,
        part_on(x, w, 1, lo),
        x.shape == seq![b, n, (h * d) as i32],
        w.shape == seq![b, t, (h * d) as i32],
        y.shape == seq![b, n, h, d],
        v.shape == seq![b, t, h, d],
        y.kind is Reshape,
        v.kind is Reshape,
        y.args == seq![x],
        v.args == seq![w],
        y.dtype == x.dtype,
        v.dtype == w.dtype,
    ensures
        part_on(y, v, 1, lo),
{
    assert(y.shape =~= v.shape.update(1, n));
    assert forall|ix: Seq<int>| #[trigger] in_shape(ix, y.shape) implies elem(y, ix) == elem(
        v,
        ix.update(1, ix[1] + lo),
    ) by {
        let s = y.shape;
        assert(0 <= ix[0] < s[0] && 0 <= ix[1] < s[1] && 0 <= ix[2] < s[2] && 0 <= ix[3] < s[3]);
        lemma_grouping(x, y, b, n, h, d, ix);
        let jx = seq![ix[0], ix[1], ix[2] * d + ix[3]];
        lemma_moved(jx, x, w, 1, lo);
        let kx = moved(ix, 1, lo);
        assert(in_shape(kx, v.shape));
        lemma_grouping(w, v, b, t, h, d, kx);
        assert(moved(jx, 1, lo) =~= seq![kx[0], kx[1], kx[2] * d + kx[3]]);
    }
}

/// Joining heads works position by position.
pub proof fn joining_on_parts(
    x: Term,
    w: Term,
    y: Term,
    v: Term,
    lo: int,
    b: i32,
    n: i32,
    t: i32,
    h: i32,
    d: i32,
)
    requires
        b > 0,
        n > 0,
        h > 0,
        d > 0,
        b * n <= i32::MAX,
        b * t <= i32::MAX,
        h * d <= i32::MAX,
        part_on(x, w, 1, lo),
        x.shape == seq![b, n, h, d],
        w.shape == seq![b, t, h, d],
        y.shape == seq![b, n, (h * d) as i32],
        v.shape == seq![b, t, (h * d) as i32],
        y.kind is Reshape,
        v.kind is Reshape,
        y.args == seq![x],
        v.args == seq![w],
        y.dtype == x.dtype,
        v.dtype == w.dtype,
    ensures
        part_on(y, v, 1, lo),
{
    assert(y.shape =~= v.shape.update(1, n));
    assert forall|ix: Seq<int>| #[trigger] in_shape(ix, y.shape) implies elem(y, ix) == elem(
        v,
        ix.update(1, ix[1] + lo),
    ) by {
        let s = y.shape;
        assert(0 <= ix[0] < s[0] && 0 <= ix[1] < s[1] && 0 <= ix[2] < s[2]);
        lemma_ungrouping(x, y, b, n, h, d, ix);
        let jx = seq![ix[0], ix[1], ix[2] / (d as int), ix[2] % (d as int)];
        lemma_moved(jx, x, w, 1, lo);
        let kx = moved(ix, 1, lo);
        assert(in_shape(kx, v.shape));
        lemma_ungrouping(w, v, b, t, h, d, kx);
        assert(moved(jx, 1, lo) =~= seq![
            kx[0],
            kx[1],
            kx[2] / (d as int),
            kx[2] % (d as int),
        ]);
    }
}

/// A reshape that succeeds is one.
pub(crate) proof fn lemma_is_reshape(x: Term, target: Seq<i32>)
    requires
        t_reshape(Ok(x), target) is Ok,
    ensures
        t_reshape(Ok(x), target)->Ok_0.kind is Reshape,
        t_reshape(Ok(x), target)->Ok_0.args == seq![x],
        t_reshape(Ok(x), target)->Ok_0.dtype == x.dtype,
{
    reveal(raw_reshape);
}

/// Joining on the last axis works position by position.
proof fn lemma_side_by_side(x: Term, w: Term, y: Term, v: Term, lo: int)
    requires
        part_on(x, w, 2, lo),
        part_on(y, v, 2, lo),
        x.shape.len() == 4,
        y.shape.len() == 4,
        t_concatenate(Ok(x), Ok(y), -1i32) is Ok,
        t_concatenate(Ok(w), Ok(v), -1i32) is Ok,
    ensures
        part_on(
            t_concatenate(Ok(x), Ok(y), -1i32)->Ok_0,
            t_concatenate(Ok(w), Ok(v), -1i32)->Ok_0,
            2,
            lo,
        ),
{
    reveal(raw_concatenate);
    let a = t_concatenate(Ok(x), Ok(y), -1i32)->Ok_0;
    let b = t_concatenate(Ok(w), Ok(v), -1i32)->Ok_0;
    assert(a.args[0] == x && a.args[1] == y && b.args[0] == w && b.args[1] == v);
    let n = x.shape[3];
    assert(w.shape[3] == n && v.shape[3] == y.shape[3]);
    assert(x.shape.update(3, 0)[2] == y.shape.update(3, 0)[2]);
    assert(a.shape =~= b.shape.update(2, a.shape[2]));
    assert forall|ix: Seq<int>| #[trigger] in_shape(ix, a.shape) implies elem(a, ix) == elem(
        b,
        ix.update(2, ix[2] + lo),
    ) by {
        assert(0 <= ix[3] < a.shape[3]);
        if ix[3] < n {
            assert forall|i: int| 0 <= i < ix.len() implies 0 <= #[trigger] ix[i] < x.shape[i] by {
                assert(0 <= ix[i] < a.shape[i]);
            }
            assert(in_shape(ix, x.shape));
            lemma_moved(ix, x, w, 2, lo);
        } else {
            let kx = ix.update(3, ix[3] - n);
            assert forall|i: int| 0 <= i < kx.len() implies 0 <= #[trigger] kx[i] < y.shape[i] by {
                assert(0 <= ix[i] < a.shape[i]);
                assert(i < 3 ==> x.shape.update(3, 0)[i] == y.shape.update(3, 0)[i]);
            }
            assert(in_shape(kx, y.shape));
            lemma_moved(kx, y, v, 2, lo);
            let jx = moved(ix, 2, lo);
            assert(moved(kx, 2, lo) =~= jx.update(3, jx[3] - n));
        }
    }
}

/// Scaling the leading features works position by position.
proof fn prescaling_on_parts(x: Term, w: Term, lo: int, dims: i32, mscale: Scalar)
    requires
        part_on(x, w, 2, lo),
        x.shape.len() == 4,
        prescaled(Ok(x), dims, mscale) is Ok,
        prescaled(Ok(w), dims, mscale) is Ok,
    ensures
        part_on(
            prescaled(Ok(x), dims, mscale)->Ok_0,
            prescaled(Ok(w), dims, mscale)->Ok_0,
            2,
            lo,
        ),
{
    let m = t_cast(t_scalar(mscale), x.dtype);
    assert(has_shape(m, Seq::empty())) by {
        reveal(raw_cast);
    }
    assert(x.shape.last() == w.shape.last());
    if 0 <= dims < x.shape.last() {
        let (p, q) = (t_slice(Ok(x), -1i32, 0, dims), t_slice(Ok(w), -1i32, 0, dims));
        let (r, z) = (t_slice(Ok(x), -1i32, dims, OPEN), t_slice(Ok(w), -1i32, dims, OPEN));
        let n = (x.shape.last() - dims) as i32;
        assert(has_shape(p, x.shape.update(3, dims)) && has_shape(r, x.shape.update(3, n))) by {
            reveal(raw_slice);
        }
        cuts_on_parts(x, w, 2, lo, 0, dims, dims);
        cuts_on_parts(x, w, 2, lo, dims, OPEN, n);
        lemma_times_number(p->Ok_0, q->Ok_0, m->Ok_0, lo);
        lemma_side_by_side(
            t_multiply(p, m)->Ok_0,
            t_multiply(q, m)->Ok_0,
            r->Ok_0,
            z->Ok_0,
            lo,
        );
    } else {
        lemma_times_number(x, w, m->Ok_0, lo);
    }
}

/// A product with a single number works position by position.
proof fn lemma_times_number(x: Term, w: Term, m: Term, lo: int)
    requires
        part_on(x, w, 2, lo),
        x.shape.len() == 4,
        m.shape.len() == 0,
    ensures
        t_multiply(Ok(x), Ok(m)) matches Ok(a) && t_multiply(Ok(w), Ok(m)) matches Ok(b)
            && part_on(a, b, 2, lo) && a.shape == x.shape && b.shape == w.shape,
{
    assert(broadcast_shape(x.shape, m.shape) =~= x.shape);
    assert(broadcast_shape(m.shape, x.shape) =~= x.shape);
    assert(broadcast_shape(w.shape, m.shape) =~= w.shape);
    assert(broadcast_shape(m.shape, w.shape) =~= w.shape);
    constants_on_parts(BinaryOp::Multiply, x, w, m, 2, lo);
}

/// Turning heads by their positions works position by position: a part that begins at `lo` is
/// turned from `lo` positions further on.
pub proof fn turns_on_parts(
    rope: RopeVariant,
    x: Term,
    w: Term,
    lo: int,
    offset: i32,
)
    requires
        part_on(x, w, 2, lo),
        x.shape.len() == 4,
        turns_heads(rope),
        offset + lo <= i32::MAX,
        offset >= 0,
    ensures
        rope.apply(Ok(x), (offset + lo) as i32) matches Ok(a) && rope.apply(
            Ok(w),
            offset,
        ) matches Ok(b) && a.shape == x.shape && b.shape == w.shape && part_on(a, b, 2, lo),
{
    reveal(raw_rope);
    let o = (offset + lo) as i32;
    turning_keeps_shape(rope, x, o);
    turning_keeps_shape(rope, w, offset);
    let a = rope.apply(Ok(x), o)->Ok_0;
    let b = rope.apply(Ok(w), offset)->Ok_0;
    let (y, v) = match rope {
        RopeVariant::Yarn(r) => {
            prescaling_keeps_shape(x, r.dimensions, r.mscale);
            prescaling_keeps_shape(w, r.dimensions, r.mscale);
            prescaling_on_parts(x, w, lo, r.dimensions, r.mscale);
            (
                prescaled(Ok(x), r.dimensions, r.mscale)->Ok_0,
                prescaled(Ok(w), r.dimensions, r.mscale)->Ok_0,
            )
        },
        _ => (x, w),
    };
    assert(a.args[0] == y && b.args[0] == v);
    assert(a.args.len() == b.args.len() && (a.args.len() == 2 ==> a.args[1] == b.args[1]));
    assert forall|ix: Seq<int>| #[trigger] in_shape(ix, a.shape) implies elem(a, ix) == elem(
        b,
        ix.update(2, ix[2] + lo),
    ) by {
        let s = x.shape;
        assert(0 <= ix[0] < s[0] && 0 <= ix[1] < s[1] && 0 <= ix[2] < s[2] && 0 <= ix[3] < s[3]);
        lemma_last_rows(ix, y, v, 2, lo);
        lemma_turned(a, b, ix, moved(ix, 2, lo), o, offset);
    }
}

proof fn lemma_turned(a: Term, b: Term, ix: Seq<int>, jx: Seq<int>, o: i32, p: i32)
    requires
        a.kind matches Kind::Rope { dims, traditional, offset } && offset == o && b.kind == (
        Kind::Rope { dims, traditional, offset: p }),
        ix.len() == 4,
        jx.len() == 4,
        1 <= a.args.len() <= 2,
        a.args.len() == b.args.len(),
        a.args.len() == 2 ==> a.args[1] == b.args[1],
        a.args[0].dtype == b.args[0].dtype,
        a.scalars == b.scalars,
        last_row(a.args[0], ix) == last_row(b.args[0], jx),
        ix.last() == jx.last(),
        o + ix[2] == p + jx[2],
    ensures
        elem(a, ix) == elem(b, jx),
{
    reveal(computed);
    assert(elem(a, ix) == computed(a, ix) && elem(b, jx) == computed(b, jx));
}

} // verus!
