//! Looking up some of the positions of a longer run in an embedding table.

use crate::array::{Kind, Term, Tn};
use crate::laws::arrays::part_on;
use crate::laws::lookup::{a_table_gives_a_row_a_token, lemma_flat_list, lemma_rows_under};
use crate::laws::masks::lemma_count_pair;
use crate::laws::parts::held_by;
use crate::laws::shapes::{has_shape, table_goes};
use crate::meaning::{computed, elem, flat_index, in_shape, last_row};
use crate::nn::{t_embed, EmbeddingTerm};
use crate::ops::layout::{raw_reshape, t_flatten, t_reshape};
use crate::ops::product::{raw_dequantize, t_dequantize};
use crate::ops::select::{raw_take, t_take};
use crate::shape::count;
use vstd::prelude::*;

verus! {

/// The rows of a table that two lists name alike are the same.
proof fn lemma_taken(table: Term, x: Term, w: Term, kx: Seq<int>, kw: Seq<int>, c: int)
    requires
        table.shape.len() == 2,
        x.dtype == w.dtype,
        kx.len() == x.shape.len(),
        kw.len() == w.shape.len(),
        elem(x, kx) == elem(w, kw),
    ensures
        ({
            let (a, b) = (t_take(Ok(table), Ok(x), 0), t_take(Ok(table), Ok(w), 0));
            a is Ok && b is Ok && elem(a->Ok_0, kx.push(c)) == elem(b->Ok_0, kw.push(c))
        }),
{
    reveal(raw_take);
    let a = t_take(Ok(table), Ok(x), 0)->Ok_0;
    let b = t_take(Ok(table), Ok(w), 0)->Ok_0;
    assert(a.args[0] == table && a.args[1] == x && b.args[0] == table && b.args[1] == w);
    let (ix, jx) = (kx.push(c), kw.push(c));
    assert(ix.subrange(0, kx.len() as int) =~= kx);
    assert(jx.subrange(0, kw.len() as int) =~= kw);
    assert(ix.take(0) =~= jx.take(0));
    assert(ix.skip(kx.len() as int) =~= seq![c]);
    assert(jx.skip(kw.len() as int) =~= seq![c]);
}

/// The rows of a packed table that two lists name alike unpack to the same.
proof fn lemma_unpacked(
    weight: Term,
    scales: Term,
    biases: Term,
    group_size: i32,
    bits: i32,
    v: i32,
    dim: i32,
    x: Term,
    w: Term,
    i: int,
    j: int,
    c: int,
)
    requires
        dim >= 0,
        table_goes(EmbeddingTerm::Packed { weight, scales, biases, group_size, bits }, v, dim),
        x.shape.len() == 1,
        w.shape.len() == 1,
        x.dtype == w.dtype,
        elem(x, seq![i]) == elem(w, seq![j]),
    ensures
        ({
            let a = unpacked(weight, scales, biases, group_size, bits, x);
            let b = unpacked(weight, scales, biases, group_size, bits, w);
            &&& has_shape(a, seq![x.shape[0], dim])
            &&& has_shape(b, seq![w.shape[0], dim])
            &&& a->Ok_0.dtype == b->Ok_0.dtype
            &&& elem(a->Ok_0, seq![i, c]) == elem(b->Ok_0, seq![j, c])
        }),
{
    reveal(table_goes);
    lemma_unpacked_shape(weight, scales, biases, group_size, bits, v, dim, x);
    lemma_unpacked_shape(weight, scales, biases, group_size, bits, v, dim, w);
    let a = unpacked(weight, scales, biases, group_size, bits, x);
    let b = unpacked(weight, scales, biases, group_size, bits, w);
    lemma_taken_row(weight, x, w, i, j, c);
    lemma_taken_row(scales, x, w, i, j, c);
    lemma_taken_row(biases, x, w, i, j, c);
    let (p, q) = (a->Ok_0, b->Ok_0);
    reveal(computed);
    assert(elem(p, seq![i, c]) == computed(p, seq![i, c]));
    assert(elem(q, seq![j, c]) == computed(q, seq![j, c]));
}

proof fn lemma_unpacked_shape(
    weight: Term,
    scales: Term,
    biases: Term,
    group_size: i32,
    bits: i32,
    v: i32,
    dim: i32,
    list: Term,
)
    requires
        dim >= 0,
        table_goes(EmbeddingTerm::Packed { weight, scales, biases, group_size, bits }, v, dim),
        list.shape.len() == 1,
    ensures
        ({
            let a = unpacked(weight, scales, biases, group_size, bits, list);
            let n = t_take(Ok(weight), Ok(list), 0);
            let s = t_take(Ok(scales), Ok(list), 0);
            let c = t_take(Ok(biases), Ok(list), 0);
            &&& has_shape(a, seq![list.shape[0], dim])
            &&& n is Ok && s is Ok && c is Ok
            &&& a->Ok_0.kind == (Kind::Dequantize { group_size, bits })
            &&& a->Ok_0.dtype == scales.dtype
            &&& a->Ok_0.args.len() == 3
            &&& a->Ok_0.args[0] == n->Ok_0
            &&& a->Ok_0.args[1] == s->Ok_0
            &&& a->Ok_0.args[2] == c->Ok_0
            &&& s->Ok_0.dtype == scales.dtype
        }),
{
    reveal(table_goes);
    let (words, groups) = (weight.shape[1], scales.shape[1]);
    lemma_taken_shape(weight, list);
    lemma_taken_shape(scales, list);
    lemma_taken_shape(biases, list);
    let n = list.shape[0];
    let taken = t_take(Ok(weight), Ok(list), 0)->Ok_0;
    let s = t_take(Ok(scales), Ok(list), 0)->Ok_0;
    assert(taken.shape == seq![n, words] && s.shape == seq![n, groups]);
    assert(seq![n, words].drop_last() =~= seq![n, groups].drop_last());
    assert(seq![n, words].update(1, dim) =~= seq![n, dim]);
    assert(groups * group_size == dim);
    reveal(raw_dequantize);
}

/// The unpacked rows of a packed table that a list names.
spec fn unpacked(
    weight: Term,
    scales: Term,
    biases: Term,
    group_size: i32,
    bits: i32,
    list: Term,
) -> Tn {
    t_dequantize(
        t_take(Ok(weight), Ok(list), 0),
        t_take(Ok(scales), Ok(list), 0),
        t_take(Ok(biases), Ok(list), 0),
        group_size,
        bits,
    )
}

proof fn lemma_taken_shape(table: Term, list: Term)
    requires
        table.shape.len() == 2,
        list.shape.len() == 1,
    ensures
        has_shape(t_take(Ok(table), Ok(list), 0), seq![list.shape[0], table.shape[1]]),
        t_take(Ok(table), Ok(list), 0)->Ok_0.dtype == table.dtype,
{
    reveal(raw_take);
    assert(table.shape.take(0) + list.shape + table.shape.skip(1) =~= seq![
        list.shape[0],
        table.shape[1],
    ]);
}

/// The whole rows of a table that two lists name alike are the same.
proof fn lemma_taken_row(table: Term, x: Term, w: Term, i: int, j: int, c: int)
    requires
        table.shape.len() == 2,
        x.shape.len() == 1,
        w.shape.len() == 1,
        x.dtype == w.dtype,
        elem(x, seq![i]) == elem(w, seq![j]),
    ensures
        last_row(t_take(Ok(table), Ok(x), 0)->Ok_0, seq![i, c]) == last_row(
            t_take(Ok(table), Ok(w), 0)->Ok_0,
            seq![j, c],
        ),
{
    lemma_taken_shape(table, x);
    lemma_taken_shape(table, w);
    let a = t_take(Ok(table), Ok(x), 0)->Ok_0;
    let b = t_take(Ok(table), Ok(w), 0)->Ok_0;
    let (r, q) = (last_row(a, seq![i, c]), last_row(b, seq![j, c]));
    assert(r.len() == q.len());
    assert forall|d: int| 0 <= d < r.len() implies r[d] == q[d] by {
        assert(seq![i, c].update(1, d) =~= seq![i].push(d));
        assert(seq![j, c].update(1, d) =~= seq![j].push(d));
        lemma_taken(table, x, w, seq![i], seq![j], d);
    }
    assert(r =~= q);
}

/// An embedding table works position by position.
pub proof fn embeddings_on_parts(
    e: EmbeddingTerm,
    x: Term,
    w: Term,
    lo: int,
    b: i32,
    n: i32,
    l: i32,
    v: i32,
    dim: i32,
)
    requires
        b > 0,
        n > 0,
        dim >= 0,
        b * l <= i32::MAX,
        table_goes(e, v, dim),
        x.shape == seq![b, n],
        w.shape == seq![b, l],
        part_on(x, w, 1, lo),
    ensures
        held_by(t_embed(e, x), t_embed(e, w), 1, lo, seq![b, n, dim], seq![b, l, dim]),
{
    assert(b * n <= b * l && b * n > 0) by (nonlinear_arith)
        requires
            b > 0,
            0 < n <= l,
    ;
    a_table_gives_a_row_a_token(e, x, b, n, v, dim);
    a_table_gives_a_row_a_token(e, w, b, l, v, dim);
    let (p, q) = (t_embed(e, x)->Ok_0, t_embed(e, w)->Ok_0);
    assert(seq![b, n, dim] =~= seq![b, l, dim].update(1, n));
    assert(p.dtype == q.dtype) by {
        lemma_embedded_type(e, x, w, b, n, l, v, dim);
    }
    assert forall|ix: Seq<int>| #[trigger] in_shape(ix, p.shape) implies elem(p, ix) == elem(
        q,
        ix.update(1, ix[1] + lo),
    ) by {
        lemma_embedded(e, x, w, lo, b, n, l, v, dim, ix);
    }
}

proof fn lemma_embedded_type(
    e: EmbeddingTerm,
    x: Term,
    w: Term,
    b: i32,
    n: i32,
    l: i32,
    v: i32,
    dim: i32,
)
    requires
        t_embed(e, x) is Ok,
        t_embed(e, w) is Ok,
    ensures
        t_embed(e, x)->Ok_0.dtype == t_embed(e, w)->Ok_0.dtype,
{
    reveal(raw_take);
    reveal(raw_dequantize);
    reveal(raw_reshape);
}

proof fn lemma_embedded(
    e: EmbeddingTerm,
    x: Term,
    w: Term,
    lo: int,
    b: i32,
    n: i32,
    l: i32,
    v: i32,
    dim: i32,
    ix: Seq<int>,
)
    requires
        b > 0,
        n > 0,
        dim >= 0,
        b * l <= i32::MAX,
        table_goes(e, v, dim),
        x.shape == seq![b, n],
        w.shape == seq![b, l],
        part_on(x, w, 1, lo),
        in_shape(ix, seq![b, n, dim]),
    ensures
        elem(t_embed(e, x)->Ok_0, ix) == elem(t_embed(e, w)->Ok_0, ix.update(1, ix[1] + lo)),
{
    let s = seq![b, n, dim];
    assert(0 <= ix[0] < s[0] && 0 <= ix[1] < s[1] && 0 <= ix[2] < s[2]);
    let jx = ix.update(1, ix[1] + lo);
    let (kx, kw, c) = (seq![ix[0], ix[1]], seq![ix[0], ix[1] + lo], ix[2]);
    assert(ix =~= kx.push(c) && jx =~= kw.push(c));
    assert(ix.drop_last() =~= kx && jx.drop_last() =~= kw);
    assert(in_shape(kx, x.shape));
    assert(in_shape(kw, w.shape));
    assert(kx.update(1, kx[1] + lo) =~= kw);
    assert(elem(x, kx) == elem(w, kw));
    match e {
        EmbeddingTerm::Dense { weight } => {
            reveal(table_goes);
            lemma_taken(weight, x, w, kx, kw, c);
        },
        _ => {
            lemma_unpacked_at(e, x, w, b, n, l, v, dim, kx, kw, c);
        },
    }
}

/// An entry of a list under one axis.
proof fn lemma_flat_at(list: Term, n: int, ix: Seq<int>)
    requires
        count(list.shape) == Some(n),
        0 < n <= i32::MAX,
        in_shape(ix, list.shape),
    ensures
        has_shape(t_flatten(Ok(list)), seq![n as i32]),
        t_flatten(Ok(list))->Ok_0.dtype == list.dtype,
        elem(t_flatten(Ok(list))->Ok_0, seq![flat_index(ix, list.shape)]) == elem(list, ix),
{
    lemma_flat_list(list, n);
    reveal(raw_reshape);
}

/// An element of rows under the axes of a list.
proof fn lemma_row_at(taken: Term, shape: Seq<i32>, out: i32, n: int, place: Seq<int>, c: int)
    requires
        taken.shape == seq![n as i32, out],
        0 <= c < out,
        count(shape) == Some(n),
        0 < n <= i32::MAX,
        in_shape(place, shape),
    ensures
        elem(t_reshape(Ok(taken), shape.push(-1i32))->Ok_0, place.push(c)) == elem(
            taken,
            seq![flat_index(place, shape), c],
        ),
{
    lemma_rows_under(taken, shape, out, n);
    let ix = place.push(c);
    assert(ix.drop_last() =~= place);
    assert forall|i: int| 0 <= i < ix.len() implies 0 <= #[trigger] ix[i] < shape.push(
        out,
    )[i] by {
        if i < place.len() {
            assert(0 <= place[i] < shape[i]);
        }
    }
    assert(in_shape(ix, shape.push(out)));
}

/// The rows that a packed table gives to one token are the same wherever it stands.
proof fn lemma_unpacked_at(
    e: EmbeddingTerm,
    x: Term,
    w: Term,
    b: i32,
    n: i32,
    l: i32,
    v: i32,
    dim: i32,
    kx: Seq<int>,
    kw: Seq<int>,
    c: int,
)
    requires
        e is Packed,
        b > 0,
        0 < n <= l,
        0 <= c < dim,
        b * l <= i32::MAX,
        table_goes(e, v, dim),
        x.shape == seq![b, n],
        w.shape == seq![b, l],
        x.dtype == w.dtype,
        in_shape(kx, x.shape),
        in_shape(kw, w.shape),
        elem(x, kx) == elem(w, kw),
    ensures
        elem(t_embed(e, x)->Ok_0, kx.push(c)) == elem(t_embed(e, w)->Ok_0, kw.push(c)),
{
    let (cn, cl) = (b * n, b * l);
    assert(0 < b * n <= b * l) by (nonlinear_arith)
        requires
            b > 0,
            0 < n <= l,
    ;
    lemma_count_pair(b, n);
    lemma_count_pair(b, l);
    lemma_flat_at(x, cn, kx);
    lemma_flat_at(w, cl, kw);
    let (fx, fw) = (t_flatten(Ok(x))->Ok_0, t_flatten(Ok(w))->Ok_0);
    let (i, j) = (flat_index(kx, x.shape), flat_index(kw, w.shape));
    match e {
        EmbeddingTerm::Packed { weight, scales, biases, group_size, bits } => {
            lemma_unpacked(
                weight,
                scales,
                biases,
                group_size,
                bits,
                v,
                dim,
                fx,
                fw,
                i,
                j,
                c,
            );
            let p = unpacked(weight, scales, biases, group_size, bits, fx);
            let q = unpacked(weight, scales, biases, group_size, bits, fw);
            assert(t_embed(e, x) == t_reshape(p, x.shape.push(-1i32)));
            assert(t_embed(e, w) == t_reshape(q, w.shape.push(-1i32)));
            lemma_row_at(p->Ok_0, x.shape, dim, cn, kx, c);
            lemma_row_at(q->Ok_0, w.shape, dim, cl, kw, c);
        },
        _ => {},
    }
}

} // verus!
