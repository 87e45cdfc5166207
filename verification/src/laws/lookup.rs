//! What looking up and replacing listed positions does to each element.

use crate::array::{BinaryOp, Dtype, Kind, Term};
use crate::laws::masks::{at, lemma_count_one, lemma_count_pair, lemma_row_place};
use crate::laws::shapes::{has_shape, table_goes};
use crate::meaning::{
    combine, elem, flat_index, in_shape, index_at, put, row_through, stretched_index, Elem,
};
use crate::models::gpt_oss::picked_bias;
use crate::models::sampling::{id_row, penalized, signed};
use crate::nn::{t_embed, EmbeddingTerm};
use crate::ops::create::t_scalar;
use crate::ops::elementwise::{
    binary_dtype, raw_binary, raw_where, t_divide, t_gt, t_multiply, t_where,
};
use crate::ops::layout::{raw_reshape, t_flatten, t_reshape};
use crate::ops::product::{raw_dequantize, t_dequantize};
use crate::ops::select::{raw_put_along, raw_take, raw_take_along, t_take, t_take_along};
use crate::scalar::{lit, Float, Scalar, ZERO_BITS};
use crate::shape::{broadcast_shape, count, is_unknown_at, lemma_count_negative, resolve};
use vstd::prelude::*;

verus! {

/// The place of an index in row-major order leads back to the index.
pub proof fn places_lead_back(ix: Seq<int>, shape: Seq<i32>, n: int)
    requires
        in_shape(ix, shape),
        count(shape) == Some(n),
    ensures
        0 <= flat_index(ix, shape) < n,
        index_at(flat_index(ix, shape), shape) == ix,
    decreases shape.len(),
{
    if shape.len() == 0 {
        assert(index_at(flat_index(ix, shape), shape) =~= ix);
    } else {
        let d = shape.last() as int;
        let m = count(shape.drop_last())->Some_0;
        let f = flat_index(ix.drop_last(), shape.drop_last());
        let r = ix.last();
        assert(0 <= ix[ix.len() - 1] < shape[ix.len() - 1]);
        assert(in_shape(ix.drop_last(), shape.drop_last())) by {
            assert forall|i: int| 0 <= i < ix.len() - 1 implies 0 <= #[trigger] ix.drop_last()[i]
                < shape.drop_last()[i] by {
                assert(0 <= ix[i] < shape[i]);
            }
        }
        places_lead_back(ix.drop_last(), shape.drop_last(), m);
        assert(0 <= f * d + r < m * d && (f * d + r) / d == f && (f * d + r) % d == r)
            by (nonlinear_arith)
            requires
                0 <= f < m,
                0 <= r < d,
        ;
        assert(index_at(f * d + r, shape) =~= ix);
    }
}

/// The number that a penalty makes of one element: a positive one divided, any other multiplied.
pub open spec fn penalized_once(x: Elem, dtype: Dtype, penalty: Float) -> Elem {
    let zero = Elem::Real(lit(ZERO_BITS));
    let pen = Elem::Real(Scalar::Lit(penalty));
    let types = seq![dtype, Dtype::Float32];
    let positive = combine(
        BinaryOp::Greater,
        x,
        zero,
        Elem::Applied(Kind::Binary(BinaryOp::Greater), types, seq![x, zero]),
    );
    let smaller = combine(
        BinaryOp::Divide,
        x,
        pen,
        Elem::Applied(Kind::Binary(BinaryOp::Divide), types, seq![x, pen]),
    );
    let larger = combine(
        BinaryOp::Multiply,
        x,
        pen,
        Elem::Applied(Kind::Binary(BinaryOp::Multiply), types, seq![x, pen]),
    );
    match positive {
        Elem::Truth(c) => if c {
            smaller
        } else {
            larger
        },
        c => Elem::Applied(
            Kind::Where,
            seq![
                binary_dtype(BinaryOp::Divide, dtype, Dtype::Float32),
                binary_dtype(BinaryOp::Multiply, dtype, Dtype::Float32),
            ],
            seq![c, smaller, larger],
        ),
    }
}

/// The penalized value of each listed token.
proof fn lemma_penalties(logits: Term, recent: Seq<u32>, penalty: Float, v: i32)
    requires
        logits.shape == seq![1i32, v],
        0 < recent.len() <= i32::MAX,
        forall|j: int| 0 <= j < recent.len() ==> #[trigger] recent[j] < v,
    ensures
        ({
            let n = recent.len() as i32;
            let ids = id_row(recent);
            let selected = t_take_along(Ok(logits), ids, -1i32);
            let pen = t_scalar(Scalar::Lit(penalty));
            let values = t_where(
                t_gt(selected, t_scalar(lit(ZERO_BITS))),
                t_divide(selected, pen),
                t_multiply(selected, pen),
            );
            &&& has_shape(ids, seq![1i32, n])
            &&& has_shape(values, seq![1i32, n])
            &&& forall|j: int|
                0 <= j < n ==> #[trigger] elem(ids->Ok_0, at(0, j)) == Elem::Int(
                    recent[j] as int,
                )
            &&& forall|j: int|
                0 <= j < n ==> #[trigger] elem(values->Ok_0, at(0, j)) == penalized_once(
                    elem(logits, seq![0, recent[j] as int]),
                    logits.dtype,
                    penalty,
                )
        }),
{
    let n = recent.len() as i32;
    let row = seq![1i32, n];
    let e = Seq::<i32>::empty();
    let none = Seq::<int>::empty();
    lemma_count_pair(1, n);
    assert(1 * n == n);
    let ids = id_row(recent);
    assert(has_shape(ids, row));
    assert(broadcast_shape(seq![1i32, 1i32], row) =~= row);
    assert(broadcast_shape(row, e) =~= row);
    assert(broadcast_shape(row, row) =~= row);
    assert(logits.shape.update(1, 1i32) =~= seq![1i32, 1i32]);
    let selected = t_take_along(Ok(logits), ids, -1i32);
    assert(has_shape(selected, row) && selected->Ok_0.dtype == logits.dtype) by {
        reveal(raw_take_along);
    }
    let zero_t = t_scalar(lit(ZERO_BITS));
    let pen = t_scalar(Scalar::Lit(penalty));
    assert forall|j: int| 0 <= j < n implies #[trigger] elem(ids->Ok_0, at(0, j)) == Elem::Int(
        recent[j] as int,
    ) by {
        lemma_row_place(j, n);
        assert(recent[j] < v);
        assert(signed(recent[j]) == recent[j]);
    }
    let greater = t_gt(selected, zero_t);
    let smaller = t_divide(selected, pen);
    let larger = t_multiply(selected, pen);
    let values = t_where(greater, smaller, larger);
    assert(has_shape(greater, row) && has_shape(smaller, row) && has_shape(larger, row)) by {
        reveal(raw_binary);
    }
    assert(has_shape(values, row)) by {
        reveal(raw_where);
    }
    assert forall|j: int| 0 <= j < n implies #[trigger] elem(values->Ok_0, at(0, j))
        == penalized_once(elem(logits, seq![0, recent[j] as int]), logits.dtype, penalty) by {
        let ix = at(0, j);
        let p = recent[j] as int;
        assert(stretched_index(ix, row) =~= ix);
        assert(stretched_index(ix, e) =~= none);
        assert(flat_index(none, e) == 0);
        assert(recent[j] < v);
        assert(elem(ids->Ok_0, ix) == Elem::Int(p));
        let x = elem(selected->Ok_0, ix);
        assert(x == elem(logits, seq![0, p])) by {
            reveal(raw_take_along);
            let s = selected->Ok_0;
            assert(s.args[0] == logits && s.args[1] == ids->Ok_0);
            assert(stretched_index(ix.update(1, p), seq![1i32, v]) =~= seq![0, p]);
        }
        assert(elem(zero_t->Ok_0, none) == Elem::Real(lit(ZERO_BITS)));
        assert(elem(pen->Ok_0, none) == Elem::Real(Scalar::Lit(penalty)));
        lemma_with_scalar(BinaryOp::Greater, selected->Ok_0, lit(ZERO_BITS), ix, row);
        lemma_with_scalar(BinaryOp::Divide, selected->Ok_0, Scalar::Lit(penalty), ix, row);
        lemma_with_scalar(BinaryOp::Multiply, selected->Ok_0, Scalar::Lit(penalty), ix, row);
        let w = values->Ok_0;
        assert(w.kind == Kind::Where && w.args == seq![
            greater->Ok_0,
            smaller->Ok_0,
            larger->Ok_0,
        ]) by {
            reveal(raw_where);
        }
        assert(w.args[0] == greater->Ok_0 && w.args[1] == smaller->Ok_0 && w.args[2]
            == larger->Ok_0);
    }
}

/// An operation of an array with a single number, at an index.
proof fn lemma_with_scalar(op: BinaryOp, a: Term, s: Scalar, ix: Seq<int>, shape: Seq<i32>)
    requires
        a.shape == shape,
        broadcast_shape(shape, Seq::empty()) == shape,
        stretched_index(ix, shape) == ix,
    ensures
        ({
            let r = crate::ops::elementwise::t_binary(op, Ok(a), t_scalar(s));
            let x = elem(a, ix);
            let y = Elem::Real(s);
            &&& r is Ok
            &&& r->Ok_0.dtype == binary_dtype(op, a.dtype, Dtype::Float32)
            &&& elem(r->Ok_0, ix) == combine(
                op,
                x,
                y,
                Elem::Applied(Kind::Binary(op), seq![a.dtype, Dtype::Float32], seq![x, y]),
            )
        }),
{
    reveal(raw_binary);
    let e = Seq::<i32>::empty();
    let none = Seq::<int>::empty();
    let t = t_scalar(s)->Ok_0;
    assert(stretched_index(ix, e) =~= none);
    assert(flat_index(none, e) == 0);
    assert(elem(t, none) == Elem::Real(s));
    let r = crate::ops::elementwise::t_binary(op, Ok(a), t_scalar(s))->Ok_0;
    assert(r.args[0] == a && r.args[1] == t);
}

/// The penalty leaves the tokens alone that were not seen, and changes each one that was seen once,
/// however often it was seen. Ids are to lie in the vocabulary.
pub proof fn penalty_touches_seen_tokens_once(
    logits: Term,
    recent: Seq<u32>,
    penalty: Float,
    v: i32,
    token: u32,
)
    requires
        logits.shape == seq![1i32, v],
        0 < recent.len() <= i32::MAX,
        forall|j: int| 0 <= j < recent.len() ==> #[trigger] recent[j] < v,
        token < v,
    ensures
        penalized(Ok(logits), recent, penalty) matches Ok(y) && y.shape == seq![1i32, v] && elem(
            y,
            seq![0, token as int],
        ) == if recent.contains(token) {
            penalized_once(elem(logits, seq![0, token as int]), logits.dtype, penalty)
        } else {
            elem(logits, seq![0, token as int])
        },
{
    lemma_penalties(logits, recent, penalty, v);
    let n = recent.len() as i32;
    let row = seq![1i32, n];
    let ids = id_row(recent);
    let selected = t_take_along(Ok(logits), ids, -1i32);
    let pen = t_scalar(Scalar::Lit(penalty));
    let values = t_where(
        t_gt(selected, t_scalar(lit(ZERO_BITS))),
        t_divide(selected, pen),
        t_multiply(selected, pen),
    );
    assert(broadcast_shape(seq![1i32, 1i32], seq![1i32, v]) =~= seq![1i32, v]);
    assert(broadcast_shape(row, row) =~= row);
    assert(row.update(1, 1i32) =~= seq![1i32, 1i32]);
    reveal(raw_put_along);
    let y = penalized(Ok(logits), recent, penalty)->Ok_0;
    assert(y.args[0] == logits && y.args[1] == ids->Ok_0 && y.args[2] == values->Ok_0);
    let p = token as int;
    let ix = seq![0, p];
    let list = row_through(ids->Ok_0, ix, 1, recent.len());
    let news = row_through(values->Ok_0, ix, 1, recent.len());
    assert(elem(y, ix) == put(list, news, p, v as int, elem(logits, ix), Elem::Of(y, ix)));
    assert forall|j: int| 0 <= j < n implies #[trigger] list[j] == Elem::Int(recent[j] as int)
        && news[j] == penalized_once(
        elem(logits, seq![0, recent[j] as int]),
        logits.dtype,
        penalty,
    ) by {
        assert(stretched_index(ix.update(1, j), row) =~= at(0, j));
        assert(elem(ids->Ok_0, at(0, j)) == Elem::Int(recent[j] as int));
        assert(elem(values->Ok_0, at(0, j)) == penalized_once(
            elem(logits, seq![0, recent[j] as int]),
            logits.dtype,
            penalty,
        ));
    }
    if recent.contains(token) {
        let j = recent.index_of(token);
        assert(list[j] == Elem::Int(p));
        assert(list.contains(Elem::Int(p)));
    } else {
        assert forall|j: int| 0 <= j < n implies #[trigger] list[j] != Elem::Int(p) by {
            assert(recent[j] != token);
        }
    }
}

/// A list of `n` entries under one axis, entry by entry.
pub(crate) proof fn lemma_flat_list(indices: Term, n: int)
    requires
        count(indices.shape) == Some(n),
        0 < n <= i32::MAX,
    ensures
        has_shape(t_flatten(Ok(indices)), seq![n as i32]),
        forall|ix: Seq<int>| #[trigger]
            in_shape(ix, indices.shape) ==> elem(
                t_flatten(Ok(indices))->Ok_0,
                seq![flat_index(ix, indices.shape)],
            ) == elem(indices, ix),
{
    let rows = n as i32;
    let open_row = seq![-1i32];
    assert(is_unknown_at(open_row, 0));
    let k0 = choose|k: int| is_unknown_at(open_row, k);
    assert(k0 == 0);
    assert(open_row.update(0, 1) =~= seq![1i32]);
    lemma_count_one(1);
    assert(n % 1 == 0 && n / 1 == n);
    assert(open_row.update(0, rows) =~= seq![rows]);
    assert(resolve(open_row, n) == Some(seq![rows]));
    reveal(raw_reshape);
    let flat = t_flatten(Ok(indices))->Ok_0;
    assert(flat.args[0] == indices);
    assert forall|ix: Seq<int>| #[trigger] in_shape(ix, indices.shape) implies elem(
        flat,
        seq![flat_index(ix, indices.shape)],
    ) == elem(indices, ix) by {
        places_lead_back(ix, indices.shape, n);
        let m = flat_index(ix, indices.shape);
        assert(seq![m].drop_last() =~= Seq::<int>::empty());
        assert(seq![rows].drop_last() =~= Seq::<i32>::empty());
        reveal_with_fuel(flat_index, 2);
        assert(0 * rows == 0);
        assert(flat_index(seq![m], seq![rows]) == m);
    }
}

/// Rows under the axes of a list: a slot of the list and a place in the row.
pub(crate) proof fn lemma_rows_under(taken: Term, shape: Seq<i32>, out: i32, n: int)
    requires
        taken.shape == seq![n as i32, out],
        out >= 0,
        count(shape) == Some(n),
        0 < n <= i32::MAX,
    ensures
        has_shape(t_reshape(Ok(taken), shape.push(-1i32)), shape.push(out)),
        forall|ix: Seq<int>| #[trigger]
            in_shape(ix, shape.push(out)) ==> elem(
                t_reshape(Ok(taken), shape.push(-1i32))->Ok_0,
                ix,
            ) == elem(taken, seq![flat_index(ix.drop_last(), shape), ix.last()]),
{
    let rows = n as i32;
    let target = shape.push(-1i32);
    let last = shape.len() as int;
    assert forall|j: int| 0 <= j < last implies #[trigger] target[j] != -1 by {
        if shape[j] < 0 {
            lemma_count_negative(shape, j);
        }
    }
    assert(is_unknown_at(target, last));
    let k = choose|k: int| is_unknown_at(target, k);
    assert(k == last) by {
        if k != last {
            assert(target[k] != -1);
        }
    }
    assert(target.update(last, 1) =~= shape.push(1i32));
    assert(shape.push(1i32).drop_last() =~= shape);
    assert(n * 1 == n);
    assert(count(shape.push(1i32)) == Some(n));
    lemma_count_pair(rows, out);
    assert((n * out) % n == 0 && (n * out) / n == out) by (nonlinear_arith)
        requires
            n > 0,
    ;
    assert(target.update(last, out) =~= shape.push(out));
    assert(resolve(target, n * out) == Some(shape.push(out)));
    reveal(raw_reshape);
    let y = t_reshape(Ok(taken), target)->Ok_0;
    assert(y.args[0] == taken);
    assert forall|ix: Seq<int>| #[trigger] in_shape(ix, shape.push(out)) implies elem(y, ix)
        == elem(taken, seq![flat_index(ix.drop_last(), shape), ix.last()]) by {
        let place = ix.drop_last();
        assert(in_shape(place, shape)) by {
            assert forall|i: int| 0 <= i < place.len() implies 0 <= #[trigger] place[i]
                < shape[i] by {
                assert(0 <= ix[i] < shape.push(out)[i]);
            }
        }
        places_lead_back(place, shape, n);
        assert(0 <= ix[last] < shape.push(out)[last]);
        assert(shape.push(out).drop_last() =~= shape);
        let (m, c, d) = (flat_index(place, shape), ix.last(), out as int);
        assert(flat_index(ix, shape.push(out)) == m * d + c);
        lemma_pair_index(m, c, rows, out);
    }
}

/// The index at a place of a table.
proof fn lemma_pair_index(m: int, c: int, rows: i32, out: i32)
    requires
        0 <= m < rows,
        0 <= c < out,
    ensures
        index_at(m * out + c, seq![rows, out]) == seq![m, c],
{
    let d = out as int;
    assert((m * d + c) / d == m && (m * d + c) % d == c) by (nonlinear_arith)
        requires
            0 <= c < d,
    ;
    assert(seq![rows, out].drop_last() =~= seq![rows]);
    assert(seq![rows].drop_last() =~= Seq::<i32>::empty());
    vstd::arithmetic::div_mod::lemma_small_mod(m as nat, rows as nat);
    reveal_with_fuel(index_at, 3);
    assert(index_at(m, seq![rows]) =~= seq![m]);
    assert(index_at(m * d + c, seq![rows, out]) =~= seq![m, c]);
}

/// The biases of the experts that a list picks: slot `ix` of the list holds the whole row of the
/// expert that stands there.
pub proof fn every_slot_holds_its_expert(
    bias: Term,
    indices: Term,
    experts: i32,
    out: i32,
    n: int,
    ix: Seq<int>,
    expert: int,
)
    requires
        bias.shape == seq![experts, out],
        out >= 0,
        count(indices.shape) == Some(n),
        0 < n <= i32::MAX,
        in_shape(ix, indices.shape.push(out)),
        elem(indices, ix.drop_last()) == Elem::Int(expert),
        0 <= expert < experts,
    ensures
        picked_bias(Ok(bias), Ok(indices)) matches Ok(y) && y.shape == indices.shape.push(out)
            && elem(y, ix) == elem(bias, seq![expert, ix.last()]),
{
    let shape = indices.shape;
    let rows = n as i32;
    let place = ix.drop_last();
    assert(in_shape(place, shape)) by {
        assert forall|i: int| 0 <= i < place.len() implies 0 <= #[trigger] place[i] < shape[i] by {
            assert(0 <= ix[i] < shape.push(out)[i]);
        }
    }
    lemma_flat_list(indices, n);
    let flat = t_flatten(Ok(indices));
    let taken = t_take(Ok(bias), flat, 0);
    assert(has_shape(taken, seq![rows, out]) && taken->Ok_0.kind == (Kind::Take { axis: 0 })
        && taken->Ok_0.args == seq![bias, flat->Ok_0]) by {
        reveal(raw_take);
        assert(bias.shape.take(0) + seq![rows] + bias.shape.skip(1) =~= seq![rows, out]);
    }
    lemma_rows_under(taken->Ok_0, shape, out, n);
    let (m, c) = (flat_index(place, shape), ix.last());
    assert(elem(flat->Ok_0, seq![m]) == Elem::Int(expert));
    let jx = seq![m, c];
    assert(jx.subrange(0, 1) =~= seq![m]);
    assert(jx.take(0).push(expert) + jx.skip(1) =~= seq![expert, c]);
    assert(taken->Ok_0.args[0] == bias && taken->Ok_0.args[1] == flat->Ok_0);
    assert(elem(taken->Ok_0, jx) == elem(bias, seq![expert, c]));
}

/// An embedding table of `v` rows, in full precision or packed, gives one row a token.
pub proof fn a_table_gives_a_row_a_token(
    e: EmbeddingTerm,
    ids: Term,
    b: i32,
    l: i32,
    v: i32,
    dim: i32,
)
    requires
        b > 0,
        l > 0,
        dim >= 0,
        b * l <= i32::MAX,
        table_goes(e, v, dim),
        ids.shape == seq![b, l],
    ensures
        has_shape(t_embed(e, ids), seq![b, l, dim]),
{
    reveal(table_goes);
    match e {
        EmbeddingTerm::Dense { weight } => {
            reveal(raw_take);
            assert(weight.shape.take(0) + ids.shape + weight.shape.skip(1) =~= seq![b, l, dim]);
        },
        EmbeddingTerm::Packed { weight, scales, biases, group_size, bits } => {
            let n = b * l;
            let rows = n as i32;
            assert(b * l > 0) by (nonlinear_arith)
                requires
                    b > 0,
                    l > 0,
            ;
            lemma_count_pair(b, l);
            lemma_flat_list(ids, n);
            let flat = t_flatten(Ok(ids));
            let (w, s, c) = (
                t_take(Ok(weight), flat, 0),
                t_take(Ok(scales), flat, 0),
                t_take(Ok(biases), flat, 0),
            );
            let (words, groups) = (weight.shape[1], scales.shape[1]);
            assert(has_shape(w, seq![rows, words]) && has_shape(s, seq![rows, groups])
                && has_shape(c, seq![rows, groups])) by {
                reveal(raw_take);
                assert(weight.shape.take(0) + seq![rows] + weight.shape.skip(1) =~= seq![
                    rows,
                    words,
                ]);
                assert(scales.shape.take(0) + seq![rows] + scales.shape.skip(1) =~= seq![
                    rows,
                    groups,
                ]);
            }
            let plain_rows = t_dequantize(w, s, c, group_size, bits);
            assert(has_shape(plain_rows, seq![rows, dim])) by {
                reveal(raw_dequantize);
                assert(seq![rows, words].drop_last() =~= seq![rows, groups].drop_last());
                assert(seq![rows, words].update(1, dim) =~= seq![rows, dim]);
            }
            lemma_rows_under(plain_rows->Ok_0, ids.shape, dim, n);
            assert(seq![b, l].push(dim) =~= seq![b, l, dim]);
        },
    }
}

} // verus!
