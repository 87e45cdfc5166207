//! What single operations make of their operands, element by element.
//!
//! An element is taken together with its type: the formulas here and in the laws on layers are over
//! such numbers.

use crate::array::{promoted, BinaryOp, Dtype, Kind, Term, UnaryOp};
use crate::laws::masks::at;
use crate::laws::parts::lemma_stretch_self;
use crate::laws::shapes::{goes, has_shape};
use crate::meaning::{
    combine, computed, elem, in_shape, is_mark, last_row, left_row, length_of, right_column,
    stretched_index, table_row, Elem,
};
use crate::nn::{t_linear, LinearTerm};
use crate::ops::create::t_scalar;
use crate::ops::elementwise::{
    binary_dtype, raw_binary, raw_cast, raw_unary, t_add, t_binary, t_cast, t_unary, unary_dtype,
};
use crate::ops::layout::{raw_transpose, t_transpose};
use crate::ops::product::{raw_matmul, raw_quantized_matmul, t_matmul, t_quantized_matmul};
use crate::scalar::Scalar;
use crate::shape::{broadcast, broadcast_shape, is_permutation, permuted};
use vstd::prelude::*;

verus! {

/// An element with its type.
pub struct Num {
    pub e: Elem,
    pub t: Dtype,
}

/// The element of an array at an index, with the type of the array.
#[verifier::opaque]
pub open spec fn num(x: Term, ix: Seq<int>) -> Num {
    Num { e: elem(x, ix), t: x.dtype }
}

/// The elements on the last axis of an array, beside an index.
#[verifier::opaque]
pub open spec fn row_of(x: Term, ix: Seq<int>) -> Seq<Elem> {
    last_row(x, ix)
}

/// A constant.
pub open spec fn fixed(s: Scalar) -> Num {
    Num { e: Elem::Real(s), t: Dtype::Float32 }
}

/// A function of one number.
pub open spec fn single(op: UnaryOp, a: Num) -> Num {
    Num {
        e: Elem::Applied(Kind::Unary(op), seq![a.t], seq![a.e]),
        t: unary_dtype(op, a.t),
    }
}

/// An operation on two numbers.
pub open spec fn pair(op: BinaryOp, a: Num, b: Num) -> Num {
    Num {
        e: combine(
            op,
            a.e,
            b.e,
            Elem::Applied(Kind::Binary(op), seq![a.t, b.t], seq![a.e, b.e]),
        ),
        t: binary_dtype(op, a.t, b.t),
    }
}

/// A number as one of another type.
pub open spec fn converted(a: Num, t: Dtype) -> Num {
    Num {
        e: match a.e {
            Elem::Real(s) if is_mark(s) && t.floating() => Elem::Real(s),
            e => Elem::Applied(Kind::Cast, seq![a.t, t], seq![e]),
        },
        t,
    }
}

/// A number plus an entry of a bias, where there is one.
pub open spec fn with_bias(a: Num, bias: Option<Term>, c: int) -> Num {
    match bias {
        Some(b) => pair(BinaryOp::Add, a, num(b, seq![c])),
        None => a,
    }
}

/// The product of a row of elements of type `t` with row `c` of a weight, plus entry `c` of the
/// bias.
#[verifier::opaque]
pub open spec fn dot(l: LinearTerm, row: Seq<Elem>, t: Dtype, c: int) -> Num {
    match l {
        LinearTerm::Dense { weight, bias } => with_bias(
            Num {
                e: Elem::Applied(
                    Kind::Matmul,
                    seq![t, weight.dtype],
                    seq![Elem::Row(row), Elem::Row(table_row(weight, c))],
                ),
                t: promoted(t, weight.dtype),
            },
            bias,
            c,
        ),
        LinearTerm::Packed { weight, scales, biases, bias, group_size, bits } => with_bias(
            Num {
                e: Elem::Applied(
                    Kind::QuantizedMatmul { group_size, bits },
                    seq![t, scales.dtype],
                    seq![
                        Elem::Row(row),
                        Elem::Row(table_row(weight, c)),
                        Elem::Row(table_row(scales, c)),
                        Elem::Row(table_row(biases, c)),
                    ],
                ),
                t: promoted(t, scales.dtype),
            },
            bias,
            c,
        ),
    }
}

/// The type of such a product.
pub open spec fn dot_type(l: LinearTerm, t: Dtype) -> Dtype {
    let (p, bias) = match l {
        LinearTerm::Dense { weight, bias } => (promoted(t, weight.dtype), bias),
        LinearTerm::Packed { scales, bias, .. } => (promoted(t, scales.dtype), bias),
    };
    match bias {
        Some(b) => binary_dtype(BinaryOp::Add, p, b.dtype),
        None => p,
    }
}

/// A product has the type of all products of its layer.
pub(crate) proof fn lemma_dot_type(l: LinearTerm, row: Seq<Elem>, t: Dtype, c: int)
    ensures
        dot(l, row, t, c).t == dot_type(l, t),
{
    reveal(dot);
    reveal(num);
}

/// The type of a number is that of its array.
pub(crate) proof fn lemma_num_type(x: Term, ix: Seq<int>)
    ensures
        num(x, ix).t == x.dtype,
{
    reveal(num);
}

/// The elements of a row, one by one.
pub(crate) proof fn lemma_row(x: Term, ix: Seq<int>, want: Seq<Elem>)
    requires
        ix.len() > 0,
        want.len() == length_of(x.shape.last()),
        forall|i: int|
            0 <= i < want.len() ==> (#[trigger] num(x, ix.update(ix.len() - 1, i))).e == want[i],
    ensures
        row_of(x, ix) == want,
{
    reveal(num);
    reveal(row_of);
    let r = last_row(x, ix);
    assert forall|i: int| 0 <= i < r.len() implies r[i] == want[i] by {
        assert(num(x, ix.update(ix.len() - 1, i)).e == want[i]);
    }
    assert(r =~= want);
}

/// The row beside an index does not depend on the index along it.
pub(crate) proof fn lemma_same_row(x: Term, ix: Seq<int>, f: int)
    requires
        ix.len() > 0,
    ensures
        row_of(x, ix.update(ix.len() - 1, f)) == row_of(x, ix),
{
    reveal(row_of);
    let k = ix.len() - 1;
    let (r, q) = (last_row(x, ix.update(k, f)), last_row(x, ix));
    assert forall|i: int| 0 <= i < r.len() implies r[i] == q[i] by {
        assert(ix.update(k, f).update(k, i) =~= ix.update(k, i));
    }
    assert(r =~= q);
}

/// An index moved along the last axis.
pub(crate) proof fn lemma_along_last(ix: Seq<int>, s: Seq<i32>, m: i32, f: int)
    requires
        s.len() > 0,
        in_shape(ix, s),
        0 <= f < m,
    ensures
        in_shape(ix.update(ix.len() - 1, f), s.update(s.len() - 1, m)),
{
    let k = ix.len() - 1;
    assert forall|i: int| 0 <= i < ix.len() implies 0 <= #[trigger] ix.update(k, f)[i] < s.update(
        k,
        m,
    )[i] by {
        assert(0 <= ix[i] < s[i]);
    }
}

/// An operation on two arrays of one shape works on the elements in the same place, in this order.
pub proof fn pairs_go_together(op: BinaryOp, x: Term, y: Term, ix: Seq<int>)
    requires
        x.shape == y.shape,
        in_shape(ix, x.shape),
    ensures
        t_binary(op, Ok(x), Ok(y)) matches Ok(r) && r.shape == x.shape && num(r, ix) == pair(
            op,
            num(x, ix),
            num(y, ix),
        ),
{
    assert(broadcast_shape(x.shape, x.shape) =~= x.shape);
    stretched_pairs_go_together(op, x, y, x.shape, ix);
    lemma_stretch_self(ix, x.shape);
}

/// An operation on two arrays that broadcast works on the elements that stretching brings to the
/// same place.
pub proof fn stretched_pairs_go_together(
    op: BinaryOp,
    x: Term,
    y: Term,
    shape: Seq<i32>,
    ix: Seq<int>,
)
    requires
        broadcast(x.shape, y.shape) == Some(shape),
    ensures
        t_binary(op, Ok(x), Ok(y)) matches Ok(r) && r.shape == shape && num(r, ix) == pair(
            op,
            num(x, stretched_index(ix, x.shape)),
            num(y, stretched_index(ix, y.shape)),
        ),
{
    reveal(raw_binary);
    reveal(num);
    let r = t_binary(op, Ok(x), Ok(y))->Ok_0;
    assert(r.args[0] == x && r.args[1] == y);
}

/// An operation of an array with a constant works on every element.
pub proof fn constants_go_with_all(op: BinaryOp, x: Term, s: Scalar, ix: Seq<int>)
    requires
        in_shape(ix, x.shape),
    ensures
        t_binary(op, Ok(x), t_scalar(s)) matches Ok(r) && r.shape == x.shape && num(r, ix) == pair(
            op,
            num(x, ix),
            fixed(s),
        ),
{
    let e = Seq::<i32>::empty();
    let y = t_scalar(s)->Ok_0;
    assert(broadcast_shape(x.shape, e) =~= x.shape);
    stretched_pairs_go_together(op, x, y, x.shape, ix);
    lemma_stretch_self(ix, x.shape);
    assert(stretched_index(ix, e) =~= Seq::<int>::empty());
    assert(num(y, Seq::<int>::empty()) == fixed(s)) by {
        reveal(num);
    }
}

/// A function works on every element by itself.
pub proof fn functions_go_by_element(op: UnaryOp, x: Term, ix: Seq<int>)
    ensures
        t_unary(op, Ok(x)) matches Ok(r) && r.shape == x.shape && num(r, ix) == single(
            op,
            num(x, ix),
        ),
{
    reveal(raw_unary);
    reveal(num);
    let r = t_unary(op, Ok(x))->Ok_0;
    assert(r.args[0] == x);
}

/// A conversion works on every element by itself.
pub proof fn conversions_go_by_element(x: Term, t: Dtype, ix: Seq<int>)
    ensures
        t_cast(Ok(x), t) matches Ok(r) && r.shape == x.shape && num(r, ix) == converted(
            num(x, ix),
            t,
        ),
{
    reveal(raw_cast);
    reveal(num);
    let r = t_cast(Ok(x), t)->Ok_0;
    assert(r.args[0] == x);
}

/// The product of an array with a transposed weight, at an index.
proof fn lemma_product_at(x: Term, weight: Term, d: i32, m: i32, ix: Seq<int>)
    requires
        x.shape.len() >= 2,
        x.shape.last() == d,
        weight.shape == seq![m, d],
        in_shape(ix, x.shape.update(x.shape.len() - 1, m)),
    ensures
        t_matmul(Ok(x), t_transpose(Ok(weight), seq![1i32, 0i32])) matches Ok(r) && r.shape
            == x.shape.update(x.shape.len() - 1, m) && num(r, ix) == dot(
            LinearTerm::Dense { weight, bias: None },
            row_of(x, ix),
            x.dtype,
            ix.last(),
        ),
{
    lemma_turned_weight(weight, d, m);
    let z = t_transpose(Ok(weight), seq![1i32, 0i32])->Ok_0;
    lemma_product_shape(x, z, d, m);
    let r = t_matmul(Ok(x), Ok(z))->Ok_0;
    lemma_left_row(x, m, ix);
    lemma_right_column(z, weight, d, m, ix);
    reveal(num);
    reveal(row_of);
    reveal(dot);
    assert(elem(r, ix) == Elem::Applied(
        Kind::Matmul,
        seq![x.dtype, z.dtype],
        seq![Elem::Row(left_row(x, ix)), Elem::Row(right_column(z, ix))],
    )) by {
        reveal(computed);
        assert(elem(r, ix) == computed(r, ix));
    }
}

proof fn lemma_turned_weight(weight: Term, d: i32, m: i32)
    requires
        weight.shape == seq![m, d],
    ensures
        t_transpose(Ok(weight), seq![1i32, 0i32]) matches Ok(z) && z.shape == seq![d, m] && z.dtype
            == weight.dtype && z.ints == seq![1i32, 0i32] && z.args == seq![weight] && z.kind
            is Transpose,
{
    reveal(raw_transpose);
    let axes = seq![1i32, 0i32];
    assert(is_permutation(axes, 2));
    assert(permuted(weight.shape, axes) =~= seq![d, m]);
}

proof fn lemma_product_shape(x: Term, z: Term, d: i32, m: i32)
    requires
        x.shape.len() >= 2,
        x.shape.last() == d,
        z.shape == seq![d, m],
    ensures
        t_matmul(Ok(x), Ok(z)) matches Ok(r) && r.shape == x.shape.update(x.shape.len() - 1, m)
            && r.dtype == promoted(x.dtype, z.dtype) && r.kind == Kind::Matmul && r.args.len() == 2
            && r.args[0] == x && r.args[1] == z,
{
    reveal(raw_matmul);
    let e = Seq::<i32>::empty();
    let k = x.shape.len() - 1;
    let front = x.shape.take(k - 1);
    assert(z.shape.take(0) =~= e);
    assert(broadcast_shape(front, e) =~= front);
    assert(front.push(x.shape[k - 1]).push(m) =~= x.shape.update(k, m));
}

/// What an element of a product reads of its left operand is a row.
proof fn lemma_left_row(x: Term, m: i32, ix: Seq<int>)
    requires
        x.shape.len() >= 2,
        in_shape(ix, x.shape.update(x.shape.len() - 1, m)),
    ensures
        left_row(x, ix) == last_row(x, ix),
{
    let k = x.shape.len() - 1;
    let s = x.shape.update(k, m);
    let front = x.shape.take(k - 1);
    let at = stretched_index(ix.take(k - 1), front).push(ix[k - 1]);
    assert(at =~= ix.take(k)) by {
        assert forall|j: int| 0 <= j < k implies at[j] == ix[j] by {
            assert(0 <= ix[j] < s[j]);
        }
    }
    let (r, q) = (left_row(x, ix), last_row(x, ix));
    assert forall|i: int| 0 <= i < r.len() implies r[i] == q[i] by {
        assert(at.push(i) =~= ix.update(k, i));
    }
    assert(r =~= q);
}

/// What an element of a product with a transposed weight reads of it is a row of the weight.
proof fn lemma_right_column(z: Term, weight: Term, d: i32, m: i32, ix: Seq<int>)
    requires
        ix.len() >= 2,
        weight.shape == seq![m, d],
        z.shape == seq![d, m],
        z.kind is Transpose,
        z.ints == seq![1i32, 0i32],
        z.args == seq![weight],
    ensures
        right_column(z, ix) == table_row(weight, ix.last()),
{
    assert forall|i: int, c: int| elem(z, #[trigger] at(i, c)) == elem(weight, at(c, i)) by {
        lemma_turned_table(z, weight, i, c);
    }
    lemma_column(z, weight, d, m, ix);
}

/// The column that a product reads of a table that is another one turned.
proof fn lemma_column(z: Term, weight: Term, d: i32, m: i32, ix: Seq<int>)
    requires
        ix.len() >= 2,
        weight.shape == seq![m, d],
        z.shape == seq![d, m],
        forall|i: int, c: int| elem(z, #[trigger] at(i, c)) == elem(weight, at(c, i)),
    ensures
        right_column(z, ix) == table_row(weight, ix.last()),
{
    let front = stretched_index(ix.take(ix.len() - 2), z.shape.take(0));
    assert(front =~= Seq::<int>::empty());
    let (r, q) = (right_column(z, ix), table_row(weight, ix.last()));
    assert forall|i: int| 0 <= i < r.len() implies r[i] == q[i] by {
        assert(front.push(i).push(ix.last()) =~= at(i, ix.last()));
        assert(elem(z, at(i, ix.last())) == elem(weight, at(ix.last(), i)));
    }
    assert(r =~= q);
}

/// A transposed table, at an index.
proof fn lemma_turned_table(z: Term, weight: Term, i: int, c: int)
    requires
        z.kind is Transpose,
        z.ints == seq![1i32, 0i32],
        z.args == seq![weight],
    ensures
        elem(z, seq![i, c]) == elem(weight, seq![c, i]),
{
    let ints = z.ints;
    let ix = seq![i, c];
    assert(ints[0] == 1 && ints[1] == 0);
    let jx = Seq::new(
        ix.len(),
        |j: int| ix[choose|i: int| 0 <= i < ints.len() && #[trigger] ints[i] == j],
    );
    assert(jx =~= seq![c, i]) by {
        let c0 = choose|i: int| 0 <= i < ints.len() && #[trigger] ints[i] == 0;
        let c1 = choose|i: int| 0 <= i < ints.len() && #[trigger] ints[i] == 1;
        assert(c0 == 1 && c1 == 0);
    }
    assert(z.args[0] == weight);
}

/// The product of an array with a packed weight, at an index.
proof fn lemma_packed_at(
    x: Term,
    weight: Term,
    scales: Term,
    biases: Term,
    group_size: i32,
    bits: i32,
    d: i32,
    m: i32,
    ix: Seq<int>,
)
    requires
        x.shape.len() >= 1,
        x.shape.last() == d,
        goes(
            LinearTerm::Packed { weight, scales, biases, bias: None, group_size, bits },
            d,
            m,
        ),
        in_shape(ix, x.shape.update(x.shape.len() - 1, m)),
    ensures
        t_quantized_matmul(Ok(x), weight, scales, biases, group_size, bits) matches Ok(r)
            && r.shape == x.shape.update(x.shape.len() - 1, m) && num(r, ix) == dot(
            LinearTerm::Packed { weight, scales, biases, bias: None, group_size, bits },
            row_of(x, ix),
            x.dtype,
            ix.last(),
        ),
{
    let r = t_quantized_matmul(Ok(x), weight, scales, biases, group_size, bits);
    assert(has_shape(r, x.shape.update(x.shape.len() - 1, m)) && r->Ok_0.dtype == promoted(
        x.dtype,
        scales.dtype,
    ) && r->Ok_0.kind == (Kind::QuantizedMatmul { group_size, bits }) && r->Ok_0.args == seq![
        x,
        weight,
        scales,
        biases,
    ]) by {
        reveal(goes);
        reveal(raw_quantized_matmul);
    }
    lemma_packed_elem(r->Ok_0, x, weight, scales, biases, group_size, bits, ix);
}

proof fn lemma_packed_elem(
    r: Term,
    x: Term,
    weight: Term,
    scales: Term,
    biases: Term,
    group_size: i32,
    bits: i32,
    ix: Seq<int>,
)
    requires
        ix.len() >= 1,
        r.dtype == promoted(x.dtype, scales.dtype),
        r.kind == (Kind::QuantizedMatmul { group_size, bits }),
        r.args == seq![x, weight, scales, biases],
    ensures
        num(r, ix) == dot(
            LinearTerm::Packed { weight, scales, biases, bias: None, group_size, bits },
            row_of(x, ix),
            x.dtype,
            ix.last(),
        ),
{
    reveal(num);
    reveal(row_of);
    reveal(dot);
    reveal(computed);
    assert(r.args[0] == x && r.args[1] == weight && r.args[2] == scales && r.args[3] == biases);
    assert(elem(r, ix) == computed(r, ix));
}

/// A product plus its bias.
proof fn lemma_dot_bias(l: LinearTerm, row: Seq<Elem>, t: Dtype, c: int)
    ensures
        dot(l, row, t, c) == match l {
            LinearTerm::Dense { weight, bias } => with_bias(
                dot(LinearTerm::Dense { weight, bias: None }, row, t, c),
                bias,
                c,
            ),
            LinearTerm::Packed { weight, scales, biases, bias, group_size, bits } => with_bias(
                dot(
                    LinearTerm::Packed { weight, scales, biases, bias: None, group_size, bits },
                    row,
                    t,
                    c,
                ),
                bias,
                c,
            ),
        },
{
    reveal(dot);
}

/// A linear layer gives for every row of `d` features the products with the rows of its weight,
/// plus its bias.
pub proof fn linear_layers_go_by_row(l: LinearTerm, x: Term, d: i32, m: i32, ix: Seq<int>)
    requires
        x.shape.len() >= 2,
        x.shape.last() == d,
        goes(l, d, m),
        in_shape(ix, x.shape.update(x.shape.len() - 1, m)),
    ensures
        t_linear(l, Ok(x)) matches Ok(r) && r.shape == x.shape.update(x.shape.len() - 1, m) && num(
            r,
            ix,
        ) == dot(l, row_of(x, ix), x.dtype, ix.last()),
{
    let s = x.shape.update(x.shape.len() - 1, m);
    lemma_dot_bias(l, row_of(x, ix), x.dtype, ix.last());
    let (p, bias) = match l {
        LinearTerm::Dense { weight, bias } => {
            assert(weight.shape == seq![m, d] && (bias matches Some(b) ==> b.shape == seq![m])) by {
                reveal(goes);
            }
            lemma_product_at(x, weight, d, m, ix);
            (t_matmul(Ok(x), t_transpose(Ok(weight), seq![1i32, 0i32])), bias)
        },
        LinearTerm::Packed { weight, scales, biases, bias, group_size, bits } => {
            let bare = LinearTerm::Packed { weight, scales, biases, bias: None, group_size, bits };
            assert(goes(bare, d, m) && (bias matches Some(b) ==> b.shape == seq![m])) by {
                reveal(goes);
            }
            lemma_packed_at(x, weight, scales, biases, group_size, bits, d, m, ix);
            (t_quantized_matmul(Ok(x), weight, scales, biases, group_size, bits), bias)
        },
    };
    match bias {
        Some(c) => {
            lemma_biased_at(p->Ok_0, c, s, m, ix);
        },
        None => {},
    }
}

/// A bias is added to every row.
proof fn lemma_biased_at(p: Term, c: Term, s: Seq<i32>, m: i32, ix: Seq<int>)
    requires
        s.len() >= 1,
        s.last() == m,
        p.shape == s,
        c.shape == seq![m],
        in_shape(ix, s),
    ensures
        t_add(Ok(p), Ok(c)) matches Ok(r) && r.shape == s && num(r, ix) == pair(
            BinaryOp::Add,
            num(p, ix),
            num(c, seq![ix.last()]),
        ),
{
    assert(broadcast_shape(s, seq![m]) =~= s);
    stretched_pairs_go_together(BinaryOp::Add, p, c, s, ix);
    lemma_stretch_self(ix, s);
    assert(0 <= ix[ix.len() - 1] < s[s.len() - 1]);
    assert(stretched_index(ix, seq![m]) =~= seq![ix.last()]);
}

} // verus!
