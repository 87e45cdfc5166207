//! What attention masks show and hide.

use crate::array::{BinaryOp, Dtype, Term, Tn};
use crate::meaning::{elem, flat_index, index_at, stretched_index, Elem};
use crate::models::gemma3::{
    additive, gemma_masks, key_positions, query_positions, window_kept,
};
use crate::models::gpt_oss::step_masks;
use crate::ops::create::{t_arange, t_int, t_scalar};
use crate::ops::elementwise::{
    raw_binary, raw_cast, raw_where, t_add, t_cast, t_ge, t_gt, t_le, t_logical_and, t_lt,
    t_subtract,
};
use crate::ops::layout::{raw_expand_dims, raw_reshape, t_reshape};
use crate::scalar::{lit, NEG_INFINITY_BITS, ZERO_BITS};
use crate::shape::{axis_of, broadcast, broadcast_shape, count};
use crate::utils::mask::{causal_mask, column, row};
use vstd::prelude::*;

verus! {

/// An index of two axes.
pub open spec fn at(i: int, j: int) -> Seq<int> {
    seq![i, j]
}

/// Whether an array of integers holds `f(i)` at row `i` of one column.
pub open spec fn is_column(t: Tn, l: i32, f: spec_fn(int) -> int) -> bool {
    &&& t matches Ok(x) && x.shape == seq![l, 1i32] && forall|i: int|
        0 <= i < l ==> #[trigger] elem(x, at(i, 0)) == Elem::Int(f(i))
}

/// Whether an array of integers holds `f(j)` at column `j` of one row.
pub open spec fn is_row(t: Tn, n: i32, f: spec_fn(int) -> int) -> bool {
    &&& t matches Ok(x) && x.shape == seq![1i32, n] && forall|j: int|
        0 <= j < n ==> #[trigger] elem(x, at(0, j)) == Elem::Int(f(j))
}

/// Whether an array of truth values holds `f(i, j)` at row `i` and column `j`.
pub open spec fn is_table(t: Tn, l: i32, n: i32, f: spec_fn(int, int) -> bool) -> bool {
    &&& t matches Ok(x) && x.shape == seq![l, n] && forall|i: int, j: int|
        0 <= i < l && 0 <= j < n ==> #[trigger] elem(x, at(i, j)) == Elem::Truth(f(i, j))
}

/// Whether an additive mask lets query `i` see key `j` exactly where `f(i, j)` holds.
pub open spec fn shows(x: Term, l: i32, n: i32, f: spec_fn(int, int) -> bool) -> bool {
    &&& x.shape == seq![l, n]
    &&& forall|i: int, j: int|
        0 <= i < l && 0 <= j < n ==> #[trigger] elem(x, at(i, j)) == Elem::Real(
            if f(i, j) {
                lit(ZERO_BITS)
            } else {
                lit(NEG_INFINITY_BITS)
            },
        )
}

pub(crate) proof fn lemma_count_pair(a: i32, b: i32)
    requires
        a >= 0,
        b >= 0,
    ensures
        count(seq![a, b]) == Some(a * b),
{
    let s = seq![a, b];
    assert(s.drop_last() =~= seq![a]);
    assert(seq![a].drop_last() =~= Seq::<i32>::empty());
    reveal_with_fuel(count, 3);
    assert(1 * a == a);
    assert(a * b <= 0x7fff_ffff * 0x7fff_ffff) by (nonlinear_arith)
        requires
            0 <= a <= 0x7fff_ffff,
            0 <= b <= 0x7fff_ffff,
    ;
}

pub(crate) proof fn lemma_count_one(a: i32)
    requires
        a >= 0,
    ensures
        count(seq![a]) == Some(a as int),
{
    assert(seq![a].drop_last() =~= Seq::<i32>::empty());
    reveal_with_fuel(count, 2);
    assert(1 * a == a);
}

/// The place of an index in a column.
proof fn lemma_column_place(i: int, l: i32)
    ensures
        flat_index(at(i, 0), seq![l, 1i32]) == i,
{
    let ix = at(i, 0);
    let s = seq![l, 1i32];
    let none = Seq::<int>::empty();
    let e = Seq::<i32>::empty();
    assert(s.drop_last() =~= seq![l]);
    assert(ix.drop_last() =~= seq![i]);
    assert(seq![l].drop_last() =~= e);
    assert(seq![i].drop_last() =~= none);
    assert(flat_index(none, e) == 0);
    assert(flat_index(seq![i], seq![l]) == flat_index(none, e) * l + i);
    assert(0 * l == 0);
    assert(flat_index(ix, s) == flat_index(seq![i], seq![l]) * 1 + 0);
}

/// The place of an index in a single row.
pub(crate) proof fn lemma_row_place(j: int, n: i32)
    ensures
        flat_index(at(0, j), seq![1i32, n]) == j,
{
    let ix = at(0, j);
    let s = seq![1i32, n];
    let none = Seq::<int>::empty();
    let e = Seq::<i32>::empty();
    assert(s.drop_last() =~= seq![1i32]);
    assert(ix.drop_last() =~= seq![0int]);
    assert(seq![1i32].drop_last() =~= e);
    assert(seq![0int].drop_last() =~= none);
    assert(flat_index(none, e) == 0);
    assert(flat_index(seq![0int], seq![1i32]) == flat_index(none, e) * 1 + 0);
    assert(0 * n == 0);
    assert(flat_index(ix, s) == flat_index(seq![0int], seq![1i32]) * n + j);
}

/// The index at a place of a list.
proof fn lemma_list_index(i: int, l: i32)
    requires
        0 <= i < l,
    ensures
        index_at(i, seq![l]) == seq![i],
{
    assert(seq![l].drop_last() =~= Seq::<i32>::empty());
    vstd::arithmetic::div_mod::lemma_small_mod(i as nat, l as nat);
    let rest = index_at(i / (l as int), Seq::<i32>::empty());
    assert(rest.len() == 0);
    assert(index_at(i, seq![l]) == rest.push(i % (l as int)));
    assert(index_at(i, seq![l]) =~= seq![i]);
}

/// Consecutive integers put in a column.
proof fn lemma_column(start: i32, l: i32)
    requires
        l >= 0,
        start + l <= i32::MAX,
    ensures
        is_column(
            t_reshape(t_arange(start, (start + l) as i32, Dtype::Int32), seq![l, 1i32]),
            l,
            |i: int| start + i,
        ),
{
    reveal(raw_reshape);
    let a = t_arange(start, (start + l) as i32, Dtype::Int32)->Ok_0;
    assert(a.shape == seq![l]);
    lemma_count_one(l);
    lemma_count_pair(l, 1);
    let s = seq![l, 1i32];
    assert(l * 1 == l);
    assert forall|k: int| !crate::shape::is_unknown_at(s, k) by {
        if crate::shape::is_unknown_at(s, k) {
            assert(s[k] == -1);
        }
    }
    let x = t_reshape(Ok(a), s)->Ok_0;
    assert forall|i: int| 0 <= i < l implies #[trigger] elem(x, at(i, 0)) == Elem::Int(
        start + i,
    ) by {
        lemma_column_place(i, l);
        lemma_list_index(i, l);
        assert(x.args[0] == a);
        assert(elem(a, seq![i]) == Elem::Int(start + i));
    }
}

/// Consecutive integers put in a row.
proof fn lemma_row(n: i32)
    requires
        n >= 0,
    ensures
        is_row(t_reshape(t_arange(0, n, Dtype::Int32), seq![1i32, n]), n, |j: int| j),
{
    reveal(raw_reshape);
    let a = t_arange(0, n, Dtype::Int32)->Ok_0;
    assert(a.shape == seq![n]);
    lemma_count_one(n);
    lemma_count_pair(1, n);
    let s = seq![1i32, n];
    assert forall|k: int| !crate::shape::is_unknown_at(s, k) by {
        if crate::shape::is_unknown_at(s, k) {
            assert(s[k] == -1);
        }
    }
    let x = t_reshape(Ok(a), s)->Ok_0;
    assert forall|j: int| 0 <= j < n implies #[trigger] elem(x, at(0, j)) == Elem::Int(j) by {
        lemma_row_place(j, n);
        lemma_list_index(j, n);
        assert(x.args[0] == a);
        assert(elem(a, seq![j]) == Elem::Int(0 + j));
    }
}

/// A column and a row broadcast to a table.
proof fn lemma_table_shape(l: i32, n: i32)
    ensures
        broadcast(seq![1i32, n], seq![l, 1i32]) == Some(seq![l, n]),
        broadcast(seq![l, 1i32], seq![1i32, n]) == Some(seq![l, n]),
        broadcast(seq![l, n], seq![l, n]) == Some(seq![l, n]),
        broadcast(seq![l, n], Seq::<i32>::empty()) == Some(seq![l, n]),
        broadcast(Seq::<i32>::empty(), seq![l, n]) == Some(seq![l, n]),
        broadcast(seq![l, 1i32], Seq::<i32>::empty()) == Some(seq![l, 1i32]),
        broadcast(seq![1i32, n], Seq::<i32>::empty()) == Some(seq![1i32, n]),
        broadcast(Seq::<i32>::empty(), Seq::<i32>::empty()) == Some(Seq::<i32>::empty()),
{
    let r = seq![1i32, n];
    let c = seq![l, 1i32];
    let t = seq![l, n];
    let e = Seq::<i32>::empty();
    assert(broadcast_shape(r, c) =~= t);
    assert(broadcast_shape(c, r) =~= t);
    assert(broadcast_shape(t, t) =~= t);
    assert(broadcast_shape(t, e) =~= t);
    assert(broadcast_shape(e, t) =~= t);
    assert(broadcast_shape(c, e) =~= c);
    assert(broadcast_shape(r, e) =~= r);
    assert(broadcast_shape(e, e) =~= e);
}

/// The index of an operand that a table stretches.
proof fn lemma_stretch(i: int, j: int, l: i32, n: i32)
    requires
        0 <= i < l,
        0 <= j < n,
    ensures
        stretched_index(at(i, j), seq![l, 1i32]) == at(i, 0),
        stretched_index(at(i, j), seq![1i32, n]) == at(0, j),
        stretched_index(at(i, j), seq![l, n]) == at(i, j),
        stretched_index(at(i, j), Seq::<i32>::empty()) == Seq::<int>::empty(),
        stretched_index(at(i, 0), seq![l, 1i32]) == at(i, 0),
        stretched_index(at(i, 0), Seq::<i32>::empty()) == Seq::<int>::empty(),
        stretched_index(at(0, j), seq![1i32, n]) == at(0, j),
        stretched_index(at(0, j), Seq::<i32>::empty()) == Seq::<int>::empty(),
{
    assert(stretched_index(at(i, j), seq![l, 1i32]) =~= at(i, 0));
    assert(stretched_index(at(i, j), seq![1i32, n]) =~= at(0, j));
    assert(stretched_index(at(i, j), seq![l, n]) =~= at(i, j));
    assert(stretched_index(at(i, j), Seq::<i32>::empty()) =~= Seq::<int>::empty());
    assert(stretched_index(at(i, 0), seq![l, 1i32]) =~= at(i, 0));
    assert(stretched_index(at(i, 0), Seq::<i32>::empty()) =~= Seq::<int>::empty());
    assert(stretched_index(at(0, j), seq![1i32, n]) =~= at(0, j));
    assert(stretched_index(at(0, j), Seq::<i32>::empty()) =~= Seq::<int>::empty());
}

/// A row compared with a column.
proof fn lemma_compare_row(
    op: BinaryOp,
    r: Tn,
    c: Tn,
    l: i32,
    n: i32,
    f: spec_fn(int) -> int,
    g: spec_fn(int) -> int,
)
    requires
        is_row(r, n, f),
        is_column(c, l, g),
        op == BinaryOp::LessEqual || op == BinaryOp::Greater,
    ensures
        is_table(
            crate::ops::elementwise::t_binary(op, r, c),
            l,
            n,
            |i: int, j: int|
                if op == BinaryOp::LessEqual {
                    f(j) <= g(i)
                } else {
                    f(j) > g(i)
                },
        ),
{
    reveal(raw_binary);
    lemma_table_shape(l, n);
    let x = raw_binary(op, r->Ok_0, c->Ok_0)->Some_0;
    assert forall|i: int, j: int| 0 <= i < l && 0 <= j < n implies #[trigger] elem(x, at(i, j))
        == Elem::Truth(
        if op == BinaryOp::LessEqual {
            f(j) <= g(i)
        } else {
            f(j) > g(i)
        },
    ) by {
        lemma_stretch(i, j, l, n);
        assert(x.args[0] == r->Ok_0 && x.args[1] == c->Ok_0);
        assert(elem(r->Ok_0, at(0, j)) == Elem::Int(f(j)));
        assert(elem(c->Ok_0, at(i, 0)) == Elem::Int(g(i)));
    }
}

/// A column compared with a row.
proof fn lemma_compare_column(
    op: BinaryOp,
    c: Tn,
    r: Tn,
    l: i32,
    n: i32,
    g: spec_fn(int) -> int,
    f: spec_fn(int) -> int,
)
    requires
        is_row(r, n, f),
        is_column(c, l, g),
        op == BinaryOp::GreaterEqual || op == BinaryOp::Less,
    ensures
        is_table(
            crate::ops::elementwise::t_binary(op, c, r),
            l,
            n,
            |i: int, j: int|
                if op == BinaryOp::GreaterEqual {
                    g(i) >= f(j)
                } else {
                    g(i) < f(j)
                },
        ),
{
    reveal(raw_binary);
    lemma_table_shape(l, n);
    let x = raw_binary(op, c->Ok_0, r->Ok_0)->Some_0;
    assert forall|i: int, j: int| 0 <= i < l && 0 <= j < n implies #[trigger] elem(x, at(i, j))
        == Elem::Truth(
        if op == BinaryOp::GreaterEqual {
            g(i) >= f(j)
        } else {
            g(i) < f(j)
        },
    ) by {
        lemma_stretch(i, j, l, n);
        assert(x.args[0] == c->Ok_0 && x.args[1] == r->Ok_0);
        assert(elem(r->Ok_0, at(0, j)) == Elem::Int(f(j)));
        assert(elem(c->Ok_0, at(i, 0)) == Elem::Int(g(i)));
    }
}

/// A column moved by a constant.
proof fn lemma_shift_column(c: Tn, w: i32, l: i32, g: spec_fn(int) -> int)
    requires
        is_column(c, l, g),
    ensures
        is_column(t_subtract(c, t_int(w)), l, |i: int| g(i) - w),
{
    reveal(raw_binary);
    lemma_table_shape(l, 1);
    let k = t_int(w)->Ok_0;
    let x = raw_binary(BinaryOp::Subtract, c->Ok_0, k)->Some_0;
    assert forall|i: int| 0 <= i < l implies #[trigger] elem(x, at(i, 0)) == Elem::Int(
        g(i) - w,
    ) by {
        lemma_stretch(i, 0, l, 1);
        assert(x.args[0] == c->Ok_0 && x.args[1] == k);
        assert(elem(c->Ok_0, at(i, 0)) == Elem::Int(g(i)));
        assert(elem(k, Seq::<int>::empty()) == Elem::Int(w as int));
    }
}

/// A row moved by a constant.
proof fn lemma_shift_row(r: Tn, w: i32, n: i32, f: spec_fn(int) -> int)
    requires
        is_row(r, n, f),
    ensures
        is_row(t_add(r, t_int(w)), n, |j: int| f(j) + w),
{
    reveal(raw_binary);
    lemma_table_shape(1, n);
    let k = t_int(w)->Ok_0;
    let x = raw_binary(BinaryOp::Add, r->Ok_0, k)->Some_0;
    assert forall|j: int| 0 <= j < n implies #[trigger] elem(x, at(0, j)) == Elem::Int(
        f(j) + w,
    ) by {
        lemma_stretch(0, j, 1, n);
        assert(x.args[0] == r->Ok_0 && x.args[1] == k);
        assert(elem(r->Ok_0, at(0, j)) == Elem::Int(f(j)));
        assert(elem(k, Seq::<int>::empty()) == Elem::Int(w as int));
    }
}

/// A table of truth values as an additive mask.
proof fn lemma_additive(t: Tn, l: i32, n: i32, f: spec_fn(int, int) -> bool)
    requires
        is_table(t, l, n, f),
    ensures
        additive(t) matches Ok(x) && shows(x, l, n, f),
{
    reveal(raw_where);
    lemma_table_shape(l, n);
    let z = t_scalar(lit(ZERO_BITS))->Ok_0;
    let m = t_scalar(lit(NEG_INFINITY_BITS))->Ok_0;
    assert(z.shape == Seq::<i32>::empty() && m.shape == Seq::<i32>::empty());
    let x = raw_where(t->Ok_0, z, m)->Some_0;
    assert forall|i: int, j: int| 0 <= i < l && 0 <= j < n implies #[trigger] elem(x, at(i, j))
        == Elem::Real(
        if f(i, j) {
            lit(ZERO_BITS)
        } else {
            lit(NEG_INFINITY_BITS)
        },
    ) by {
        lemma_stretch(i, j, l, n);
        assert(x.args[0] == t->Ok_0 && x.args[1] == z && x.args[2] == m);
        assert(elem(t->Ok_0, at(i, j)) == Elem::Truth(f(i, j)));
        assert(elem(z, Seq::<int>::empty()) == Elem::Real(lit(ZERO_BITS)));
        assert(elem(m, Seq::<int>::empty()) == Elem::Real(lit(NEG_INFINITY_BITS)));
    }
}

/// Two additive masks added up.
proof fn lemma_add_masks(
    a: Term,
    b: Term,
    l: i32,
    n: i32,
    f: spec_fn(int, int) -> bool,
    g: spec_fn(int, int) -> bool,
)
    requires
        shows(a, l, n, f),
        shows(b, l, n, g),
    ensures
        t_add(Ok(a), Ok(b)) matches Ok(x) && shows(x, l, n, |i: int, j: int| f(i, j) && g(i, j)),
{
    reveal(raw_binary);
    lemma_table_shape(l, n);
    let x = raw_binary(BinaryOp::Add, a, b)->Some_0;
    assert forall|i: int, j: int| 0 <= i < l && 0 <= j < n implies #[trigger] elem(x, at(i, j))
        == Elem::Real(
        if f(i, j) && g(i, j) {
            lit(ZERO_BITS)
        } else {
            lit(NEG_INFINITY_BITS)
        },
    ) by {
        lemma_stretch(i, j, l, n);
        assert(x.args[0] == a && x.args[1] == b);
        let p = elem(a, at(i, j));
        let q = elem(b, at(i, j));
    }
}

/// An additive mask in another floating type.
proof fn lemma_cast_mask(a: Term, dtype: Dtype, l: i32, n: i32, f: spec_fn(int, int) -> bool)
    requires
        shows(a, l, n, f),
        dtype.floating(),
    ensures
        t_cast(Ok(a), dtype) matches Ok(x) && shows(x, l, n, f),
{
    reveal(raw_cast);
    let x = raw_cast(a, dtype)->Some_0;
    assert forall|i: int, j: int| 0 <= i < l && 0 <= j < n implies #[trigger] elem(x, at(i, j))
        == Elem::Real(
        if f(i, j) {
            lit(ZERO_BITS)
        } else {
            lit(NEG_INFINITY_BITS)
        },
    ) by {
        assert(x.args[0] == a);
        let p = elem(a, at(i, j));
    }
}

/// The masks of Gemma's layers: of `l` queries behind `offset` positions, query `i` stands at
/// `offset + i`; the first mask shows it the keys up to its own position, the second of these the
/// last `window`.
pub proof fn gemma_masks_show(offset: i32, l: i32, window: i32, dtype: Dtype)
    requires
        offset >= 0,
        l >= 0,
        offset + l <= i32::MAX,
        dtype.floating(),
    ensures
        gemma_masks(offset, l, window, dtype) matches Ok((global, local)) && shows(
            global,
            l,
            (offset + l) as i32,
            |i: int, j: int| j <= offset + i,
        ) && shows(
            local,
            l,
            (offset + l) as i32,
            |i: int, j: int| j <= offset + i && j > offset + i - window,
        ),
{
    let n = (offset + l) as i32;
    let q = query_positions(offset, l);
    let k = key_positions(n);
    lemma_column(offset, l);
    lemma_row(n);
    let qf = |i: int| offset + i;
    let kf = |j: int| j;
    lemma_compare_row(BinaryOp::LessEqual, k, q, l, n, kf, qf);
    let le = |i: int, j: int|
        if BinaryOp::LessEqual == BinaryOp::LessEqual {
            kf(j) <= qf(i)
        } else {
            kf(j) > qf(i)
        };
    lemma_additive(t_le(k, q), l, n, le);
    lemma_shift_column(q, window, l, qf);
    let sf = |i: int| qf(i) - window;
    lemma_compare_row(BinaryOp::Greater, k, t_subtract(q, t_int(window)), l, n, kf, sf);
    let gt = |i: int, j: int|
        if BinaryOp::Greater == BinaryOp::LessEqual {
            kf(j) <= sf(i)
        } else {
            kf(j) > sf(i)
        };
    lemma_additive(t_gt(k, t_subtract(q, t_int(window))), l, n, gt);
    let causal = additive(t_le(k, q))->Ok_0;
    let near = additive(t_gt(k, t_subtract(q, t_int(window))))->Ok_0;
    lemma_add_masks(causal, near, l, n, le, gt);
    let both = |i: int, j: int| le(i, j) && gt(i, j);
    lemma_cast_mask(causal, dtype, l, n, le);
    lemma_cast_mask(t_add(Ok(causal), Ok(near))->Ok_0, dtype, l, n, both);
}

/// Where the whole context fits in the window, the two masks are the same.
pub proof fn masks_agree_within_window(offset: i32, l: i32, window: i32, dtype: Dtype)
    requires
        offset >= 0,
        l >= 0,
        offset + l <= i32::MAX,
        offset + l <= window,
        dtype.floating(),
    ensures
        gemma_masks(offset, l, window, dtype) matches Ok((global, local)) && global.shape
            == local.shape && forall|i: int, j: int|
            0 <= i < l && 0 <= j < offset + l ==> #[trigger] elem(global, at(i, j)) == elem(
                local,
                at(i, j),
            ),
{
    gemma_masks_show(offset, l, window, dtype);
}

/// The keys among the last `window` of `total`.
pub proof fn window_keeps_the_last(total: i32, window: i32)
    requires
        total >= 0,
        i32::MIN <= total - window <= i32::MAX,
    ensures
        window_kept(total, window) matches Ok(x) && x.shape == seq![total] && forall|j: int|
            0 <= j < total ==> #[trigger] elem(x, seq![j]) == Elem::Truth(j >= total - window),
{
    reveal(raw_binary);
    let a = t_arange(0, total, Dtype::Int32)->Ok_0;
    let k = t_int((total - window) as i32)->Ok_0;
    assert(a.shape == seq![total]);
    assert(broadcast_shape(seq![total], Seq::<i32>::empty()) =~= seq![total]);
    let x = raw_binary(BinaryOp::GreaterEqual, a, k)->Some_0;
    assert forall|j: int| 0 <= j < total implies #[trigger] elem(x, seq![j]) == Elem::Truth(
        j >= total - window,
    ) by {
        assert(stretched_index(seq![j], seq![total]) =~= seq![j]);
        assert(stretched_index(seq![j], Seq::<i32>::empty()) =~= Seq::<int>::empty());
        assert(x.args[0] == a && x.args[1] == k);
        assert(elem(a, seq![j]) == Elem::Int(0 + j));
        assert(elem(k, Seq::<int>::empty()) == Elem::Int((total - window) as int));
    }
}

proof fn lemma_expanded_column(start: i32, l: i32)
    requires
        l >= 0,
        start + l <= i32::MAX,
    ensures
        is_column(column(start, (start + l) as i32), l, |i: int| start + i),
{
    reveal(raw_expand_dims);
    let a = t_arange(start, (start + l) as i32, Dtype::Int32)->Ok_0;
    assert(a.shape == seq![l]);
    assert(axis_of(1, 2) == Some(1int));
    assert(a.shape.insert(1, 1) =~= seq![l, 1i32]);
    let x = column(start, (start + l) as i32)->Ok_0;
    assert forall|i: int| 0 <= i < l implies #[trigger] elem(x, at(i, 0)) == Elem::Int(
        start + i,
    ) by {
        assert(at(i, 0).remove(1) =~= seq![i]);
        assert(x.args[0] == a);
        assert(elem(a, seq![i]) == Elem::Int(start + i));
    }
}

proof fn lemma_expanded_row(n: i32)
    requires
        n >= 0,
    ensures
        is_row(row(0, n), n, |j: int| j),
{
    reveal(raw_expand_dims);
    let a = t_arange(0, n, Dtype::Int32)->Ok_0;
    assert(a.shape == seq![n]);
    assert(axis_of(0, 2) == Some(0int));
    assert(a.shape.insert(0, 1) =~= seq![1i32, n]);
    let x = row(0, n)->Ok_0;
    assert forall|j: int| 0 <= j < n implies #[trigger] elem(x, at(0, j)) == Elem::Int(j) by {
        assert(at(0, j).remove(0) =~= seq![j]);
        assert(x.args[0] == a);
        assert(elem(a, seq![j]) == Elem::Int(0 + j));
    }
}

proof fn lemma_and_tables(
    a: Tn,
    b: Tn,
    l: i32,
    n: i32,
    f: spec_fn(int, int) -> bool,
    g: spec_fn(int, int) -> bool,
)
    requires
        is_table(a, l, n, f),
        is_table(b, l, n, g),
    ensures
        is_table(t_logical_and(a, b), l, n, |i: int, j: int| f(i, j) && g(i, j)),
{
    reveal(raw_binary);
    lemma_table_shape(l, n);
    let x = raw_binary(BinaryOp::LogicalAnd, a->Ok_0, b->Ok_0)->Some_0;
    assert forall|i: int, j: int| 0 <= i < l && 0 <= j < n implies #[trigger] elem(x, at(i, j))
        == Elem::Truth(f(i, j) && g(i, j)) by {
        lemma_stretch(i, j, l, n);
        assert(x.args[0] == a->Ok_0 && x.args[1] == b->Ok_0);
        assert(elem(a->Ok_0, at(i, j)) == Elem::Truth(f(i, j)));
        assert(elem(b->Ok_0, at(i, j)) == Elem::Truth(g(i, j)));
    }
}

/// The causal mask shows query `i`, which stands at `offset + i`, the keys up to its own position
/// and, with a window, fewer than `window` positions back.
pub proof fn causal_mask_shows(n: i32, offset: i32, window: Option<i32>)
    requires
        offset >= 0,
        n >= 0,
        offset + n <= i32::MAX,
    ensures
        is_table(
            causal_mask(n, offset, window),
            n,
            (offset + n) as i32,
            |i: int, j: int|
                j <= offset + i && (window matches Some(w) ==> offset + i < j + w),
        ),
{
    let end = (offset + n) as i32;
    lemma_expanded_column(offset, n);
    lemma_expanded_row(end);
    let qf = |i: int| offset + i;
    let kf = |j: int| j;
    let c = column(offset, end);
    let r = row(0, end);
    lemma_compare_column(BinaryOp::GreaterEqual, c, r, n, end, qf, kf);
    let ge = |i: int, j: int|
        if BinaryOp::GreaterEqual == BinaryOp::GreaterEqual {
            qf(i) >= kf(j)
        } else {
            qf(i) < kf(j)
        };
    let f = |i: int, j: int| j <= offset + i && (window matches Some(w) ==> offset + i < j + w);
    match window {
        Some(w) => {
            lemma_shift_row(r, w, end, kf);
            let sf = |j: int| kf(j) + w;
            lemma_compare_column(BinaryOp::Less, c, t_add(r, t_int(w)), n, end, qf, sf);
            let lt = |i: int, j: int|
                if BinaryOp::Less == BinaryOp::GreaterEqual {
                    qf(i) >= sf(j)
                } else {
                    qf(i) < sf(j)
                };
            lemma_and_tables(t_ge(c, r), t_lt(c, t_add(r, t_int(w))), n, end, ge, lt);
            let x = causal_mask(n, offset, window)->Ok_0;
            assert forall|i: int, j: int| 0 <= i < n && 0 <= j < end implies #[trigger] elem(
                x,
                at(i, j),
            ) == Elem::Truth(f(i, j)) by {
                assert(elem(x, at(i, j)) == Elem::Truth(ge(i, j) && lt(i, j)));
            }
        },
        None => {
            let x = causal_mask(n, offset, window)->Ok_0;
            assert forall|i: int, j: int| 0 <= i < n && 0 <= j < end implies #[trigger] elem(
                x,
                at(i, j),
            ) == Elem::Truth(f(i, j)) by {
                assert(elem(x, at(i, j)) == Elem::Truth(ge(i, j)));
            }
        },
    }
}

/// A single query behind fewer positions than the window holds needs no mask in either sort of
/// layer: the mask that it would get shows it every key.
pub proof fn short_decode_needs_no_mask(offset: i32, window: i32)
    requires
        0 <= offset < window,
    ensures
        step_masks(1, offset, window) matches Ok(m) && m.full is None && m.window is None,
        is_table(causal_mask(1, offset, None), 1, (offset + 1) as i32, |i: int, j: int| true),
        is_table(causal_mask(1, offset, Some(window)), 1, (offset + 1) as i32, |i: int, j: int| true),
{
    causal_mask_shows(1, offset, None);
    causal_mask_shows(1, offset, Some(window));
    let end = (offset + 1) as i32;
    let a = causal_mask(1, offset, None)->Ok_0;
    let b = causal_mask(1, offset, Some(window))->Ok_0;
    assert forall|i: int, j: int| 0 <= i < 1 && 0 <= j < end implies #[trigger] elem(a, at(i, j))
        == Elem::Truth(true) by {
        assert(j <= offset + i);
    }
    assert forall|i: int, j: int| 0 <= i < 1 && 0 <= j < end implies #[trigger] elem(b, at(i, j))
        == Elem::Truth(true) by {
        assert(j <= offset + i && offset + i < j + window);
    }
}

} // verus!
