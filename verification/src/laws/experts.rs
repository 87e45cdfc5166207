//! What routed experts compute, element by element: which experts a position goes to, what each of
//! them gives, and how they are weighted.

use crate::array::{promoted, BinaryOp, Dtype, Kind, Term, Tn, UnaryOp};
use crate::laws::elements::{
    constants_go_with_all, fixed, functions_go_by_element, lemma_num_type, lemma_row, num, pair,
    pairs_go_together, row_of, single, Num,
};
use crate::laws::heads::{heads_of, states};
use crate::laws::lookup::{lemma_flat_list, lemma_rows_under};
use crate::laws::moves::{dropped_axes_held_one_position, new_axes_hold_one_position};
use crate::laws::parts::lemma_stretch_self;
use crate::laws::shapes::{has_shape, lemma_count_three};
use crate::meaning::{
    choices, computed, elem, flat_index, in_shape, last_row, left_row, length_of, planes, routed,
    stretched_index, Elem,
};
use crate::models::{gpt_oss, qwen3_moe};
use crate::ops::create::t_scalar;
use crate::ops::elementwise::{
    binary_dtype, t_add, t_maximum, t_minimum, t_multiply, t_sigmoid, t_silu, unary_dtype,
};
use crate::ops::layout::{t_expand_dims, t_flatten, t_reshape, t_squeeze};
use crate::ops::product::{packs, raw_gather_qmm, t_gather_qmm};
use crate::ops::select::{raw_take, t_take};
use crate::scalar::{Float, Scalar};
use crate::shape::{axis_of, broadcast_shape};
use std::sync::Arc;
use vstd::prelude::*;

verus! {

/// Packed matrices, one for every expert, with biases of their groups or without, and with a bias
/// of their products or without.
pub struct Stack {
    pub weight: Term,
    pub scales: Term,
    pub biases: Option<Term>,
    pub bias: Option<Term>,
    pub group_size: i32,
    pub bits: i32,
}

/// The entry of a bias that belongs to a picked expert.
pub open spec fn bias_entry(bias: Term, pick: Num, c: int) -> Num {
    Num {
        e: match pick.e {
            Elem::Int(p) if 0 <= p < bias.shape[0] => elem(bias, seq![p, c]),
            e => Elem::Applied(
                Kind::Take { axis: 0 },
                seq![bias.dtype, pick.t],
                seq![e, Elem::Row(choices(bias, seq![], seq![c]))],
            ),
        },
        t: bias.dtype,
    }
}

/// The product of a row with row `c` of the matrix of a picked expert, plus its bias.
#[verifier::opaque]
pub open spec fn picked_dot(l: Stack, row: Seq<Elem>, t: Dtype, pick: Num, c: int) -> Num {
    let reads = seq![
        Elem::Row(row),
        Elem::Row(planes(l.weight, c)),
        Elem::Row(planes(l.scales, c)),
    ];
    let product = Num {
        e: Elem::Applied(
            Kind::GatherQmm {
                group_size: l.group_size,
                bits: l.bits,
                microscaling: l.biases is None,
            },
            seq![t, l.scales.dtype],
            match l.biases {
                Some(b) => reads.push(Elem::Row(planes(b, c))).push(pick.e),
                None => reads.push(pick.e),
            },
        ),
        t: if l.biases is Some {
            promoted(t, l.scales.dtype)
        } else {
            t
        },
    };
    match l.bias {
        Some(b) => pair(BinaryOp::Add, product, bias_entry(b, pick, c)),
        None => product,
    }
}

/// The type of such a product.
pub open spec fn picked_type(l: Stack, t: Dtype) -> Dtype {
    let p = if l.biases is Some {
        promoted(t, l.scales.dtype)
    } else {
        t
    };
    match l.bias {
        Some(b) => binary_dtype(BinaryOp::Add, p, b.dtype),
        None => p,
    }
}

proof fn lemma_picked_type(l: Stack, row: Seq<Elem>, t: Dtype, pick: Num, c: int)
    ensures
        picked_dot(l, row, t, pick, c).t == picked_type(l, t),
{
    reveal(picked_dot);
}

/// Whether stacked matrices go from `n` features to `m`.
pub open spec fn stack_fits(l: Stack, n: i32, m: i32) -> bool {
    &&& l.weight.shape.len() == 3
    &&& l.scales.shape.len() == 3
    &&& l.biases matches Some(b) ==> b.shape == l.scales.shape
    &&& l.bias matches Some(b) ==> b.shape == seq![l.weight.shape[0], m]
    &&& l.weight.shape[0] == l.scales.shape[0]
    &&& l.weight.shape[1] == m && l.scales.shape[1] == m
    &&& packs(n, l.weight.shape[2], l.scales.shape[2], l.group_size, l.bits)
}

/// The picked matrices applied: the products, plus the biases where there are some.
pub open spec fn stack_applied(l: Stack, x: Term, indices: Term) -> Tn {
    let p = t_gather_qmm(
        Ok(x),
        l.weight,
        l.scales,
        l.biases,
        Ok(indices),
        l.group_size,
        l.bits,
    );
    match l.bias {
        Some(b) => t_add(
            p,
            t_expand_dims(
                t_reshape(
                    t_take(Ok(b), t_flatten(Ok(indices)), 0),
                    indices.shape.push(-1i32),
                ),
                -2i32,
            ),
        ),
        None => p,
    }
}

/// Sizes of routed work: `b` rows of `l` positions with `k` picks each.
pub open spec fn picks_fit(b: i32, l: i32, k: i32) -> bool {
    b > 0 && l > 0 && k > 0 && b * l <= i32::MAX && (b * l) * k <= i32::MAX
}

proof fn lemma_left_at(x: Term, b: i32, l: i32, c0: i32, k: i32, d: i32, ix: Seq<int>)
    requires
        x.shape == seq![b, l, c0, 1i32, d],
        c0 == 1 || c0 == k,
        ix.len() == 5,
        0 <= ix[0] < b,
        0 <= ix[1] < l,
        0 <= ix[2] < k,
        ix[3] == 0,
    ensures
        left_row(x, ix) == row_of(x, slot(ix, c0)),
{
    reveal(row_of);
    let at = slot(ix, c0);
    let front = stretched_index(ix.take(3), x.shape.take(3));
    assert(front =~= at.take(3));
    let (r, q) = (left_row(x, ix), last_row(x, at));
    assert forall|i: int| 0 <= i < r.len() implies r[i] == q[i] by {
        assert(front.push(ix[3]).push(i) =~= at.update(4, i));
    }
    assert(r =~= q);
}

/// Where a picked matrix reads its row: one row for all picks of a position, or one for each.
pub open spec fn slot(ix: Seq<int>, c0: i32) -> Seq<int> {
    seq![
        ix[0],
        ix[1],
        if c0 == 1 {
            0
        } else {
            ix[2]
        },
        0,
        0,
    ]
}

/// The product with a picked matrix, at an index.
proof fn lemma_gathered_at(
    l: Stack,
    x: Term,
    i: Term,
    b: i32,
    len: i32,
    c0: i32,
    k: i32,
    d: i32,
    m: i32,
    ix: Seq<int>,
)
    requires
        l.bias is None,
        stack_fits(l, d, m),
        x.shape == seq![b, len, c0, 1i32, d],
        c0 == 1 || c0 == k,
        i.shape == states(b, len, k),
        in_shape(ix, seq![b, len, k, 1i32, m]),
    ensures
        stack_applied(l, x, i) matches Ok(r) && r.shape == seq![b, len, k, 1i32, m] && r.dtype
            == picked_type(l, x.dtype) && num(r, ix) == picked_dot(
            l,
            row_of(x, slot(ix, c0)),
            x.dtype,
            num(i, ix.take(3)),
            ix[4],
        ),
{
    reveal(raw_gather_qmm);
    let s = seq![b, len, k, 1i32, m];
    assert(0 <= ix[0] < s[0] && 0 <= ix[1] < s[1] && 0 <= ix[2] < s[2] && 0 <= ix[3] < s[3]);
    assert(x.shape.take(3) =~= seq![b, len, c0]);
    assert(broadcast_shape(seq![b, len, c0], seq![b, len, k]) =~= seq![b, len, k]);
    assert(seq![b, len, k].push(1i32).push(m) =~= s);
    let r = stack_applied(l, x, i)->Ok_0;
    lemma_left_at(x, b, len, c0, k, d, ix);
    assert(in_shape(ix.take(3), i.shape));
    lemma_stretch_self(ix.take(3), i.shape);
    match l.biases {
        Some(g) => {
            assert(r.args == seq![x, l.weight, l.scales, g, i]);
            assert(r.args[0] == x && r.args[1] == l.weight && r.args[2] == l.scales && r.args[3]
                == g && r.args[4] == i);
        },
        None => {
            assert(r.args == seq![x, l.weight, l.scales, i]);
            assert(r.args[0] == x && r.args[1] == l.weight && r.args[2] == l.scales && r.args[3]
                == i);
        },
    }
    lemma_gathered_elem(l, r, x, i, ix, c0);
}

proof fn lemma_gathered_elem(l: Stack, r: Term, x: Term, i: Term, ix: Seq<int>, c0: i32)
    requires
        l.bias is None,
        ix.len() == 5,
        r.kind == (Kind::GatherQmm {
            group_size: l.group_size,
            bits: l.bits,
            microscaling: l.biases is None,
        }),
        match l.biases {
            Some(g) => r.args == seq![x, l.weight, l.scales, g, i],
            None => r.args == seq![x, l.weight, l.scales, i],
        },
        r.dtype == picked_type(l, x.dtype),
        left_row(x, ix) == row_of(x, slot(ix, c0)),
        stretched_index(ix.take(3), i.shape) == ix.take(3),
    ensures
        num(r, ix) == picked_dot(
            l,
            row_of(x, slot(ix, c0)),
            x.dtype,
            num(i, ix.take(3)),
            ix[4],
        ),
{
    reveal(picked_dot);
    reveal(num);
    reveal(computed);
    reveal(routed);
    assert(elem(r, ix) == computed(r, ix));
    let want = picked_dot(l, row_of(x, slot(ix, c0)), x.dtype, num(i, ix.take(3)), ix[4]).e;
    assert(r.args[0] == x && r.args[1] == l.weight && r.args[2] == l.scales);
    assert(elem(r, ix)->Applied_2 =~= want->Applied_2);
}

/// The entries of a bias for all picks.
proof fn lemma_bias_at(
    bias: Term,
    i: Term,
    b: i32,
    len: i32,
    k: i32,
    e: i32,
    m: i32,
    ix: Seq<int>,
)
    requires
        picks_fit(b, len, k),
        m >= 0,
        bias.shape == seq![e, m],
        i.shape == states(b, len, k),
        in_shape(ix, seq![b, len, k, 1i32, m]),
    ensures
        t_expand_dims(
            t_reshape(t_take(Ok(bias), t_flatten(Ok(i)), 0), i.shape.push(-1i32)),
            -2i32,
        ) matches Ok(r) && r.shape == seq![b, len, k, 1i32, m] && num(r, ix) == bias_entry(
            bias,
            num(i, ix.take(3)),
            ix[4],
        ),
{
    let s = seq![b, len, k, 1i32, m];
    assert(0 <= ix[0] < s[0] && 0 <= ix[1] < s[1] && 0 <= ix[2] < s[2] && 0 <= ix[3] < s[3] && 0
        <= ix[4] < s[4]);
    let n = (b * len) * k;
    assert(0 < n) by (nonlinear_arith)
        requires
            b > 0,
            len > 0,
            k > 0,
            n == (b * len) * k,
    ;
    lemma_count_three(b, len, k);
    lemma_flat_list(i, n);
    let place = ix.take(3);
    assert(in_shape(place, i.shape));
    let flat = t_flatten(Ok(i))->Ok_0;
    let at = flat_index(place, i.shape);
    assert(elem(flat, seq![at]) == elem(i, place));
    let taken = t_take(Ok(bias), Ok(flat), 0);
    assert(has_shape(taken, seq![n as i32, m]) && taken->Ok_0.dtype == bias.dtype) by {
        reveal(raw_take);
        assert(bias.shape.take(0) + seq![n as i32] + bias.shape.skip(1) =~= seq![n as i32, m]);
    }
    lemma_rows_under(taken->Ok_0, i.shape, m, n);
    let rows = t_reshape(taken, i.shape.push(-1i32))->Ok_0;
    let jx = seq![ix[0], ix[1], ix[2], ix[4]];
    assert(in_shape(jx, i.shape.push(m)));
    assert(jx.drop_last() =~= place);
    assert(elem(rows, jx) == elem(taken->Ok_0, seq![at, ix[4]]));
    assert(flat.dtype == i.dtype) by {
        reveal(crate::ops::layout::raw_reshape);
    }
    lemma_taken_at(bias, flat, at, ix[4], e, m);
    assert(rows.dtype == bias.dtype) by {
        reveal(crate::ops::layout::raw_reshape);
    }
    assert(axis_of(-2i32, 5) == Some(3int));
    new_axes_hold_one_position(rows, -2i32, 3, ix);
    assert(rows.shape.insert(3, 1) =~= s);
    assert(ix.remove(3) =~= jx);
    reveal(num);
}

/// An entry of the rows that a list names.
proof fn lemma_taken_at(bias: Term, flat: Term, at: int, c: int, e: i32, m: i32)
    requires
        bias.shape == seq![e, m],
        flat.shape.len() == 1,
        t_take(Ok(bias), Ok(flat), 0) is Ok,
    ensures
        elem(t_take(Ok(bias), Ok(flat), 0)->Ok_0, seq![at, c]) == bias_entry(
            bias,
            Num { e: elem(flat, seq![at]), t: flat.dtype },
            c,
        ).e,
{
    reveal(raw_take);
    let r = t_take(Ok(bias), Ok(flat), 0)->Ok_0;
    assert(r.args[0] == bias && r.args[1] == flat);
    let ix = seq![at, c];
    assert(ix.subrange(0, 1) =~= seq![at]);
    assert(ix.take(0) =~= Seq::<int>::empty());
    assert(ix.skip(1) =~= seq![c]);
    match elem(flat, seq![at]) {
        Elem::Int(p) if 0 <= p < e => {
            assert(Seq::<int>::empty().push(p) + seq![c] =~= seq![p, c]);
        },
        _ => {},
    }
}

/// A picked matrix gives the product of its row with it, plus the bias of the same expert.
pub proof fn experts_go_by_their_pick(
    l: Stack,
    x: Term,
    i: Term,
    b: i32,
    len: i32,
    c0: i32,
    k: i32,
    d: i32,
    m: i32,
    ix: Seq<int>,
)
    requires
        picks_fit(b, len, k),
        m >= 0,
        stack_fits(l, d, m),
        x.shape == seq![b, len, c0, 1i32, d],
        c0 == 1 || c0 == k,
        i.shape == states(b, len, k),
        in_shape(ix, seq![b, len, k, 1i32, m]),
    ensures
        stack_applied(l, x, i) matches Ok(r) && r.shape == seq![b, len, k, 1i32, m] && r.dtype
            == picked_type(l, x.dtype) && num(r, ix) == picked_dot(
            l,
            row_of(x, slot(ix, c0)),
            x.dtype,
            num(i, ix.take(3)),
            ix[4],
        ),
{
    let bare = Stack { bias: None, ..l };
    lemma_gathered_at(bare, x, i, b, len, c0, k, d, m, ix);
    match l.bias {
        Some(g) => {
            let p = stack_applied(bare, x, i)->Ok_0;
            lemma_bias_at(g, i, b, len, k, l.weight.shape[0], m, ix);
            let q = t_expand_dims(
                t_reshape(t_take(Ok(g), t_flatten(Ok(i)), 0), i.shape.push(-1i32)),
                -2i32,
            )->Ok_0;
            pairs_go_together(BinaryOp::Add, p, q, ix);
            reveal(picked_dot);
            lemma_num_type(t_add(Ok(p), Ok(q))->Ok_0, ix);
            lemma_num_type(p, ix);
            lemma_num_type(q, ix);
        },
        None => {
            assert(bare == l);
        },
    }
}

/// Hidden states with two axes of one position before the features.
proof fn lemma_wide(x: Term, b: i32, l: i32, d: i32, at: Seq<int>)
    requires
        x.shape == states(b, l, d),
        at.len() == 3,
    ensures
        t_expand_dims(t_expand_dims(Ok(x), -2i32), -2i32) matches Ok(w) && w.shape == seq![
            b,
            l,
            1i32,
            1i32,
            d,
        ] && w.dtype == x.dtype && row_of(w, seq![at[0], at[1], 0, 0, 0]) == row_of(
            x,
            seq![at[0], at[1], 0],
        ),
{
    let zero = seq![at[0], at[1], 0, 0, 0];
    assert(axis_of(-2i32, 4) == Some(2int) && axis_of(-2i32, 5) == Some(3int));
    new_axes_hold_one_position(x, -2i32, 2, seq![at[0], at[1], 0, 0]);
    let y = t_expand_dims(Ok(x), -2i32)->Ok_0;
    assert(y.shape =~= seq![b, l, 1i32, d]);
    new_axes_hold_one_position(y, -2i32, 3, zero);
    let w = t_expand_dims(Ok(y), -2i32)->Ok_0;
    assert(w.shape =~= seq![b, l, 1i32, 1i32, d]);
    let ax = seq![at[0], at[1], 0];
    let want = row_of(x, ax);
    assert(want.len() == length_of(d)) by {
        reveal(row_of);
    }
    assert forall|f: int| 0 <= f < want.len() implies (#[trigger] num(w, zero.update(4, f))).e
        == want[f] by {
        let wx = zero.update(4, f);
        new_axes_hold_one_position(y, -2i32, 3, wx);
        let yx = wx.remove(3);
        new_axes_hold_one_position(x, -2i32, 2, yx);
        assert(yx.remove(2) =~= ax.update(2, f));
        reveal(num);
        reveal(row_of);
    }
    lemma_row(w, zero, want);
}

/// Hidden feature `f` of a slot.
spec fn hidden_at(ix: Seq<int>, f: int) -> Seq<int> {
    seq![ix[0], ix[1], ix[2], 0, f]
}

/// What experts give behind their hidden features, with the axis in the middle dropped.
proof fn lemma_down(
    l: Stack,
    h: Term,
    i: Term,
    b: i32,
    len: i32,
    k: i32,
    hidden: i32,
    dim: i32,
    want: Seq<Elem>,
    ix: Seq<int>,
)
    requires
        picks_fit(b, len, k),
        dim >= 0,
        hidden > 0,
        stack_fits(l, hidden, dim),
        h.shape == seq![b, len, k, 1i32, hidden],
        i.shape == states(b, len, k),
        in_shape(ix, heads_of(b, len, k, dim)),
        want.len() == hidden,
        forall|f: int|
            0 <= f < hidden ==> (#[trigger] num(h, hidden_at(ix, f))).e == want[f],
    ensures
        t_squeeze(stack_applied(l, h, i), -2i32) matches Ok(r) && r.shape == heads_of(
            b,
            len,
            k,
            dim,
        ) && r.dtype == picked_type(l, h.dtype) && num(r, ix) == picked_dot(
            l,
            want,
            h.dtype,
            num(i, seq![ix[0], ix[1], ix[2]]),
            ix[3],
        ),
{
    let s = heads_of(b, len, k, dim);
    assert(0 <= ix[0] < s[0] && 0 <= ix[1] < s[1] && 0 <= ix[2] < s[2] && 0 <= ix[3] < s[3]);
    let wx = seq![ix[0], ix[1], ix[2], 0, ix[3]];
    assert(in_shape(wx, seq![b, len, k, 1i32, dim]));
    experts_go_by_their_pick(l, h, i, b, len, k, k, hidden, dim, wx);
    let y = stack_applied(l, h, i)->Ok_0;
    let at = slot(wx, k);
    assert(at =~= seq![ix[0], ix[1], ix[2], 0, 0]);
    assert forall|f: int| 0 <= f < want.len() implies (#[trigger] num(h, at.update(4, f))).e
        == want[f] by {
        assert(at.update(4, f) =~= hidden_at(ix, f));
        assert(num(h, hidden_at(ix, f)).e == want[f]);
    }
    lemma_row(h, at, want);
    assert(axis_of(-2i32, 5) == Some(3int));
    dropped_axes_held_one_position(y, -2i32, 3, ix);
    assert(y.shape.remove(3) =~= s);
    assert(ix.insert(3, 0) =~= wx);
    assert(wx.take(3) =~= seq![ix[0], ix[1], ix[2]]);
}

/// The matrices of one projection of the experts.
pub open spec fn qwen_stack(l: qwen3_moe::QSwitchLinear) -> Stack {
    Stack {
        weight: l.weight@,
        scales: l.scales@,
        biases: Some(l.biases@),
        bias: None,
        group_size: l.group_size,
        bits: l.bits,
    }
}

/// Hidden feature `f` of an expert: its activated gating product times its other product.
pub open spec fn expert_feature(
    gate: Stack,
    up: Stack,
    row: Seq<Elem>,
    t: Dtype,
    pick: Num,
    f: int,
) -> Num {
    pair(
        BinaryOp::Multiply,
        single(UnaryOp::Silu, picked_dot(gate, row, t, pick, f)),
        picked_dot(up, row, t, pick, f),
    )
}

/// The type of the hidden features of an expert.
pub open spec fn expert_type(gate: Stack, up: Stack, t: Dtype) -> Dtype {
    binary_dtype(
        BinaryOp::Multiply,
        unary_dtype(UnaryOp::Silu, picked_type(gate, t)),
        picked_type(up, t),
    )
}

/// The hidden features of an expert.
pub open spec fn expert_row(
    gate: Stack,
    up: Stack,
    hidden: i32,
    row: Seq<Elem>,
    t: Dtype,
    pick: Num,
) -> Seq<Elem> {
    Seq::new(length_of(hidden), |f: int| expert_feature(gate, up, row, t, pick, f).e)
}

/// In an expert `gate_proj` is activated and gates `up_proj`, and `down_proj` brings the hidden
/// features back: all three are those of the expert that stands in the slot.
pub proof fn experts_gate_the_up_projection(
    g: qwen3_moe::SwitchGlu,
    x: Term,
    i: Term,
    b: i32,
    len: i32,
    k: i32,
    dim: i32,
    hidden: i32,
    ix: Seq<int>,
)
    requires
        picks_fit(b, len, k),
        hidden > 0,
        dim >= 0,
        stack_fits(qwen_stack(g.gate_proj), dim, hidden),
        stack_fits(qwen_stack(g.up_proj), dim, hidden),
        stack_fits(qwen_stack(g.down_proj), hidden, dim),
        x.shape == states(b, len, dim),
        i.shape == states(b, len, k),
        in_shape(ix, heads_of(b, len, k, dim)),
    ensures
        ({
            let (gate, up) = (qwen_stack(g.gate_proj), qwen_stack(g.up_proj));
            let down = qwen_stack(g.down_proj);
            let row = row_of(x, seq![ix[0], ix[1], 0]);
            let pick = num(i, seq![ix[0], ix[1], ix[2]]);
            g.apply(Ok(x), Ok(i)) matches Ok(r) && r.shape == heads_of(b, len, k, dim) && r.dtype
                == picked_type(down, expert_type(gate, up, x.dtype)) && num(r, ix) == picked_dot(
                down,
                expert_row(gate, up, hidden, row, x.dtype, pick),
                expert_type(gate, up, x.dtype),
                pick,
                ix[3],
            )
        }),
{
    let (gate, up) = (qwen_stack(g.gate_proj), qwen_stack(g.up_proj));
    let s = heads_of(b, len, k, dim);
    assert(0 <= ix[0] < s[0] && 0 <= ix[1] < s[1] && 0 <= ix[2] < s[2] && 0 <= ix[3] < s[3]);
    let row = row_of(x, seq![ix[0], ix[1], 0]);
    let pick = num(i, seq![ix[0], ix[1], ix[2]]);
    lemma_wide(x, b, len, dim, seq![ix[0], ix[1], 0]);
    let w = t_expand_dims(t_expand_dims(Ok(x), -2i32), -2i32)->Ok_0;
    let want = expert_row(gate, up, hidden, row, x.dtype, pick);
    let h = t_multiply(
        t_silu(stack_applied(gate, w, i)),
        stack_applied(up, w, i),
    );
    lemma_hidden_at(gate, up, w, x.dtype, i, b, len, k, dim, hidden, row, ix, 0);
    assert forall|f: int| 0 <= f < hidden implies (#[trigger] num(
        h->Ok_0,
        hidden_at(ix, f),
    )).e == want[f] by {
        lemma_hidden_at(gate, up, w, x.dtype, i, b, len, k, dim, hidden, row, ix, f);
    }
    lemma_down(qwen_stack(g.down_proj), h->Ok_0, i, b, len, k, hidden, dim, want, ix);
}

proof fn lemma_hidden_at(
    gate: Stack,
    up: Stack,
    w: Term,
    t: Dtype,
    i: Term,
    b: i32,
    len: i32,
    k: i32,
    dim: i32,
    hidden: i32,
    row: Seq<Elem>,
    ix: Seq<int>,
    f: int,
)
    requires
        picks_fit(b, len, k),
        0 <= f < hidden,
        stack_fits(gate, dim, hidden),
        stack_fits(up, dim, hidden),
        w.shape == seq![b, len, 1i32, 1i32, dim],
        w.dtype == t,
        i.shape == states(b, len, k),
        ix.len() == 4,
        0 <= ix[0] < b,
        0 <= ix[1] < len,
        0 <= ix[2] < k,
        row == row_of(w, seq![ix[0], ix[1], 0, 0, 0]),
    ensures
        t_multiply(t_silu(stack_applied(gate, w, i)), stack_applied(up, w, i)) matches Ok(h)
            && h.shape == seq![b, len, k, 1i32, hidden] && h.dtype == expert_type(gate, up, t)
            && num(h, hidden_at(ix, f)) == expert_feature(
            gate,
            up,
            row,
            t,
            num(i, seq![ix[0], ix[1], ix[2]]),
            f,
        ),
{
    let wx = hidden_at(ix, f);
    assert(in_shape(wx, seq![b, len, k, 1i32, hidden]));
    assert(slot(wx, 1) =~= seq![ix[0], ix[1], 0, 0, 0]);
    assert(wx.take(3) =~= seq![ix[0], ix[1], ix[2]]);
    let pick = num(i, seq![ix[0], ix[1], ix[2]]);
    experts_go_by_their_pick(gate, w, i, b, len, 1, k, dim, hidden, wx);
    experts_go_by_their_pick(up, w, i, b, len, 1, k, dim, hidden, wx);
    let (p, q) = (stack_applied(gate, w, i)->Ok_0, stack_applied(up, w, i)->Ok_0);
    functions_go_by_element(UnaryOp::Silu, p, wx);
    let a = t_silu(Ok(p))->Ok_0;
    pairs_go_together(BinaryOp::Multiply, a, q, wx);
    lemma_picked_type(gate, row, t, pick, f);
    lemma_picked_type(up, row, t, pick, f);
    lemma_num_type(t_multiply(Ok(a), Ok(q))->Ok_0, wx);
}

/// The matrices of one projection of the experts, with a bias for each.
pub open spec fn gpt_oss_stack(l: gpt_oss::QSwitchLinear) -> Stack {
    Stack {
        weight: l.weight@,
        scales: l.scales@,
        biases: None,
        bias: Some(l.bias@),
        group_size: l.group_size,
        bits: l.bits,
    }
}

/// The number 1.702 in single precision.
pub open spec fn steepness() -> Num {
    fixed(Scalar::Lit(Float { bits: 0x3fd9_db23 }))
}

/// The clamped gated activation: with `g` the gating number cut off above the limit and `u` the
/// other one cut off on both sides, `g * sigmoid(1.702 * g) * (u + 1)`.
pub open spec fn clamped_gate(g: Num, u: Num, limit: Float) -> Num {
    let most = fixed(Scalar::Lit(limit));
    let least = fixed(Scalar::Negative(Arc::new(Scalar::Lit(limit))));
    let g1 = pair(BinaryOp::Minimum, g, most);
    let u1 = pair(BinaryOp::Minimum, pair(BinaryOp::Maximum, u, least), most);
    pair(
        BinaryOp::Multiply,
        pair(
            BinaryOp::Multiply,
            g1,
            single(UnaryOp::Sigmoid, pair(BinaryOp::Multiply, g1, steepness())),
        ),
        pair(BinaryOp::Add, u1, fixed(Scalar::Lit(Float { bits: 0x3f80_0000 }))),
    )
}

/// The type of such an activation.
pub open spec fn clamped_type(g: Dtype, u: Dtype) -> Dtype {
    let (zero, limit) = (Elem::Row(seq![]), Float { bits: 0 });
    clamped_gate(Num { e: zero, t: g }, Num { e: zero, t: u }, limit).t
}

/// The hidden features of an expert with the clamped activation.
pub open spec fn clamped_row(
    gate: Stack,
    up: Stack,
    hidden: i32,
    row: Seq<Elem>,
    t: Dtype,
    pick: Num,
    limit: Float,
) -> Seq<Elem> {
    Seq::new(
        length_of(hidden),
        |f: int|
            clamped_gate(
                picked_dot(gate, row, t, pick, f),
                picked_dot(up, row, t, pick, f),
                limit,
            ).e,
    )
}

/// The activation, at an index.
proof fn lemma_clamped_at(u: Term, g: Term, limit: Float, ix: Seq<int>)
    requires
        u.shape == g.shape,
        in_shape(ix, u.shape),
    ensures
        gpt_oss::activated(Ok(u), Ok(g), limit) matches Ok(r) && r.shape == u.shape && num(r, ix)
            == clamped_gate(num(g, ix), num(u, ix), limit),
{
    let lim = Scalar::Lit(limit);
    let neg = Scalar::Negative(Arc::new(lim));
    constants_go_with_all(BinaryOp::Minimum, g, lim, ix);
    let g1 = t_minimum(Ok(g), t_scalar(lim))->Ok_0;
    constants_go_with_all(BinaryOp::Maximum, u, neg, ix);
    let u0 = t_maximum(Ok(u), t_scalar(neg))->Ok_0;
    constants_go_with_all(BinaryOp::Minimum, u0, lim, ix);
    let u1 = t_minimum(Ok(u0), t_scalar(lim))->Ok_0;
    let alpha = crate::scalar::lit(gpt_oss::SWIGLU_ALPHA_BITS);
    constants_go_with_all(BinaryOp::Multiply, g1, alpha, ix);
    let m = t_multiply(Ok(g1), t_scalar(alpha))->Ok_0;
    functions_go_by_element(UnaryOp::Sigmoid, m, ix);
    let sig = t_sigmoid(Ok(m))->Ok_0;
    pairs_go_together(BinaryOp::Multiply, g1, sig, ix);
    let p = t_multiply(Ok(g1), Ok(sig))->Ok_0;
    let one = crate::scalar::lit(crate::scalar::ONE_BITS);
    constants_go_with_all(BinaryOp::Add, u1, one, ix);
    let a = t_add(Ok(u1), t_scalar(one))->Ok_0;
    pairs_go_together(BinaryOp::Multiply, p, a, ix);
}

/// In an expert with the clamped activation `gate_proj` gates `up_proj`, and `down_proj` brings the
/// hidden features back: all three are those of the expert that stands in the slot, with their
/// biases.
pub proof fn clamped_experts_gate_the_up_projection(
    g: gpt_oss::SwitchGlu,
    x: Term,
    i: Term,
    limit: Float,
    b: i32,
    len: i32,
    k: i32,
    dim: i32,
    hidden: i32,
    ix: Seq<int>,
)
    requires
        picks_fit(b, len, k),
        hidden > 0,
        dim >= 0,
        stack_fits(gpt_oss_stack(g.gate_proj), dim, hidden),
        stack_fits(gpt_oss_stack(g.up_proj), dim, hidden),
        stack_fits(gpt_oss_stack(g.down_proj), hidden, dim),
        x.shape == states(b, len, dim),
        i.shape == states(b, len, k),
        in_shape(ix, heads_of(b, len, k, dim)),
    ensures
        ({
            let (gate, up) = (gpt_oss_stack(g.gate_proj), gpt_oss_stack(g.up_proj));
            let down = gpt_oss_stack(g.down_proj);
            let row = row_of(x, seq![ix[0], ix[1], 0]);
            let pick = num(i, seq![ix[0], ix[1], ix[2]]);
            let t = clamped_type(picked_type(gate, x.dtype), picked_type(up, x.dtype));
            g.apply(Ok(x), Ok(i), limit) matches Ok(r) && r.shape == heads_of(b, len, k, dim)
                && r.dtype == picked_type(down, t) && num(r, ix) == picked_dot(
                down,
                clamped_row(gate, up, hidden, row, x.dtype, pick, limit),
                t,
                pick,
                ix[3],
            )
        }),
{
    let (gate, up) = (gpt_oss_stack(g.gate_proj), gpt_oss_stack(g.up_proj));
    let s = heads_of(b, len, k, dim);
    assert(0 <= ix[0] < s[0] && 0 <= ix[1] < s[1] && 0 <= ix[2] < s[2] && 0 <= ix[3] < s[3]);
    let row = row_of(x, seq![ix[0], ix[1], 0]);
    let pick = num(i, seq![ix[0], ix[1], ix[2]]);
    lemma_wide(x, b, len, dim, seq![ix[0], ix[1], 0]);
    let w = t_expand_dims(t_expand_dims(Ok(x), -2i32), -2i32)->Ok_0;
    let want = clamped_row(gate, up, hidden, row, x.dtype, pick, limit);
    let h = gpt_oss::activated(stack_applied(up, w, i), stack_applied(gate, w, i), limit);
    lemma_clamped_hidden(gate, up, w, x.dtype, i, limit, b, len, k, dim, hidden, row, ix, 0);
    assert forall|f: int| 0 <= f < hidden implies (#[trigger] num(
        h->Ok_0,
        hidden_at(ix, f),
    )).e == want[f] by {
        lemma_clamped_hidden(gate, up, w, x.dtype, i, limit, b, len, k, dim, hidden, row, ix, f);
    }
    lemma_down(gpt_oss_stack(g.down_proj), h->Ok_0, i, b, len, k, hidden, dim, want, ix);
    assert(g.up_proj.apply(Ok(w), Ok(i)) == stack_applied(up, w, i));
    assert(g.gate_proj.apply(Ok(w), Ok(i)) == stack_applied(gate, w, i));
    assert(g.down_proj.apply(h, Ok(i)) == stack_applied(
        gpt_oss_stack(g.down_proj),
        h->Ok_0,
        i,
    ));
}

proof fn lemma_clamped_hidden(
    gate: Stack,
    up: Stack,
    w: Term,
    t: Dtype,
    i: Term,
    limit: Float,
    b: i32,
    len: i32,
    k: i32,
    dim: i32,
    hidden: i32,
    row: Seq<Elem>,
    ix: Seq<int>,
    f: int,
)
    requires
        picks_fit(b, len, k),
        0 <= f < hidden,
        stack_fits(gate, dim, hidden),
        stack_fits(up, dim, hidden),
        w.shape == seq![b, len, 1i32, 1i32, dim],
        w.dtype == t,
        i.shape == states(b, len, k),
        ix.len() == 4,
        0 <= ix[0] < b,
        0 <= ix[1] < len,
        0 <= ix[2] < k,
        row == row_of(w, seq![ix[0], ix[1], 0, 0, 0]),
    ensures
        gpt_oss::activated(stack_applied(up, w, i), stack_applied(gate, w, i), limit) matches Ok(h)
            && h.shape == seq![b, len, k, 1i32, hidden] && h.dtype == clamped_type(
            picked_type(gate, t),
            picked_type(up, t),
        ) && num(h, hidden_at(ix, f)) == clamped_gate(
            picked_dot(gate, row, t, num(i, seq![ix[0], ix[1], ix[2]]), f),
            picked_dot(up, row, t, num(i, seq![ix[0], ix[1], ix[2]]), f),
            limit,
        ),
{
    let wx = hidden_at(ix, f);
    assert(in_shape(wx, seq![b, len, k, 1i32, hidden]));
    assert(slot(wx, 1) =~= seq![ix[0], ix[1], 0, 0, 0]);
    assert(wx.take(3) =~= seq![ix[0], ix[1], ix[2]]);
    let pick = num(i, seq![ix[0], ix[1], ix[2]]);
    experts_go_by_their_pick(gate, w, i, b, len, 1, k, dim, hidden, wx);
    experts_go_by_their_pick(up, w, i, b, len, 1, k, dim, hidden, wx);
    let (p, q) = (stack_applied(gate, w, i)->Ok_0, stack_applied(up, w, i)->Ok_0);
    lemma_clamped_at(q, p, limit, wx);
    lemma_picked_type(gate, row, t, pick, f);
    lemma_picked_type(up, row, t, pick, f);
    lemma_num_type(gpt_oss::activated(Ok(q), Ok(p), limit)->Ok_0, wx);
}

} // verus!
