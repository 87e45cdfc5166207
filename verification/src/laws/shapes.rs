//! Which shapes layers take and give.

use crate::array::{BinaryOp, Dtype, Term, Tn};
use crate::cache::KeyValueCache;
use crate::fast::{array_mask, raw_attention, raw_rope};
use crate::models::decoder::DecoderLayer;
use crate::models::gated_delta::{
    decayed, first_state, next_state, scan, scanned, spread, step_at, stepped, ScanInput,
};
use crate::models::llama::{Attention, Mlp};
use crate::nn::{t_as_linear, t_linear, EmbeddingTerm, LinearTerm};
use crate::ops::elementwise::{
    raw_binary, raw_cast, raw_unary, t_binary, t_cast, t_multiply, t_silu, t_subtract,
};
use crate::ops::layout::{
    raw_expand_dims, raw_repeat, raw_reshape, raw_transpose, t_expand_dims, t_transpose,
};
use crate::ops::product::{
    packs, raw_matmul, raw_quantized_matmul, t_matmul, t_quantized_matmul,
};
use crate::ops::reduce::{raw_sum, t_sum};
use crate::ops::create::t_scalar;
use crate::ops::select::{
    alike, raw_concatenate, raw_select, raw_slice, raw_stack, t_select, t_slice, OPEN,
};
use crate::scalar::Scalar;
use crate::shape::{broadcast_shape, broadcastable, count, is_permutation, is_unknown_at, permuted};
use crate::utils::attention::{attended, join_heads, rotated, split_heads};
use crate::utils::rope::{prescaled, RopeVariant};
use vstd::prelude::*;

verus! {

/// Whether an outcome is an array of this shape.
pub open spec fn has_shape(t: Tn, shape: Seq<i32>) -> bool {
    t matches Ok(x) && x.shape == shape
}

/// Whether an outcome is a single-precision array of this shape.
pub open spec fn is_single(t: Tn, shape: Seq<i32>) -> bool {
    t matches Ok(x) && x.shape == shape && x.dtype == Dtype::Float32
}

proof fn lemma_pairs(op: BinaryOp, a: Tn, b: Tn, sa: Seq<i32>, sb: Seq<i32>, out: Seq<i32>)
    requires
        is_single(a, sa),
        is_single(b, sb),
        !op.predicate(),
        broadcastable(sa, sb),
        broadcast_shape(sa, sb) =~= out,
    ensures
        is_single(t_binary(op, a, b), out),
{
    reveal(raw_binary);
}

proof fn lemma_expand(a: Tn, axis: i32, s: Seq<i32>, out: Seq<i32>)
    requires
        is_single(a, s),
        0 <= axis <= s.len(),
        s.len() < 10,
        out =~= s.insert(axis as int, 1),
    ensures
        is_single(t_expand_dims(a, axis), out),
{
    reveal(raw_expand_dims);
}

proof fn lemma_last_sum(a: Tn, s: Seq<i32>, out: Seq<i32>)
    requires
        is_single(a, s),
        s.len() > 0,
        out =~= s.drop_last(),
    ensures
        is_single(t_sum(a, -1i32, false), out),
{
    reveal(raw_sum);
    assert(s.remove(s.len() - 1) =~= s.drop_last());
}

/// A step of the delta rule on `h` heads of `b` rows gives an output of the shape of the values
/// and a state of the shape of the state.
pub proof fn a_step_keeps_shapes(
    q: Tn,
    k: Tn,
    v: Tn,
    g: Tn,
    beta: Tn,
    state: Tn,
    b: i32,
    h: i32,
    dk: i32,
    dv: i32,
)
    requires
        is_single(q, seq![b, h, dk]),
        is_single(k, seq![b, h, dk]),
        is_single(v, seq![b, h, dv]),
        is_single(g, seq![b, h]),
        is_single(beta, seq![b, h]),
        is_single(state, seq![b, h, dv, dk]),
    ensures
        stepped(q, k, v, g, beta, state) matches Ok((y, s)) && is_single(
            Ok(y),
            seq![b, h, dv],
        ) && is_single(Ok(s), seq![b, h, dv, dk]),
{
    let full = seq![b, h, dv, dk];
    let g3 = t_expand_dims(g, 2);
    lemma_expand(g, 2, seq![b, h], seq![b, h, 1i32]);
    lemma_expand(g3, 3, seq![b, h, 1i32], seq![b, h, 1i32, 1i32]);
    let s = decayed(state, g);
    lemma_pairs(
        BinaryOp::Multiply,
        state,
        t_expand_dims(g3, 3),
        full,
        seq![b, h, 1i32, 1i32],
        full,
    );
    let k4 = t_expand_dims(k, 2);
    lemma_expand(k, 2, seq![b, h, dk], seq![b, h, 1i32, dk]);
    lemma_pairs(BinaryOp::Multiply, s, k4, full, seq![b, h, 1i32, dk], full);
    let memory = t_sum(t_multiply(s, k4), -1i32, false);
    lemma_last_sum(t_multiply(s, k4), full, seq![b, h, dv]);
    lemma_pairs(BinaryOp::Subtract, v, memory, seq![b, h, dv], seq![b, h, dv], seq![b, h, dv]);
    lemma_expand(beta, 2, seq![b, h], seq![b, h, 1i32]);
    lemma_pairs(
        BinaryOp::Multiply,
        t_subtract(v, memory),
        t_expand_dims(beta, 2),
        seq![b, h, dv],
        seq![b, h, 1i32],
        seq![b, h, dv],
    );
    let delta = t_multiply(t_subtract(v, memory), t_expand_dims(beta, 2));
    lemma_expand(delta, 3, seq![b, h, dv], seq![b, h, dv, 1i32]);
    lemma_pairs(
        BinaryOp::Multiply,
        k4,
        t_expand_dims(delta, 3),
        seq![b, h, 1i32, dk],
        seq![b, h, dv, 1i32],
        full,
    );
    lemma_pairs(BinaryOp::Add, s, t_multiply(k4, t_expand_dims(delta, 3)), full, full, full);
    let n = next_state(k, v, g, beta, state);
    lemma_expand(q, 2, seq![b, h, dk], seq![b, h, 1i32, dk]);
    lemma_pairs(BinaryOp::Multiply, n, t_expand_dims(q, 2), full, seq![b, h, 1i32, dk], full);
    lemma_last_sum(t_multiply(n, t_expand_dims(q, 2)), full, seq![b, h, dv]);
}

pub(crate) proof fn lemma_position(x: Term, s: Seq<i32>, i: int, out: Seq<i32>)
    requires
        is_single(Ok(x), s),
        s.len() >= 2,
        0 <= i < s[1],
        out =~= s.remove(1),
    ensures
        is_single(t_select(Ok(x), 1, i as i32), out),
{
    reveal(raw_select);
}

proof fn lemma_scan_shapes(
    x: ScanInput,
    state: Term,
    b: i32,
    t: i32,
    h: i32,
    dk: i32,
    dv: i32,
    n: nat,
)
    requires
        n <= t,
        is_single(Ok(x.q), seq![b, t, h, dk]),
        is_single(Ok(x.k), seq![b, t, h, dk]),
        is_single(Ok(x.v), seq![b, t, h, dv]),
        is_single(Ok(x.g), seq![b, t, h]),
        is_single(Ok(x.beta), seq![b, t, h]),
        is_single(Ok(state), seq![b, h, dv, dk]),
    ensures
        scan(x, state, 0, n) matches Ok((ys, s)) && ys.len() == n && is_single(
            Ok(s),
            seq![b, h, dv, dk],
        ) && forall|i: int| 0 <= i < n ==> is_single(Ok(#[trigger] ys[i]), seq![b, h, dv]),
    decreases n,
{
    if n > 0 {
        lemma_scan_shapes(x, state, b, t, h, dk, dv, (n - 1) as nat);
        let (ys, s) = scan(x, state, 0, (n - 1) as nat)->Ok_0;
        let i = n - 1;
        lemma_position(x.q, seq![b, t, h, dk], i, seq![b, h, dk]);
        lemma_position(x.k, seq![b, t, h, dk], i, seq![b, h, dk]);
        lemma_position(x.v, seq![b, t, h, dv], i, seq![b, h, dv]);
        lemma_position(x.g, seq![b, t, h], i, seq![b, h]);
        lemma_position(x.beta, seq![b, t, h], i, seq![b, h]);
        a_step_keeps_shapes(
            t_select(Ok(x.q), 1, i as i32),
            t_select(Ok(x.k), 1, i as i32),
            t_select(Ok(x.v), 1, i as i32),
            t_select(Ok(x.g), 1, i as i32),
            t_select(Ok(x.beta), 1, i as i32),
            Ok(s),
            b,
            h,
            dk,
            dv,
        );
        let (y, z) = step_at(x, 0 + n - 1, s)->Ok_0;
        assert forall|j: int| 0 <= j < n implies is_single(
            Ok(#[trigger] ys.push(y)[j]),
            seq![b, h, dv],
        ) by {
            if j < n - 1 {
                assert(ys.push(y)[j] == ys[j]);
            }
        }
    }
}

pub(crate) proof fn lemma_spread(x: Term, b: i32, t: i32, hk: i32, hv: i32, d: i32)
    requires
        x.shape == seq![b, t, hk, d],
        0 < hk <= hv,
        hv % hk == 0,
    ensures
        is_single(spread(t_cast(Ok(x), Dtype::Float32), hv, hk), seq![b, t, hv, d]),
        t_cast(Ok(x), Dtype::Float32) matches Ok(c) && c.shape == x.shape,
        hv / hk >= 1,
        hk * (hv / hk) == hv,
{
    reveal(raw_cast);
    reveal(raw_repeat);
    let c = t_cast(Ok(x), Dtype::Float32)->Ok_0;
    let times = hv / hk;
    vstd::arithmetic::div_mod::lemma_fundamental_div_mod(hv as int, hk as int);
    assert(hk * times == hv);
    assert(times >= 1) by (nonlinear_arith)
        requires
            hk * times == hv,
            0 < hk <= hv,
    ;
    if times > 1 {
        assert(c.shape.update(2, (c.shape[2] * times) as i32) =~= seq![b, t, hv, d]);
    } else {
        assert(hk == hv) by (nonlinear_arith)
            requires
                hk * times == hv,
                times == 1,
        ;
    }
}

/// The delta rule on `t` positions takes queries and keys of `hk` heads, values, decays and
/// correction parts of `hv` heads, and gives an output of the shape and place of the values, in the
/// element type of the queries, and a state of `[b, hv, dv, dk]`.
pub proof fn the_delta_rule_keeps_shapes(
    q: Term,
    k: Term,
    v: Term,
    g: Term,
    beta: Term,
    state: Option<Term>,
    b: i32,
    t: i32,
    hk: i32,
    hv: i32,
    dk: i32,
    dv: i32,
)
    requires
        b >= 0,
        t > 0,
        0 < hk <= hv,
        hv % hk == 0,
        dk >= 0,
        dv >= 0,
        q.shape == seq![b, t, hk, dk],
        k.shape == seq![b, t, hk, dk],
        v.shape == seq![b, t, hv, dv],
        g.shape == seq![b, t, hv],
        beta.shape == seq![b, t, hv],
        state matches Some(s) ==> is_single(Ok(s), seq![b, hv, dv, dk]),
    ensures
        scanned(q, k, v, g, beta, state) matches Ok((y, s)) && y.shape == seq![b, t, hv, dv]
            && y.dtype == q.dtype && is_single(Ok(s), seq![b, hv, dv, dk]),
{
    lemma_spread(q, b, t, hk, hv, dk);
    lemma_spread(k, b, t, hk, hv, dk);
    let q2 = spread(t_cast(Ok(q), Dtype::Float32), hv, hk)->Ok_0;
    let k2 = spread(t_cast(Ok(k), Dtype::Float32), hv, hk)->Ok_0;
    let v2 = t_cast(Ok(v), Dtype::Float32)->Ok_0;
    let g2 = t_cast(Ok(g), Dtype::Float32)->Ok_0;
    let beta2 = t_cast(Ok(beta), Dtype::Float32)->Ok_0;
    let s0 = first_state(state, b, hv, dv, dk)->Ok_0;
    assert(is_single(first_state(state, b, hv, dv, dk), seq![b, hv, dv, dk]));
    reveal(raw_cast);
    let x = ScanInput { q: q2, k: k2, v: v2, g: g2, beta: beta2 };
    lemma_scan_shapes(x, s0, b, t, hv, dk, dv, t as nat);
    let (ys, s) = scan(x, s0, 0, t as nat)->Ok_0;
    reveal(raw_stack);
    assert(alike(ys)) by {
        assert forall|i: int| 0 <= i < ys.len() implies (#[trigger] ys[i]).shape == ys[0].shape
            && ys[i].dtype == ys[0].dtype by {
            assert(is_single(Ok(ys[i]), seq![b, hv, dv]));
            assert(is_single(Ok(ys[0]), seq![b, hv, dv]));
        }
    }
    assert(is_single(Ok(ys[0]), seq![b, hv, dv]));
    assert(seq![b, hv, dv].insert(1, t) =~= seq![b, t, hv, dv]);
    assert(ys.len() as i32 == t);
}

/// Whether a linear layer goes from `n` features to `m`, in full precision or packed.
#[verifier::opaque]
pub open spec fn goes(l: LinearTerm, n: i32, m: i32) -> bool {
    match l {
        LinearTerm::Dense { weight, bias } => {
            &&& weight.shape == seq![m, n]
            &&& bias matches Some(b) ==> b.shape == seq![m]
        },
        LinearTerm::Packed { weight, scales, biases, bias, group_size, bits } => {
            &&& packed_rows(weight, scales, biases, m, n, group_size, bits)
            &&& bias matches Some(b) ==> b.shape == seq![m]
        },
    }
}

/// Whether packed weights, their scales and their biases hold `m` rows of `n` numbers.
pub open spec fn packed_rows(
    weight: Term,
    scales: Term,
    biases: Term,
    m: i32,
    n: i32,
    group_size: i32,
    bits: i32,
) -> bool {
    &&& weight.shape.len() == 2 && weight.shape[0] == m
    &&& scales.shape.len() == 2 && scales.shape[0] == m
    &&& biases.shape == scales.shape
    &&& packs(n, weight.shape[1], scales.shape[1], group_size, bits)
}

/// Whether an embedding table holds `v` rows of `dim` features, in full precision or packed.
#[verifier::opaque]
pub open spec fn table_goes(e: EmbeddingTerm, v: i32, dim: i32) -> bool {
    match e {
        EmbeddingTerm::Dense { weight } => weight.shape == seq![v, dim],
        EmbeddingTerm::Packed { weight, scales, biases, group_size, bits } => packed_rows(
            weight,
            scales,
            biases,
            v,
            dim,
            group_size,
            bits,
        ),
    }
}

/// A linear layer from `n` features to `m` takes rows of `n` features to as many rows of `m`.
pub proof fn a_linear_layer_keeps_rows(l: LinearTerm, x: Tn, b: i32, len: i32, n: i32, m: i32)
    requires
        goes(l, n, m),
        has_shape(x, seq![b, len, n]),
    ensures
        has_shape(t_linear(l, x), seq![b, len, m]),
{
    reveal(goes);
    assert(broadcast_shape(seq![b, len, m], seq![m]) =~= seq![b, len, m]);
    assert(broadcastable(seq![b, len, m], seq![m]));
    match l {
        LinearTerm::Dense { weight, bias } => {
            let wt = t_transpose(Ok(weight), seq![1i32, 0i32]);
            assert(has_shape(t_matmul(x, wt), seq![b, len, m])) by {
                reveal(raw_matmul);
                reveal(raw_transpose);
                let axes = seq![1i32, 0i32];
                assert(is_permutation(axes, 2));
                assert(permuted(weight.shape, axes) =~= seq![n, m]);
                let e = Seq::<i32>::empty();
                assert(wt->Ok_0.shape.take(0) =~= e);
                assert(x->Ok_0.shape.take(1) =~= seq![b]);
                assert(broadcast_shape(seq![b], e) =~= seq![b]);
                assert(seq![b].push(len).push(m) =~= seq![b, len, m]);
            }
        },
        LinearTerm::Packed { weight, scales, biases, bias, group_size, bits } => {
            let y = t_quantized_matmul(x, weight, scales, biases, group_size, bits);
            assert(has_shape(y, seq![b, len, m])) by {
                reveal(raw_quantized_matmul);
                assert(seq![b, len, n].update(2, m) =~= seq![b, len, m]);
            }
        },
    }
    reveal(raw_binary);
}

/// A table whose rows serve as the head takes rows of `dim` features to the logits of all tokens.
pub proof fn a_table_serves_as_head(e: EmbeddingTerm, x: Tn, b: i32, len: i32, v: i32, dim: i32)
    requires
        table_goes(e, v, dim),
        has_shape(x, seq![b, len, dim]),
    ensures
        has_shape(t_as_linear(e, x), seq![b, len, v]),
{
    reveal(goes);
    reveal(table_goes);
    let l = match e {
        EmbeddingTerm::Dense { weight } => LinearTerm::Dense { weight, bias: None },
        EmbeddingTerm::Packed { weight, scales, biases, group_size, bits } => LinearTerm::Packed {
            weight,
            scales,
            biases,
            bias: None,
            group_size,
            bits,
        },
    };
    a_linear_layer_keeps_rows(l, x, b, len, dim, v);
}

/// A fresh feed-forward layer gives back what it takes: `len` positions of `dim` features.
pub proof fn feed_forward_keeps_rows(
    mlp: Mlp,
    x: Tn,
    b: i32,
    len: i32,
    dim: i32,
    hidden: i32,
    bias: bool,
)
    requires
        mlp.is_fresh(dim, hidden, bias),
        has_shape(x, seq![b, len, dim]),
    ensures
        has_shape(mlp.apply(x), seq![b, len, dim]),
{
    assert(goes(mlp.gate_proj@, dim, hidden) && goes(mlp.up_proj@, dim, hidden) && goes(
        mlp.down_proj@,
        hidden,
        dim,
    )) by {
        reveal(goes);
    }
    a_linear_layer_keeps_rows(mlp.gate_proj@, x, b, len, dim, hidden);
    a_linear_layer_keeps_rows(mlp.up_proj@, x, b, len, dim, hidden);
    let gate = t_linear(mlp.gate_proj@, x);
    let up = t_linear(mlp.up_proj@, x);
    let inner = t_multiply(t_silu(gate), up);
    assert(has_shape(inner, seq![b, len, hidden])) by {
        reveal(raw_unary);
        reveal(raw_binary);
        assert(broadcast_shape(seq![b, len, hidden], seq![b, len, hidden]) =~= seq![
            b,
            len,
            hidden,
        ]);
    }
    a_linear_layer_keeps_rows(mlp.down_proj@, inner, b, len, hidden, dim);
}

pub(crate) proof fn lemma_count_three(b: i32, l: i32, n: i32)
    requires
        b > 0,
        l > 0,
        n > 0,
        b * l <= i32::MAX,
    ensures
        count(seq![b, l, n]) == Some((b * l) * n),
        0 < (b * l) * n <= 0x7fff_ffff * 0x7fff_ffff,
{
    let s = seq![b, l, n];
    assert(s.drop_last() =~= seq![b, l]);
    assert(seq![b, l].drop_last() =~= seq![b]);
    assert(seq![b].drop_last() =~= Seq::<i32>::empty());
    reveal_with_fuel(count, 4);
    assert(1 * b == b);
    assert(0 < (b * l) * n <= 0x7fff_ffff * 0x7fff_ffff) by (nonlinear_arith)
        requires
            0 < b,
            0 < l,
            b * l <= 0x7fff_ffff,
            0 < n <= 0x7fff_ffff,
    ;
}

pub(crate) proof fn lemma_count_four(b: i32, l: i32, n: i32, d: i32)
    requires
        b > 0,
        l > 0,
        n > 0,
        d > 0,
        b * l <= i32::MAX,
        n * d <= i32::MAX,
    ensures
        count(seq![b, l, n, d]) == Some((b * l) * (n * d)),
        0 < (b * l) * (n * d),
{
    lemma_count_three(b, l, n);
    let s = seq![b, l, n, d];
    assert(s.drop_last() =~= seq![b, l, n]);
    assert(((b * l) * n) * d == (b * l) * (n * d)) by (nonlinear_arith);
    assert(0 < (b * l) * (n * d) <= 0x7fff_ffff * 0x7fff_ffff) by (nonlinear_arith)
        requires
            0 < b,
            0 < l,
            0 < n,
            0 < d,
            b * l <= 0x7fff_ffff,
            n * d <= 0x7fff_ffff,
    ;
}

/// Splitting rows of `n * d` features into heads gives `n` heads of `d` features.
pub proof fn splitting_gives_heads(x: Tn, b: i32, l: i32, n: i32, d: i32)
    requires
        b > 0,
        l > 0,
        n > 0,
        d > 0,
        b * l <= i32::MAX,
        n * d <= i32::MAX,
        has_shape(x, seq![b, l, (n * d) as i32]),
    ensures
        has_shape(split_heads(x, b, l, n), seq![b, n, l, d]),
{
    reveal(raw_reshape);
    reveal(raw_transpose);
    let target = seq![b, l, n, -1i32];
    assert(n * d > 0) by (nonlinear_arith)
        requires
            n > 0,
            d > 0,
    ;
    lemma_count_three(b, l, (n * d) as i32);
    assert(is_unknown_at(target, 3));
    let k = choose|k: int| is_unknown_at(target, k);
    assert(k == 3) by {
        if k != 3 {
            assert(target[3] != -1);
        }
    }
    assert(target.update(3, 1) =~= seq![b, l, n, 1i32]);
    assert(n * 1 == n);
    lemma_count_four(b, l, n, 1);
    let total = (b * l) * (n * d);
    let c = (b * l) * n;
    lemma_count_three(b, l, n);
    assert(total == d * c) by (nonlinear_arith)
        requires
            total == (b * l) * (n * d),
            c == (b * l) * n,
    ;
    vstd::arithmetic::div_mod::lemma_div_multiples_vanish(d as int, c);
    vstd::arithmetic::div_mod::lemma_mod_multiples_basic(d as int, c);
    assert(c * d == d * c) by (nonlinear_arith);
    assert(target.update(3, d) =~= seq![b, l, n, d]);
    let axes = seq![0i32, 2i32, 1i32, 3i32];
    assert(is_permutation(axes, 4));
    assert(permuted(seq![b, l, n, d], axes) =~= seq![b, n, l, d]);
}

/// Joining `n` heads of `d` features gives rows of `n * d` features.
pub proof fn joining_gives_rows(x: Tn, b: i32, l: i32, n: i32, d: i32)
    requires
        b > 0,
        l > 0,
        n > 0,
        d > 0,
        b * l <= i32::MAX,
        n * d <= i32::MAX,
        has_shape(x, seq![b, n, l, d]),
    ensures
        has_shape(join_heads(x, b, l), seq![b, l, (n * d) as i32]),
{
    reveal(raw_reshape);
    reveal(raw_transpose);
    let axes = seq![0i32, 2i32, 1i32, 3i32];
    assert(is_permutation(axes, 4));
    assert(permuted(seq![b, n, l, d], axes) =~= seq![b, l, n, d]);
    lemma_count_four(b, l, n, d);
    let target = seq![b, l, -1i32];
    assert(is_unknown_at(target, 2));
    let k = choose|k: int| is_unknown_at(target, k);
    assert(k == 2) by {
        if k != 2 {
            assert(target[2] != -1);
        }
    }
    assert(target.update(2, 1) =~= seq![b, l, 1i32]);
    lemma_count_three(b, l, 1);
    let c = (b * l) * 1;
    assert(c == b * l);
    let m = n * d;
    assert((b * l) * m == m * c && c * m == m * c) by (nonlinear_arith)
        requires
            c == b * l,
    ;
    assert(c > 0) by (nonlinear_arith)
        requires
            b > 0,
            l > 0,
            c == b * l,
    ;
    vstd::arithmetic::div_mod::lemma_div_multiples_vanish(m, c);
    vstd::arithmetic::div_mod::lemma_mod_multiples_basic(m, c);
    assert(target.update(2, m as i32) =~= seq![b, l, m as i32]);
}

/// Whether the rotary embedding is of a sort that takes heads: its wavelengths, where it has any
/// of its own, are a list.
pub open spec fn turns_heads(rope: RopeVariant) -> bool {
    match rope {
        RopeVariant::Default(_) => true,
        RopeVariant::Llama3(r) => r.freqs@.shape.len() == 1,
        RopeVariant::Yarn(r) => r.freqs@.shape.len() == 1,
    }
}

/// Multiplying the features that turn keeps the shape and the element type.
pub proof fn prescaling_keeps_shape(x: Term, dims: i32, mscale: Scalar)
    requires
        x.shape.len() > 0,
    ensures
        prescaled(Ok(x), dims, mscale) matches Ok(y) && y.shape == x.shape,
{
    reveal(raw_cast);
    reveal(raw_binary);
    let e = Seq::<i32>::empty();
    let k = x.shape.len() - 1;
    let m = t_cast(t_scalar(mscale), x.dtype);
    assert(has_shape(m, e));
    assert(broadcast_shape(x.shape, e) =~= x.shape);
    if 0 <= dims < x.shape.last() {
        reveal(raw_slice);
        reveal(raw_concatenate);
        let part = t_slice(Ok(x), -1i32, 0, dims);
        let rest = t_slice(Ok(x), -1i32, dims, OPEN);
        let n = (x.shape.last() - dims) as i32;
        assert(has_shape(part, x.shape.update(k, dims)));
        assert(has_shape(rest, x.shape.update(k, n)));
        let turning = t_multiply(part, m);
        assert(broadcast_shape(x.shape.update(k, dims), e) =~= x.shape.update(k, dims));
        assert(has_shape(turning, x.shape.update(k, dims)));
        assert(x.shape.update(k, dims).update(k, 0) =~= x.shape.update(k, n).update(k, 0));
        assert(x.shape.update(k, dims).update(k, x.shape.last()) =~= x.shape);
    }
}

/// Turning heads keeps their shape.
pub proof fn turning_keeps_shape(rope: RopeVariant, x: Term, offset: i32)
    requires
        turns_heads(rope),
        x.shape.len() >= 3,
    ensures
        rope.apply(Ok(x), offset) matches Ok(y) && y.shape == x.shape,
{
    reveal(raw_rope);
    if let RopeVariant::Yarn(r) = rope {
        prescaling_keeps_shape(x, r.dimensions, r.mscale);
    }
}

/// Whether a cache, given `l` positions of `n` heads of `d` features, hands back `all` of them.
pub open spec fn hands_back<C: KeyValueCache>(
    s: C::State,
    b: i32,
    n: i32,
    l: i32,
    d: i32,
    all: i32,
) -> bool {
    forall|k: Term, v: Term|
        k.shape == seq![b, n, l, d] && v.shape == seq![b, n, l, d] ==> (
        (#[trigger] C::updated(s, k, v)).1 matches Ok((x, y)) && x.shape == seq![b, n, all, d]
            && y.shape == seq![b, n, all, d])
}

/// Whether attention has the widths of `dim` features and heads of `d` features.
pub open spec fn attention_goes(a: Attention, dim: i32, d: i32) -> bool {
    &&& a.n_heads > 0
    &&& a.n_kv_heads > 0
    &&& a.n_heads % a.n_kv_heads == 0
    &&& a.n_heads * d <= i32::MAX
    &&& a.n_kv_heads * d <= i32::MAX
    &&& goes(a.q_proj@, dim, (a.n_heads * d) as i32)
    &&& goes(a.k_proj@, dim, (a.n_kv_heads * d) as i32)
    &&& goes(a.v_proj@, dim, (a.n_kv_heads * d) as i32)
    &&& goes(a.o_proj@, (a.n_heads * d) as i32, dim)
    &&& turns_heads(a.rope)
}

/// Attention gives back what it takes, `l` positions of `dim` features, whatever the number of
/// positions in its cache. What it adds to the cache are `l` positions of every key head.
pub proof fn attention_keeps_rows<C: KeyValueCache>(
    a: Attention,
    x: Term,
    mask: Option<Term>,
    cache: Option<C::State>,
    b: i32,
    l: i32,
    d: i32,
    dim: i32,
    all: i32,
)
    requires
        b > 0,
        l > 0,
        d > 0,
        b * l <= i32::MAX,
        attention_goes(a, dim, d),
        mask matches Some(m) ==> m.shape == seq![l, all],
        x.shape == seq![b, l, dim],
        match cache {
            Some(s) => hands_back::<C>(s, b, a.n_kv_heads, l, d, all),
            None => all == l,
        },
    ensures
        has_shape(DecoderLayer::<C>::apply(&a, x, mask, cache, None).0, seq![b, l, dim]),
        cache matches Some(s) ==> exists|k: Term, v: Term|
            k.shape == seq![b, a.n_kv_heads, l, d] && v.shape == seq![b, a.n_kv_heads, l, d]
                && DecoderLayer::<C>::apply(&a, x, mask, cache, None).1 == Some(
                (#[trigger] C::updated(s, k, v)).0,
            ),
{
    let n = a.n_heads;
    let m = a.n_kv_heads;
    a_linear_layer_keeps_rows(a.q_proj@, Ok(x), b, l, dim, (n * d) as i32);
    a_linear_layer_keeps_rows(a.k_proj@, Ok(x), b, l, dim, (m * d) as i32);
    a_linear_layer_keeps_rows(a.v_proj@, Ok(x), b, l, dim, (m * d) as i32);
    splitting_gives_heads(t_linear(a.q_proj@, Ok(x)), b, l, n, d);
    splitting_gives_heads(t_linear(a.k_proj@, Ok(x)), b, l, m, d);
    splitting_gives_heads(t_linear(a.v_proj@, Ok(x)), b, l, m, d);
    let q = a.headed(a.q_proj, x, n);
    let k = a.headed(a.k_proj, x, m);
    let v = a.headed(a.v_proj, x, m);
    let q2 = rotated::<C>(a.rope, q, cache, None);
    let k2 = rotated::<C>(a.rope, k, cache, None);
    assert(has_shape(q2, seq![b, n, l, d]) && has_shape(k2, seq![b, m, l, d])) by {
        let offset = match cache {
            Some(s) => C::offset_of(s),
            None => 0,
        };
        turning_keeps_shape(a.rope, q->Ok_0, offset);
        turning_keeps_shape(a.rope, k->Ok_0, offset);
    }
    if cache is Some {
        let u = C::updated(cache->Some_0, k2->Ok_0, v->Ok_0);
        assert(u.1 is Ok);
    }
    let (attn, after) = attended::<C>(
        a.rope,
        q,
        k,
        v,
        a.scale,
        array_mask(mask),
        None,
        cache,
        None,
    );
    assert(has_shape(attn, seq![b, n, l, d])) by {
        reveal(raw_attention);
        let scores = seq![b, n, l, all];
        assert(broadcast_shape(seq![l, all], scores) =~= scores);
    }
    joining_gives_rows(attn, b, l, n, d);
    a_linear_layer_keeps_rows(
        a.o_proj@,
        join_heads(attn, b, l),
        b,
        l,
        (n * d) as i32,
        dim,
    );
}

} // verus!
