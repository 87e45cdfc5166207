//! What a whole hybrid model gives, and what it leaves in its caches.

use crate::array::{Dtype, Term, Tn};
use crate::cache::{ConcatKeyValueCache, KeyValueCache, KvState};
use crate::fast::{launch_fits, raw_attention, raw_rms_norm, MaskTerm};
use crate::laws::cache::{buffers_stay_in_bounds, update_reads_back};
use crate::laws::lookup::a_table_gives_a_row_a_token;
use crate::laws::model::{holds_positions, top_fits};
use crate::laws::sampling::sampling_gives_a_token_a_row;
use crate::laws::shapes::{
    a_linear_layer_keeps_rows, a_table_serves_as_head, goes, has_shape, is_single,
    joining_gives_rows, lemma_count_four, lemma_count_three, splitting_gives_heads, table_goes,
    the_delta_rule_keeps_shapes, turning_keeps_shape, turns_heads,
};
use crate::models::gated_delta::{
    decay, first_state, kernel_scanned, scan_inputs, scan_launch, scan_outputs,
};
use crate::models::generate::{next_ids, StateTerm};
use crate::models::hybrid::{
    chunk_end, chunk_read, chunks_read, empty_layer, fed, prompt_outcome, run_hybrid, splits,
    stepped, Advanced, Course, FeedForward, HybridLayer, HybridLm, Progress, Standing,
};
use crate::models::qwen3_5::{
    heads_first, normalized_times, Attention, GatedDeltaNet, LayerState,
};
use crate::models::sampling::recent_tokens;
use crate::nn::{t_embed, t_linear, RmsNorm};
use crate::ops::create::t_int;
use crate::ops::elementwise::{
    raw_binary, raw_cast, raw_unary, t_add, t_cast, t_exp, t_multiply, t_sigmoid, t_silu,
    t_softplus,
};
use crate::ops::layout::{raw_expand_dims, raw_reshape, raw_transpose, t_reshape, t_transpose};
use crate::ops::product::raw_conv1d;
use crate::ops::select::{raw_concatenate, raw_select, raw_slice, t_select, t_slice, OPEN};
use crate::scalar::Scalar;
use crate::shape::{broadcast_shape, is_permutation, is_unknown_at, no_negative, permuted};
use crate::utils::attention::{attended, join_heads, rotated};
use vstd::prelude::*;

verus! {

/// Whether a linear-attention layer has `dim` features outside, and all widths inside agree.
pub open spec fn net_goes(a: GatedDeltaNet, dim: i32) -> bool {
    &&& a.num_k_heads > 0
    &&& a.num_v_heads >= a.num_k_heads
    &&& a.num_v_heads % a.num_k_heads == 0
    &&& a.head_k_dim > 0
    &&& a.head_v_dim > 0
    &&& a.conv_kernel_size >= 1
    &&& a.key_dim == a.num_k_heads * a.head_k_dim
    &&& a.value_dim == a.num_v_heads * a.head_v_dim
    &&& a.conv_dim == a.key_dim + a.key_dim + a.value_dim
    &&& goes(a.in_proj_qkv@, dim, a.conv_dim)
    &&& goes(a.in_proj_z@, dim, a.value_dim)
    &&& goes(a.in_proj_b@, dim, a.num_v_heads)
    &&& goes(a.in_proj_a@, dim, a.num_v_heads)
    &&& a.conv1d.weight@.shape == seq![a.conv_dim, a.conv_kernel_size, 1i32]
    &&& a.conv1d.groups == a.conv_dim
    &&& a.a_log@.shape == seq![a.num_v_heads]
    &&& a.dt_bias@.shape == seq![a.num_v_heads]
    &&& a.norm.weight@.shape == seq![a.head_v_dim]
    &&& goes(a.out_proj@, a.value_dim, dim)
}

/// Whether the inputs kept for the convolution and the state of the recurrence are those of such a
/// layer for `b` rows.
pub open spec fn net_keeps(
    a: GatedDeltaNet,
    conv: Option<Term>,
    state: Option<Term>,
    b: i32,
) -> bool {
    &&& conv matches Some(c) ==> c.shape == seq![b, (a.conv_kernel_size - 1) as i32, a.conv_dim]
    &&& state matches Some(s) ==> is_single(
        Ok(s),
        seq![b, a.num_v_heads, a.head_v_dim, a.head_k_dim],
    )
}

/// Rows of `n * d` features under a shape with `n` heads of `d` features.
pub(crate) proof fn lemma_grouped(x: Tn, b: i32, l: i32, n: i32, d: i32)
    requires
        b > 0,
        l > 0,
        n > 0,
        d > 0,
        b * l <= i32::MAX,
        n * d <= i32::MAX,
        has_shape(x, seq![b, l, (n * d) as i32]),
    ensures
        has_shape(t_reshape(x, seq![b, l, n, d]), seq![b, l, n, d]),
{
    reveal(raw_reshape);
    assert(n * d > 0) by (nonlinear_arith)
        requires
            n > 0,
            d > 0,
    ;
    lemma_count_three(b, l, (n * d) as i32);
    lemma_count_four(b, l, n, d);
    let s = seq![b, l, n, d];
    assert forall|k: int| !is_unknown_at(s, k) by {
        if is_unknown_at(s, k) {
            assert(s[k] == -1);
        }
    }
}

/// `n` heads of `d` features put back into rows.
pub(crate) proof fn lemma_ungrouped(x: Tn, b: i32, l: i32, n: i32, d: i32)
    requires
        b > 0,
        l > 0,
        n > 0,
        d > 0,
        b * l <= i32::MAX,
        n * d <= i32::MAX,
        has_shape(x, seq![b, l, n, d]),
    ensures
        has_shape(t_reshape(x, seq![b, l, -1i32]), seq![b, l, (n * d) as i32]),
{
    reveal(raw_reshape);
    lemma_count_four(b, l, n, d);
    let target = seq![b, l, -1i32];
    assert(is_unknown_at(target, 2));
    let k = choose|k: int| is_unknown_at(target, k);
    assert(k == 2) by {
        if k != 2 {
            assert(target[2] != -1);
        }
    }
    assert(target.update(2, 1) =~= seq![b, l, 1i32]);
    lemma_count_three(b, l, 1);
    let c = (b * l) * 1;
    let m = n * d;
    assert(c == b * l);
    assert((b * l) * m == m * c && c * m == m * c) by (nonlinear_arith)
        requires
            c == b * l,
    ;
    assert(c > 0) by (nonlinear_arith)
        requires
            b > 0,
            l > 0,
            c == b * l,
    ;
    vstd::arithmetic::div_mod::lemma_div_multiples_vanish(m, c);
    vstd::arithmetic::div_mod::lemma_mod_multiples_basic(m, c);
    assert(target.update(2, m as i32) =~= seq![b, l, m as i32]);
}

/// A part of the features of rows.
pub(crate) proof fn lemma_features(x: Tn, b: i32, l: i32, n: i32, start: i32, stop: i32, end: i32)
    requires
        has_shape(x, seq![b, l, n]),
        0 <= start <= end <= n,
        stop == end || (stop == OPEN && end == n),
    ensures
        has_shape(t_slice(x, -1i32, start, stop), seq![b, l, (end - start) as i32]),
{
    reveal(raw_slice);
    assert(seq![b, l, n].update(2, (end - start) as i32) =~= seq![b, l, (end - start) as i32]);
}

/// Operations on single elements and pairs of one shape keep it, and so do those with a scalar.
proof fn lemma_pointwise(x: Tn, y: Tn, s: Seq<i32>)
    requires
        has_shape(x, s),
        has_shape(y, s),
    ensures
        has_shape(t_silu(x), s),
        has_shape(t_sigmoid(x), s),
        has_shape(t_add(x, y), s),
        has_shape(t_multiply(x, y), s),
{
    reveal(raw_unary);
    reveal(raw_binary);
    assert(broadcast_shape(s, s) =~= s);
}

proof fn lemma_normalized(x: Tn, scale: Scalar, b: i32, l: i32, n: i32, d: i32)
    requires
        has_shape(x, seq![b, l, n, d]),
    ensures
        has_shape(normalized_times(x, scale), seq![b, l, n, d]),
{
    reveal(raw_rms_norm);
    reveal(raw_cast);
    reveal(raw_binary);
    let s = seq![b, l, n, d];
    assert(broadcast_shape(s, Seq::<i32>::empty()) =~= s);
}

/// Decays have the shape of the controls.
proof fn lemma_decay(a_log: Term, a: Tn, dt_bias: Term, b: i32, l: i32, n: i32)
    requires
        a_log.shape == seq![n],
        dt_bias.shape == seq![n],
        has_shape(a, seq![b, l, n]),
    ensures
        has_shape(decay(Ok(a_log), a, Ok(dt_bias)), seq![b, l, n]),
{
    let s = seq![b, l, n];
    let r = seq![n];
    assert(broadcast_shape(s, r) =~= s);
    assert(broadcast_shape(r, s) =~= s);
    let inner = t_softplus(t_add(a, Ok(dt_bias)));
    assert(has_shape(inner, s)) by {
        reveal(raw_unary);
        reveal(raw_binary);
    }
    let outer = t_exp(t_cast(Ok(a_log), Dtype::Float32));
    assert(has_shape(outer, r)) by {
        reveal(raw_unary);
        reveal(raw_cast);
    }
    reveal(raw_unary);
    reveal(raw_binary);
}

/// The kernel gives what the plain operations give: outputs like the values, and a state.
pub(crate) proof fn lemma_kernel(
    q: Term,
    k: Term,
    v: Term,
    g: Term,
    beta: Term,
    state: Option<Term>,
    b: i32,
    t: i32,
    hk: i32,
    hv: i32,
    dk: i32,
    dv: i32,
)
    requires
        b >= 0,
        t >= 0,
        hv >= 0,
        dk >= 0,
        dv >= 0,
        b * hv <= i32::MAX,
        q.shape == seq![b, t, hk, dk],
        v.shape == seq![b, t, hv, dv],
        state matches Some(s) ==> is_single(Ok(s), seq![b, hv, dv, dk]),
    ensures
        kernel_scanned(q, k, v, g, beta, state) matches Ok((y, s)) && y.shape == seq![b, t, hv, dv]
            && is_single(Ok(s), seq![b, hv, dv, dk]),
{
    let full = seq![b, hv, dv, dk];
    assert(no_negative(full));
    let s = first_state(state, b, hv, dv, dk);
    assert(is_single(s, full));
    assert(b * hv >= 0) by (nonlinear_arith)
        requires
            b >= 0,
            hv >= 0,
    ;
    let launch = scan_launch(q, v, s->Ok_0);
    let inputs = seq![q, k, v, g, beta, s->Ok_0, t_int(q.shape[1])->Ok_0];
    assert(launch_fits(launch, inputs)) by {
        assert(scan_inputs().len() == 7 && scan_outputs().len() == 2);
        assert(no_negative(seq![b, t, hv, dv]));
        assert(launch.output_shapes[0] == seq![b, t, hv, dv]);
        assert(launch.output_shapes[1] == full);
    }
}

pub(crate) proof fn lemma_net_input(
    a: GatedDeltaNet,
    x: Term,
    conv: Option<Term>,
    b: i32,
    l: i32,
    dim: i32,
)
    requires
        b > 0,
        l > 0,
        net_goes(a, dim),
        x.shape == seq![b, l, dim],
        conv matches Some(c) ==> c.shape == seq![
            b,
            (a.conv_kernel_size - 1) as i32,
            a.conv_dim,
        ],
        l + a.conv_kernel_size <= i32::MAX,
    ensures
        has_shape(
            a.conv_input(x, conv),
            seq![b, (a.conv_kernel_size - 1 + l) as i32, a.conv_dim],
        ),
        has_shape(
            a.conv_kept(a.conv_input(x, conv)->Ok_0),
            seq![b, (a.conv_kernel_size - 1) as i32, a.conv_dim],
        ),
        has_shape(
            t_silu(a.conv1d.apply(a.conv_input(x, conv))),
            seq![b, l, a.conv_dim],
        ),
{
    let n = (a.conv_kernel_size - 1) as i32;
    let c = a.conv_dim;
    let total = (n + l) as i32;
    a_linear_layer_keeps_rows(a.in_proj_qkv@, Ok(x), b, l, dim, c);
    assert(a.key_dim >= 0 && a.value_dim > 0) by (nonlinear_arith)
        requires
            a.num_k_heads > 0,
            a.head_k_dim > 0,
            a.num_v_heads > 0,
            a.head_v_dim > 0,
            a.key_dim == a.num_k_heads * a.head_k_dim,
            a.value_dim == a.num_v_heads * a.head_v_dim,
    ;
    assert(has_shape(a.earlier(x, conv), seq![b, n, c])) by {
        reveal(raw_cast);
        assert(no_negative(seq![b, n, c]));
    }
    let input = a.conv_input(x, conv);
    assert(has_shape(input, seq![b, total, c])) by {
        reveal(raw_concatenate);
        assert(seq![b, n, c].update(1, 0) =~= seq![b, l, c].update(1, 0));
        assert(seq![b, n, c].update(1, total) =~= seq![b, total, c]);
    }
    assert(has_shape(a.conv_kept(input->Ok_0), seq![b, n, c])) by {
        reveal(raw_slice);
        assert(seq![b, total, c].update(1, n) =~= seq![b, n, c]);
    }
    assert(has_shape(a.conv1d.apply(input), seq![b, l, c])) by {
        reveal(raw_conv1d);
        assert(1 * c == c);
    }
    lemma_pointwise(a.conv1d.apply(input), a.conv1d.apply(input), seq![b, l, c]);
}

/// Linear attention gives back what it takes, `l` positions of `dim` features, and keeps the inputs
/// and the state that the next step needs, in the shapes in which it takes them.
pub proof fn linear_attention_keeps_rows(
    a: GatedDeltaNet,
    x: Term,
    conv: Option<Term>,
    state: Option<Term>,
    b: i32,
    l: i32,
    dim: i32,
)
    requires
        b > 0,
        l > 0,
        b * l <= i32::MAX,
        b * a.num_v_heads <= i32::MAX,
        l + a.conv_kernel_size <= i32::MAX,
        net_goes(a, dim),
        net_keeps(a, conv, state, b),
        x.shape == seq![b, l, dim],
    ensures
        ({
            let (y, c, s) = a.apply(x, conv, state);
            &&& has_shape(y, seq![b, l, dim])
            &&& c is Some && s is Some
            &&& net_keeps(a, c, s, b)
        }),
{
    reveal(GatedDeltaNet::apply);
    let (nk, nv) = (a.num_k_heads, a.num_v_heads);
    let (hk, hv) = (a.head_k_dim, a.head_v_dim);
    lemma_net_input(a, x, conv, b, l, dim);
    let input = a.conv_input(x, conv)->Ok_0;
    let mixed = t_silu(a.conv1d.apply(Ok(input)));
    a_linear_layer_keeps_rows(a.in_proj_qkv@, Ok(x), b, l, dim, a.conv_dim);
    a_linear_layer_keeps_rows(a.in_proj_z@, Ok(x), b, l, dim, a.value_dim);
    a_linear_layer_keeps_rows(a.in_proj_b@, Ok(x), b, l, dim, nv);
    a_linear_layer_keeps_rows(a.in_proj_a@, Ok(x), b, l, dim, nv);
    lemma_grouped(t_linear(a.in_proj_z@, Ok(x)), b, l, nv, hv);
    assert(a.key_dim > 0 && a.value_dim > 0) by (nonlinear_arith)
        requires
            nk > 0,
            hk > 0,
            nv > 0,
            hv > 0,
            a.key_dim == nk * hk,
            a.value_dim == nv * hv,
    ;
    let two = (2 * a.key_dim) as i32;
    lemma_features(mixed, b, l, a.conv_dim, 0, a.key_dim, a.key_dim);
    lemma_features(mixed, b, l, a.conv_dim, a.key_dim, two, two);
    lemma_features(mixed, b, l, a.conv_dim, two, OPEN, a.conv_dim);
    lemma_grouped(t_slice(mixed, -1i32, 0, a.key_dim), b, l, nk, hk);
    lemma_grouped(t_slice(mixed, -1i32, a.key_dim, two), b, l, nk, hk);
    lemma_grouped(t_slice(mixed, -1i32, two, OPEN), b, l, nv, hv);
    let s = crate::models::qwen3_5::power_minus_half(hk);
    lemma_normalized(
        a.part(x, input, 0, a.key_dim, nk, hk),
        Scalar::Product(std::sync::Arc::new(s), std::sync::Arc::new(s)),
        b,
        l,
        nk,
        hk,
    );
    lemma_normalized(a.part(x, input, a.key_dim, two, nk, hk), s, b, l, nk, hk);
    let q = a.queries(x, input);
    let k = a.keys(x, input);
    let v = a.values(x, input);
    assert(has_shape(q, seq![b, l, nk, hk]));
    assert(has_shape(k, seq![b, l, nk, hk]));
    assert(has_shape(v, seq![b, l, nv, hv]));
    let bs = t_linear(a.in_proj_b@, Ok(x));
    lemma_pointwise(bs, bs, seq![b, l, nv]);
    lemma_decay(a.a_log@, t_linear(a.in_proj_a@, Ok(x)), a.dt_bias@, b, l, nv);
    let beta = t_sigmoid(bs)->Ok_0;
    let g = decay(Ok(a.a_log@), t_linear(a.in_proj_a@, Ok(x)), Ok(a.dt_bias@))->Ok_0;
    if a.by_ops {
        the_delta_rule_keeps_shapes(
            q->Ok_0,
            k->Ok_0,
            v->Ok_0,
            g,
            beta,
            state,
            b,
            l,
            nk,
            nv,
            hk,
            hv,
        );
    } else {
        lemma_kernel(
            q->Ok_0,
            k->Ok_0,
            v->Ok_0,
            g,
            beta,
            state,
            b,
            l,
            nk,
            nv,
            hk,
            hv,
        );
    }
    let (out, next) = a.recurred(x, input, state)->Ok_0;
    let full = seq![b, l, nv, hv];
    assert(out.shape == full);
    let normed = a.norm.apply(Ok(out), Some(a.gate(x)));
    assert(has_shape(normed, full)) by {
        reveal(raw_rms_norm);
        reveal(raw_unary);
        reveal(raw_binary);
        assert(broadcast_shape(full, full) =~= full);
    }
    lemma_ungrouped(normed, b, l, nv, hv);
    a_linear_layer_keeps_rows(
        a.out_proj@,
        t_reshape(normed, seq![b, l, -1i32]),
        b,
        l,
        a.value_dim,
        dim,
    );
}

/// Whether full attention has `dim` features outside, and all widths inside agree.
pub open spec fn gated_attention_goes(a: Attention, dim: i32) -> bool {
    &&& a.n_heads > 0
    &&& a.n_kv_heads > 0
    &&& a.n_heads % a.n_kv_heads == 0
    &&& a.head_dim > 0
    &&& a.n_heads * (a.head_dim * 2) <= i32::MAX
    &&& a.n_kv_heads * a.head_dim <= i32::MAX
    &&& goes(a.q_proj@, dim, (a.n_heads * (a.head_dim * 2)) as i32)
    &&& goes(a.k_proj@, dim, (a.n_kv_heads * a.head_dim) as i32)
    &&& goes(a.v_proj@, dim, (a.n_kv_heads * a.head_dim) as i32)
    &&& goes(a.o_proj@, (a.n_heads * a.head_dim) as i32, dim)
    &&& a.q_norm.weight@.shape == seq![a.head_dim]
    &&& a.k_norm.weight@.shape == seq![a.head_dim]
    &&& turns_heads(a.rope)
}

/// The normalization of heads, which then come before the positions.
pub(crate) proof fn lemma_headed(n: RmsNorm, x: Tn, b: i32, l: i32, h: i32, d: i32)
    requires
        has_shape(x, seq![b, l, h, d]),
        n.weight@.shape == seq![d],
    ensures
        has_shape(t_transpose(n.apply(x), heads_first()), seq![b, h, l, d]),
{
    reveal(raw_rms_norm);
    reveal(raw_transpose);
    assert(is_permutation(heads_first(), 4));
    assert(permuted(seq![b, l, h, d], heads_first()) =~= seq![b, h, l, d]);
}

pub(crate) proof fn lemma_half(x: Tn, b: i32, l: i32, h: i32, d: i32, start: i32, stop: i32)
    requires
        d > 0,
        2 * d <= i32::MAX,
        has_shape(x, seq![b, l, h, (d * 2) as i32]),
        (start == 0 && stop == d) || (start == d && stop == OPEN),
    ensures
        has_shape(t_slice(x, -1i32, start, stop), seq![b, l, h, d]),
{
    reveal(raw_slice);
    assert(seq![b, l, h, (d * 2) as i32].update(3, d) =~= seq![b, l, h, d]);
}

/// Full attention gives back what it takes, `l` positions of `dim` features, and leaves `l` more
/// positions in its cache.
pub proof fn gated_attention_keeps_rows(
    a: Attention,
    x: Term,
    causal: bool,
    s: KvState,
    b: i32,
    l: i32,
    dim: i32,
    held: i32,
    top: i32,
)
    requires
        b > 0,
        l > 0,
        b * l <= i32::MAX,
        held + l <= top,
        top_fits(top),
        gated_attention_goes(a, dim),
        holds_positions(s, b, a.n_kv_heads, a.head_dim, held, top),
        x.shape == seq![b, l, dim],
    ensures
        ({
            let (y, after) = a.apply(x, causal, Some(s));
            &&& has_shape(y, seq![b, l, dim])
            &&& after matches Some(z) && holds_positions(
                z,
                b,
                a.n_kv_heads,
                a.head_dim,
                (held + l) as i32,
                top,
            )
        }),
{
    reveal(Attention::apply);
    let (n, m, d) = (a.n_heads, a.n_kv_heads, a.head_dim);
    let all = (held + l) as i32;
    assert(d * 2 <= i32::MAX && n * d <= i32::MAX) by (nonlinear_arith)
        requires
            n > 0,
            d > 0,
            n * (d * 2) <= i32::MAX,
    ;
    a_linear_layer_keeps_rows(a.q_proj@, Ok(x), b, l, dim, (n * (d * 2)) as i32);
    a_linear_layer_keeps_rows(a.k_proj@, Ok(x), b, l, dim, (m * d) as i32);
    a_linear_layer_keeps_rows(a.v_proj@, Ok(x), b, l, dim, (m * d) as i32);
    lemma_grouped(t_linear(a.q_proj@, Ok(x)), b, l, n, (d * 2) as i32);
    let qg = a.queries_and_gates(x);
    assert(has_shape(qg, seq![b, l, n, (d * 2) as i32]));
    lemma_half(qg, b, l, n, d, 0, d);
    lemma_half(qg, b, l, n, d, d, OPEN);
    lemma_headed(a.q_norm, t_slice(qg, -1i32, 0, d), b, l, n, d);
    lemma_ungrouped(t_slice(qg, -1i32, d, OPEN), b, l, n, d);
    splitting_gives_heads(t_linear(a.k_proj@, Ok(x)), b, l, m, d);
    let grouped = t_reshape(t_linear(a.k_proj@, Ok(x)), seq![b, l, m, -1i32]);
    assert(has_shape(grouped, seq![b, l, m, d])) by {
        reveal(raw_transpose);
        let axes = seq![0i32, 2i32, 1i32, 3i32];
        let t = grouped->Ok_0;
        let p = permuted(t.shape, axes);
        assert(p == seq![b, m, l, d]);
        assert(t.shape.len() == 4);
        assert(p[0] == t.shape[0] && p[1] == t.shape[2] && p[2] == t.shape[1] && p[3]
            == t.shape[3]);
        assert(t.shape =~= seq![b, l, m, d]);
    }
    lemma_headed(a.k_norm, grouped, b, l, m, d);
    splitting_gives_heads(t_linear(a.v_proj@, Ok(x)), b, l, m, d);
    let q = a.queries(x);
    let g = a.gates(x);
    let k = a.keys(x);
    let v = a.values(x);
    assert(has_shape(q, seq![b, n, l, d]));
    assert(has_shape(g, seq![b, l, (n * d) as i32]));
    assert(has_shape(k, seq![b, m, l, d]));
    assert(has_shape(v, seq![b, m, l, d]));
    let cache = Some(s);
    let q2 = rotated::<ConcatKeyValueCache>(a.rope, q, cache, None);
    let k2 = rotated::<ConcatKeyValueCache>(a.rope, k, cache, None);
    assert(has_shape(q2, seq![b, n, l, d]) && has_shape(k2, seq![b, m, l, d])) by {
        turning_keeps_shape(a.rope, q->Ok_0, s.offset);
        turning_keeps_shape(a.rope, k->Ok_0, s.offset);
    }
    update_reads_back(s, k2->Ok_0, v->Ok_0, b, m, d, d, l);
    buffers_stay_in_bounds(s, k2->Ok_0, v->Ok_0, b, m, d, d, l, top as int);
    let mask = if causal {
        MaskTerm::Causal
    } else {
        MaskTerm::Unmasked
    };
    let (attn, after) = attended::<ConcatKeyValueCache>(
        a.rope,
        q,
        k,
        v,
        a.scale,
        mask,
        None,
        cache,
        None,
    );
    assert(has_shape(attn, seq![b, n, l, d])) by {
        reveal(raw_attention);
    }
    joining_gives_rows(attn, b, l, n, d);
    let joined = join_heads(attn, b, l);
    lemma_pointwise(g, g, seq![b, l, (n * d) as i32]);
    lemma_pointwise(joined, t_sigmoid(g), seq![b, l, (n * d) as i32]);
    a_linear_layer_keeps_rows(
        a.o_proj@,
        t_multiply(joined, t_sigmoid(g)),
        b,
        l,
        (n * d) as i32,
        dim,
    );
}

/// Whether a layer has `dim` features outside, and its feed-forward part, on `l` positions of `b`
/// rows, gives back what it takes.
#[verifier::opaque]
pub open spec fn layer_goes<F: FeedForward>(
    t: HybridLayer<F>,
    dim: i32,
    b: i32,
    l: i32,
) -> bool {
    &&& if t.is_linear {
        t.linear_attn matches Some(a) && net_goes(a, dim) && b * a.num_v_heads <= i32::MAX && l
            + a.conv_kernel_size <= i32::MAX
    } else {
        t.self_attn matches Some(a) && gated_attention_goes(a, dim)
    }
    &&& t.input_layernorm.weight@.shape == seq![dim]
    &&& t.post_attention_layernorm.weight@.shape == seq![dim]
    &&& forall|x: Term| x.shape == seq![b, l, dim] ==> has_shape(
        #[trigger] t.mlp.feed(x),
        seq![b, l, dim],
    )
}

/// Whether a cache is one of a layer behind `held` positions, which has never been behind more than
/// `top`.
#[verifier::opaque]
pub open spec fn layer_holds<F: FeedForward>(
    t: HybridLayer<F>,
    c: LayerState,
    b: i32,
    held: i32,
    top: i32,
) -> bool {
    match c {
        LayerState::Full(s) => {
            &&& !t.is_linear
            &&& t.self_attn matches Some(a) && holds_positions(
                s,
                b,
                a.n_kv_heads,
                a.head_dim,
                held,
                top,
            )
        },
        LayerState::Linear { conv, state } => {
            &&& t.is_linear
            &&& t.linear_attn matches Some(a) && net_keeps(a, conv, state, b)
        },
    }
}

proof fn lemma_hybrid_layer<F: FeedForward>(
    t: HybridLayer<F>,
    x: Term,
    causal: bool,
    c: LayerState,
    b: i32,
    l: i32,
    dim: i32,
    held: i32,
    top: i32,
)
    requires
        b > 0,
        l > 0,
        b * l <= i32::MAX,
        held + l <= top,
        top_fits(top),
        layer_goes(t, dim, b, l),
        layer_holds(t, c, b, held, top),
        x.shape == seq![b, l, dim],
    ensures
        has_shape(t.apply(x, causal, c).0, seq![b, l, dim]),
        layer_holds(t, t.apply(x, causal, c).1, b, (held + l) as i32, top),
{
    reveal(layer_goes);
    reveal(layer_holds);
    reveal(HybridLayer::apply);
    let s = seq![b, l, dim];
    assert(has_shape(t.input_layernorm.apply(Ok(x)), s)) by {
        reveal(raw_rms_norm);
    }
    let n = t.input_layernorm.apply(Ok(x))->Ok_0;
    match c {
        LayerState::Full(kv) => {
            gated_attention_keeps_rows(
                t.self_attn->Some_0,
                n,
                causal,
                kv,
                b,
                l,
                dim,
                held,
                top,
            );
        },
        LayerState::Linear { conv, state } => {
            linear_attention_keeps_rows(t.linear_attn->Some_0, n, conv, state, b, l, dim);
        },
    }
    let (r, after) = t.mixed(n, causal, c);
    lemma_pointwise(Ok(x), r, s);
    let h = t_add(Ok(x), r);
    assert(has_shape(t.post_attention_layernorm.apply(h), s)) by {
        reveal(raw_rms_norm);
    }
    let f = fed(&t.mlp, t.post_attention_layernorm.apply(h));
    assert(has_shape(f, s));
    lemma_pointwise(h, f, s);
}

proof fn lemma_ready_layer<F: FeedForward>(
    t: HybridLayer<F>,
    x: Tn,
    causal: bool,
    c: LayerState,
    b: i32,
    l: i32,
    dim: i32,
    held: i32,
    top: i32,
    r: (Tn, LayerState),
)
    requires
        b > 0,
        l > 0,
        b * l <= i32::MAX,
        held + l <= top,
        top_fits(top),
        layer_goes(t, dim, b, l),
        layer_holds(t, c, b, held, top),
        has_shape(x, seq![b, l, dim]),
        r == t.apply(x->Ok_0, causal, c),
    ensures
        has_shape(r.0, seq![b, l, dim]),
        layer_holds(t, r.1, b, (held + l) as i32, top),
{
    lemma_hybrid_layer(t, x->Ok_0, causal, c, b, l, dim, held, top);
}

/// One more layer of a run.
pub(crate) proof fn lemma_one_more_layer<F: FeedForward>(
    layers: Seq<HybridLayer<F>>,
    x: Term,
    causal: bool,
    caches: Seq<LayerState>,
    n: nat,
) -> (r: (Tn, LayerState))
    requires
        n > 0,
        run_hybrid(layers, x, causal, caches, (n - 1) as nat).0 is Ok,
    ensures
        r == layers[n - 1].apply(
            run_hybrid(layers, x, causal, caches, (n - 1) as nat).0->Ok_0,
            causal,
            run_hybrid(layers, x, causal, caches, (n - 1) as nat).1[n - 1],
        ),
        run_hybrid(layers, x, causal, caches, n) == (
            r.0,
            run_hybrid(layers, x, causal, caches, (n - 1) as nat).1.update(n - 1, r.1),
        ),
{
    let (y, s) = run_hybrid(layers, x, causal, caches, (n - 1) as nat);
    layers[n - 1].apply(y->Ok_0, causal, s[n - 1])
}

pub(crate) proof fn lemma_hybrid_layers<F: FeedForward>(
    layers: Seq<HybridLayer<F>>,
    x: Term,
    causal: bool,
    caches: Seq<LayerState>,
    b: i32,
    l: i32,
    dim: i32,
    held: i32,
    top: i32,
    n: nat,
)
    requires
        b > 0,
        l > 0,
        b * l <= i32::MAX,
        held + l <= top,
        top_fits(top),
        n <= layers.len(),
        caches.len() == layers.len(),
        forall|i: int| 0 <= i < layers.len() ==> layer_goes(#[trigger] layers[i], dim, b, l),
        forall|i: int|
            0 <= i < layers.len() ==> layer_holds(layers[i], #[trigger] caches[i], b, held, top),
        x.shape == seq![b, l, dim],
    ensures
        has_shape(run_hybrid(layers, x, causal, caches, n).0, seq![b, l, dim]),
        run_hybrid(layers, x, causal, caches, n).1.len() == caches.len(),
        forall|i: int|
            0 <= i < n ==> layer_holds(
                layers[i],
                #[trigger] run_hybrid(layers, x, causal, caches, n).1[i],
                b,
                (held + l) as i32,
                top,
            ),
        forall|i: int|
            n <= i < caches.len() ==> #[trigger] run_hybrid(layers, x, causal, caches, n).1[i]
                == caches[i],
    decreases n,
{
    if n > 0 {
        let k = (n - 1) as nat;
        lemma_hybrid_layers(layers, x, causal, caches, b, l, dim, held, top, k);
        let (y, s) = run_hybrid(layers, x, causal, caches, k);
        assert(s[k as int] == caches[k as int]);
        let r = lemma_one_more_layer(layers, x, causal, caches, n);
        lemma_ready_layer(
            layers[k as int],
            y,
            causal,
            caches[k as int],
            b,
            l,
            dim,
            held,
            top,
            r,
        );
    }
}

/// Whether a hybrid model has a vocabulary of `v` tokens and `dim` features between its layers.
pub open spec fn hybrid_goes<A, F: FeedForward>(
    m: HybridLm<A, F>,
    v: i32,
    dim: i32,
    b: i32,
    l: i32,
) -> bool {
    &&& dim >= 0
    &&& table_goes(m.model.embed_tokens@, v, dim)
    &&& forall|i: int|
        0 <= i < m.model.layers@.len() ==> layer_goes(#[trigger] m.model.layers@[i], dim, b, l)
    &&& m.model.norm.weight@.shape == seq![dim]
    &&& m.lm_head matches Some(h) ==> goes(h@, dim, v)
}

/// Whether every layer of a model has its cache, behind `held` positions.
pub open spec fn caches_hold<A, F: FeedForward>(
    m: HybridLm<A, F>,
    caches: Seq<LayerState>,
    b: i32,
    held: i32,
    top: i32,
) -> bool {
    &&& caches.len() == m.model.layers@.len()
    &&& forall|i: int|
        0 <= i < caches.len() ==> layer_holds(
            m.model.layers@[i],
            #[trigger] caches[i],
            b,
            held,
            top,
        )
}

proof fn lemma_hidden<A, F: FeedForward>(
    m: HybridLm<A, F>,
    ids: Term,
    caches: Seq<LayerState>,
    b: i32,
    l: i32,
    v: i32,
    dim: i32,
    held: i32,
    top: i32,
)
    requires
        b > 0,
        l > 0,
        b * l <= i32::MAX,
        held + l <= top,
        top_fits(top),
        hybrid_goes(m, v, dim, b, l),
        caches_hold(m, caches, b, held, top),
        ids.shape == seq![b, l],
    ensures
        has_shape(m.model.run(ids, caches).0, seq![b, l, dim]),
        caches_hold(m, m.model.run(ids, caches).1, b, (held + l) as i32, top),
{
    let layers = m.model.layers@;
    let h = t_embed(m.model.embed_tokens@, ids);
    a_table_gives_a_row_a_token(m.model.embed_tokens@, ids, b, l, v, dim);
    lemma_hybrid_layers(layers, h->Ok_0, l > 1, caches, b, l, dim, held, top, layers.len());
    let x = run_hybrid(layers, h->Ok_0, l > 1, caches, layers.len()).0;
    assert(has_shape(m.model.norm.apply(x), seq![b, l, dim])) by {
        reveal(raw_rms_norm);
    }
}

proof fn lemma_projected<A, F: FeedForward>(
    m: HybridLm<A, F>,
    x: Tn,
    b: i32,
    l: i32,
    v: i32,
    dim: i32,
    n: i32,
)
    requires
        hybrid_goes(m, v, dim, b, n),
        has_shape(x, seq![b, l, dim]),
    ensures
        has_shape(m.projected(x), seq![b, l, v]),
{
    match m.lm_head {
        Some(head) => {
            a_linear_layer_keeps_rows(head@, x, b, l, dim, v);
        },
        None => {
            a_table_serves_as_head(m.model.embed_tokens@, x, b, l, v, dim);
        },
    }
}

/// A hybrid model answers: from `l` tokens in each of `b` rows it gives the logits of every token
/// of the vocabulary for every position, and leaves every cache behind `l` more positions, each of
/// the sort that its layer needs, so that the next step can follow.
pub proof fn a_hybrid_model_gives_logits<A, F: FeedForward>(
    m: HybridLm<A, F>,
    ids: Term,
    caches: Seq<LayerState>,
    b: i32,
    l: i32,
    v: i32,
    dim: i32,
    held: i32,
    top: i32,
)
    requires
        b > 0,
        l > 0,
        b * l <= i32::MAX,
        held + l <= top,
        top_fits(top),
        hybrid_goes(m, v, dim, b, l),
        caches_hold(m, caches, b, held, top),
        ids.shape == seq![b, l],
    ensures
        has_shape(m.run(ids, caches).0, seq![b, l, v]),
        caches_hold(m, m.run(ids, caches).1, b, (held + l) as i32, top),
{
    lemma_hidden(m, ids, caches, b, l, v, dim, held, top);
    lemma_projected(m, m.model.run(ids, caches).0, b, l, v, dim, l);
}

/// The caches that a model starts from hold nothing.
pub proof fn first_caches_hold_nothing<A, F: FeedForward>(
    m: HybridLm<A, F>,
    caches: Seq<LayerState>,
    b: i32,
    top: i32,
)
    requires
        b >= 0,
        top >= 0,
        caches.len() == m.model.layers@.len(),
        forall|i: int|
            0 <= i < caches.len() ==> #[trigger] caches[i] == empty_layer(
                m.model.layers@[i].is_linear,
            ),
        forall|i: int|
            0 <= i < caches.len() ==> ({
                let t = #[trigger] m.model.layers@[i];
                if t.is_linear {
                    t.linear_attn is Some
                } else {
                    t.self_attn matches Some(a) && a.n_kv_heads >= 0 && a.head_dim >= 0
                }
            }),
    ensures
        caches_hold(m, caches, b, 0, top),
{
    assert forall|i: int| 0 <= i < caches.len() implies layer_holds(
        m.model.layers@[i],
        #[trigger] caches[i],
        b,
        0,
        top,
    ) by {
        reveal(layer_holds);
        let t = m.model.layers@[i];
        assert(caches[i] == empty_layer(t.is_linear));
    }
}

/// Whether the reading of a prompt of `t` tokens has come as far as it should behind some chunks.
pub open spec fn reads_on<A, F: FeedForward>(
    m: HybridLm<A, F>,
    p: Progress,
    b: i32,
    t: i32,
    dim: i32,
    held: i32,
    top: i32,
) -> bool {
    match p.out {
        None => 0 <= p.start < t && caches_hold(m, p.caches, b, (held + p.start) as i32, top),
        Some(x) => has_shape(x, seq![b, 1i32, dim]) && caches_hold(
            m,
            p.caches,
            b,
            (held + t) as i32,
            top,
        ),
    }
}

proof fn lemma_chunk<A, F: FeedForward>(
    m: HybridLm<A, F>,
    ids: Term,
    chunk: i32,
    p: Progress,
    b: i32,
    t: i32,
    v: i32,
    dim: i32,
    held: i32,
    top: i32,
)
    requires
        b > 0,
        t > 0,
        chunk > 0,
        b * t <= i32::MAX,
        held >= 0,
        held + t <= top,
        top_fits(top),
        forall|n: i32| 0 < n <= t ==> #[trigger] hybrid_goes(m, v, dim, b, n),
        ids.shape == seq![b, t],
        p.out is None,
        reads_on(m, p, b, t, dim, held, top),
    ensures
        reads_on(m, chunk_read(&m.model, ids, chunk, p), b, t, dim, held, top),
        chunk_read(&m.model, ids, chunk, p).out is None ==> chunk_read(
            &m.model,
            ids,
            chunk,
            p,
        ).start > p.start,
{
    let end = chunk_end(p.start, chunk, t);
    let l = (end - p.start) as i32;
    let piece = t_slice(Ok(ids), 1, p.start as i32, end as i32);
    assert(has_shape(piece, seq![b, l])) by {
        reveal(raw_slice);
        assert(seq![b, t].update(1, l) =~= seq![b, l]);
    }
    assert(b * l <= b * t) by (nonlinear_arith)
        requires
            b > 0,
            l <= t,
    ;
    assert(hybrid_goes(m, v, dim, b, l));
    lemma_hidden(m, piece->Ok_0, p.caches, b, l, v, dim, (held + p.start) as i32, top);
    let h = m.model.run(piece->Ok_0, p.caches).0;
    if end == t {
        assert(has_shape(t_slice(h, 1, (l - 1) as i32, l), seq![b, 1i32, dim])) by {
            reveal(raw_slice);
            assert(seq![b, l, dim].update(1, 1i32) =~= seq![b, 1i32, dim]);
        }
    }
}

pub(crate) proof fn lemma_chunks<A, F: FeedForward>(
    m: HybridLm<A, F>,
    ids: Term,
    caches: Seq<LayerState>,
    chunk: i32,
    b: i32,
    t: i32,
    v: i32,
    dim: i32,
    held: i32,
    top: i32,
    k: nat,
)
    requires
        b > 0,
        t > 0,
        chunk > 0,
        b * t <= i32::MAX,
        held >= 0,
        held + t <= top,
        top_fits(top),
        forall|n: i32| 0 < n <= t ==> #[trigger] hybrid_goes(m, v, dim, b, n),
        caches_hold(m, caches, b, held, top),
        ids.shape == seq![b, t],
    ensures
        reads_on(m, chunks_read(&m.model, ids, caches, chunk, k), b, t, dim, held, top),
        chunks_read(&m.model, ids, caches, chunk, k).out is None ==> chunks_read(
            &m.model,
            ids,
            caches,
            chunk,
            k,
        ).start >= k,
    decreases k,
{
    if k > 0 {
        let j = (k - 1) as nat;
        lemma_chunks(m, ids, caches, chunk, b, t, v, dim, held, top, j);
        let p = chunks_read(&m.model, ids, caches, chunk, j);
        if p.out is None {
            lemma_chunk(m, ids, chunk, p, b, t, v, dim, held, top);
        }
    }
}

/// Reading a prompt in chunks, whatever their size, gives the logits of its last position and
/// leaves every cache behind the whole prompt.
pub proof fn chunks_read_the_whole_prompt<A, F: FeedForward>(
    m: HybridLm<A, F>,
    ids: Term,
    caches: Seq<LayerState>,
    chunk: i32,
    b: i32,
    t: i32,
    v: i32,
    dim: i32,
    held: i32,
    top: i32,
)
    requires
        b > 0,
        t > 0,
        chunk > 0,
        b * t <= i32::MAX,
        held >= 0,
        held + t <= top,
        top_fits(top),
        forall|n: i32| 0 < n <= t ==> #[trigger] hybrid_goes(m, v, dim, b, n),
        caches_hold(m, caches, b, held, top),
        ids.shape == seq![b, t],
    ensures
        has_shape(m.prefilled(ids, caches, chunk).0, seq![b, 1i32, v]),
        caches_hold(m, m.prefilled(ids, caches, chunk).1, b, (held + t) as i32, top),
{
    lemma_chunks(m, ids, caches, chunk, b, t, v, dim, held, top, (t + 1) as nat);
    let p = chunks_read(&m.model, ids, caches, chunk, (t + 1) as nat);
    assert(p.out is Some);
    assert(hybrid_goes(m, v, dim, b, t));
    lemma_projected(m, p.out->Some_0, b, 1, v, dim, t);
}

proof fn lemma_cut(ids: Term, b: i32, t: i32, lo: i32, hi: i32)
    requires
        ids.shape == seq![b, t],
        0 <= lo <= hi <= t,
    ensures
        has_shape(t_slice(Ok(ids), 1, lo, hi), seq![b, (hi - lo) as i32]),
{
    reveal(raw_slice);
    assert(seq![b, t].update(1, (hi - lo) as i32) =~= seq![b, (hi - lo) as i32]);
}

/// The reading of a whole prompt, with the last `tail` tokens set apart or not: it gives the logits
/// of one position or more, takes the snapshots, and leaves every cache behind the prompt.
proof fn lemma_prompt<A, F: FeedForward>(
    m: HybridLm<A, F>,
    ids: Term,
    caches: Seq<LayerState>,
    chunk: i32,
    tail: i32,
    b: i32,
    t: i32,
    v: i32,
    dim: i32,
    held: i32,
    top: i32,
)
    requires
        b > 0,
        0 < t < i32::MAX,
        chunk > 0,
        tail >= 0,
        b * t <= i32::MAX,
        held >= 0,
        held + t <= top,
        top_fits(top),
        forall|n: i32| 0 < n <= t ==> #[trigger] hybrid_goes(m, v, dim, b, n),
        caches_hold(m, caches, b, held, top),
        ids.shape == seq![b, t],
    ensures
        ({
            let o = prompt_outcome(&m, ids, caches, chunk, tail);
            &&& has_shape(
                o.logits,
                seq![
                    b,
                    if splits(t, tail) {
                        tail
                    } else {
                        1
                    },
                    v,
                ],
            )
            &&& caches_hold(m, o.caches, b, (held + t) as i32, top)
            &&& o.snapshot is Some
        }),
{
    if splits(t, tail) {
        let split = (t - tail) as i32;
        lemma_cut(ids, b, t, 0, split);
        lemma_cut(ids, b, t, split, t);
        assert(b * split <= b * t && b * tail <= b * t) by (nonlinear_arith)
            requires
                b > 0,
                split <= t,
                tail <= t,
        ;
        let after = if split > 0 {
            let part = t_slice(Ok(ids), 1, 0, split)->Ok_0;
            chunks_read_the_whole_prompt(m, part, caches, chunk, b, split, v, dim, held, top);
            m.prefilled(part, caches, chunk).1
        } else {
            caches
        };
        let last = t_slice(Ok(ids), 1, split, t)->Ok_0;
        assert(hybrid_goes(m, v, dim, b, tail));
        a_hybrid_model_gives_logits(m, last, after, b, tail, v, dim, (held + split) as i32, top);
    } else {
        chunks_read_the_whole_prompt(m, ids, caches, chunk, b, t, v, dim, held, top);
    }
}

/// Generation with a hybrid model goes on: the first step, with the prompt read in chunks and its
/// last part set apart or not, as well as any later one gives one token a row and leaves every
/// cache behind the tokens read. The first step takes the snapshots.
pub proof fn hybrid_generation_goes_on<A, F: FeedForward>(
    m: HybridLm<A, F>,
    c: Course,
    s: Standing,
    b: i32,
    t: i32,
    v: i32,
    dim: i32,
    held: i32,
    top: i32,
)
    requires
        b > 0,
        0 < t < i32::MAX,
        v >= 0,
        c.chunk > 0,
        c.tail >= 0,
        b * t <= i32::MAX,
        held >= 0,
        held + t <= top,
        top_fits(top),
        forall|n: i32| 0 < n <= t ==> #[trigger] hybrid_goes(m, v, dim, b, n),
        caches_hold(m, s.caches, b, held, top),
        match s.state {
            StateTerm::Prefill(p) => p.shape == seq![b, t],
            StateTerm::Decode(y) => y.shape == seq![b] && t == 1,
        },
        c.opts.penalizes() ==> b == 1,
    ensures
        ({
            let (token, after) = stepped(&m, c, s);
            &&& token matches Advanced::Token(y) && has_shape(y, seq![b])
            &&& after.state is Decode
            &&& caches_hold(m, after.caches, b, (held + t) as i32, top)
            &&& s.state is Prefill ==> after.snapshot is Some
        }),
{
    let n: i32;
    let logits: Tn;
    match s.state {
        StateTerm::Prefill(p) => {
            lemma_prompt(m, p, s.caches, c.chunk, c.tail, b, t, v, dim, held, top);
            logits = prompt_outcome(&m, p, s.caches, c.chunk, c.tail).logits;
            n = if splits(t, c.tail) {
                c.tail
            } else {
                1
            };
        },
        StateTerm::Decode(y) => {
            assert(has_shape(next_ids(s.state), seq![b, 1i32])) by {
                reveal(raw_expand_dims);
                assert(seq![b].insert(1, 1i32) =~= seq![b, 1i32]);
            }
            let ids = next_ids(s.state)->Ok_0;
            assert(hybrid_goes(m, v, dim, b, 1));
            a_hybrid_model_gives_logits(m, ids, s.caches, b, 1, v, dim, held, top);
            logits = m.run(ids, s.caches).0;
            n = 1;
        },
    }
    let last = t_select(logits, 1, -1i32);
    assert(has_shape(last, seq![b, v])) by {
        reveal(raw_select);
        assert(seq![b, n, v].remove(1) =~= seq![b, v]);
    }
    sampling_gives_a_token_a_row(
        last->Ok_0,
        c.opts,
        recent_tokens(c.opts, c.history),
        s.draws,
        b,
        v,
    );
}

} // verus!
