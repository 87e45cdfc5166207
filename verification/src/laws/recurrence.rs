//! What linear attention computes, element by element: which channels of the convolution are
//! queries, keys and values, what a position changes in the state of a head and what it reads there,
//! and how the heads are gated and joined.

use crate::array::{promoted, BinaryOp, Dtype, Kind, Term, UnaryOp};
use crate::error::Exception;
use crate::fast::{raw_rms_norm, t_rms_norm};
use crate::laws::elements::{
    conversions_go_by_element, converted, dot, dot_type, fixed, functions_go_by_element,
    lemma_dot_type, lemma_num_type, lemma_row, lemma_same_row, linear_layers_go_by_row, num, pair,
    pairs_go_together, row_of, single, stretched_pairs_go_together, Num,
};
use crate::laws::heads::{heads_of, lemma_times_constant, norms_go_by_row, rms, sizes, states};
use crate::laws::hybrid_model::{
    lemma_kernel, lemma_net_input, lemma_ungrouped, linear_attention_keeps_rows, net_goes,
    net_keeps,
};
use crate::laws::moves::{groups_are_stretches, joins_keep_the_order, slices_begin_where_asked};
use crate::laws::parts::{lemma_is_reshape, lemma_stretch_self, lemma_ungrouping};
use crate::laws::shapes::{has_shape, is_single, the_delta_rule_keeps_shapes};
use crate::meaning::{computed, elem, in_shape, length_of, stretched_index, window, Elem};
use crate::models::gated_delta::{decay, kernel_scanned, scanned};
use crate::models::qwen3_5::{normalized_times, GatedDeltaNet};
use crate::nn::t_linear;
use crate::ops::create::t_zeros;
use crate::ops::elementwise::{
    binary_dtype, t_add, t_cast, t_exp, t_multiply, t_negative, t_sigmoid, t_silu, t_softplus,
    unary_dtype,
};
use crate::ops::layout::t_reshape;
use crate::ops::product::{raw_conv1d, t_conv1d};
use crate::ops::select::{t_slice, OPEN};
use crate::scalar::{Float, Scalar};
use crate::shape::broadcast_shape;
use std::sync::Arc;
use vstd::prelude::*;

verus! {

/// What a convolution with a kernel of `k` positions gives for channel `c` at a position.
#[verifier::opaque]
pub open spec fn convolved(
    input: Term,
    weight: Term,
    groups: i32,
    k: i32,
    b: int,
    p: int,
    c: int,
) -> Num {
    Num {
        e: Elem::Applied(
            Kind::Conv1d { groups },
            seq![input.dtype, weight.dtype],
            seq![
                Elem::Row(window(input, b, p, length_of(k))),
                Elem::Row(window(weight, c, 0, length_of(k))),
                Elem::Int(c),
            ],
        ),
        t: promoted(input.dtype, weight.dtype),
    }
}

/// A convolution reads the positions from its own on, and the kernel of its channel.
pub proof fn convolutions_look_ahead(
    input: Term,
    weight: Term,
    groups: i32,
    k: i32,
    ix: Seq<int>,
)
    requires
        t_conv1d(Ok(input), weight, groups) is Ok,
        weight.shape.len() == 3,
        weight.shape[1] == k,
        ix.len() == 3,
    ensures
        num(t_conv1d(Ok(input), weight, groups)->Ok_0, ix) == convolved(
            input,
            weight,
            groups,
            k,
            ix[0],
            ix[1],
            ix[2],
        ),
{
    reveal(raw_conv1d);
    reveal(convolved);
    reveal(num);
    reveal(computed);
    let r = t_conv1d(Ok(input), weight, groups)->Ok_0;
    assert(r.args[0] == input && r.args[1] == weight);
    assert(elem(r, ix) == computed(r, ix));
}

/// A stretch of `n * d` channels under heads.
proof fn lemma_stretch_at(
    c: Term,
    b: i32,
    l: i32,
    width: i32,
    start: i32,
    stop: i32,
    n: i32,
    d: i32,
    ix: Seq<int>,
)
    requires
        sizes(b, l, n, d),
        c.shape == states(b, l, width),
        0 <= start,
        start + n * d <= width,
        stop == start + n * d || (stop == OPEN && start + n * d == width),
        in_shape(ix, heads_of(b, l, n, d)),
    ensures
        t_reshape(t_slice(Ok(c), -1i32, start, stop), seq![b, l, n, d]) matches Ok(r) && r.shape
            == heads_of(b, l, n, d) && r.dtype == c.dtype && num(r, ix) == num(
            c,
            seq![ix[0], ix[1], start + (ix[2] * d + ix[3])],
        ),
{
    let jx = seq![ix[0], ix[1], ix[2] * d + ix[3]];
    assert(n * d > 0) by (nonlinear_arith)
        requires
            n > 0,
            d > 0,
    ;
    slices_begin_where_asked(c, -1i32, 2, start, stop, jx);
    let y = t_slice(Ok(c), -1i32, start, stop)->Ok_0;
    assert(y.shape =~= seq![b, l, (n * d) as i32]);
    groups_are_stretches(y, b, l, n, d, ix);
    assert(jx.update(2, jx[2] + start) =~= seq![ix[0], ix[1], start + (ix[2] * d + ix[3])]);
}

/// The `d` channels of an array from `from` on, at a position.
pub open spec fn channels(c: Term, at: Seq<int>, from: int, d: i32) -> Seq<Elem> {
    Seq::new(length_of(d), |j: int| num(c, seq![at[0], at[1], from + j]).e)
}

/// The small number that keeps a normalization from dividing by zero, a millionth.
pub open spec fn millionth() -> Scalar {
    Scalar::Lit(Float { bits: 0x3586_37bd })
}

/// One over the root of a number.
pub open spec fn one_over_root(n: i32) -> Scalar {
    Scalar::Power(
        Arc::new(Scalar::Int(n)),
        Arc::new(Scalar::Lit(Float { bits: 0xbf00_0000 })),
    )
}

/// Feature `j` of a head that is brought to unit mean square and scaled.
pub open spec fn scaled_head(row: Seq<Elem>, t: Dtype, scale: Scalar, j: int) -> Num {
    pair(BinaryOp::Multiply, rms(row, None, millionth(), t, j), converted(fixed(scale), t))
}

/// Heads made of channels, normalized and scaled.
proof fn lemma_scaled_at(
    c: Term,
    b: i32,
    l: i32,
    width: i32,
    start: i32,
    stop: i32,
    n: i32,
    d: i32,
    scale: Scalar,
    ix: Seq<int>,
)
    requires
        sizes(b, l, n, d),
        c.shape == states(b, l, width),
        0 <= start,
        start + n * d <= width,
        stop == start + n * d || (stop == OPEN && start + n * d == width),
        in_shape(ix, heads_of(b, l, n, d)),
    ensures
        normalized_times(
            t_reshape(t_slice(Ok(c), -1i32, start, stop), seq![b, l, n, d]),
            scale,
        ) matches Ok(r) && r.shape == heads_of(b, l, n, d) && num(r, ix) == scaled_head(
            channels(c, ix, start + ix[2] * d, d),
            c.dtype,
            scale,
            ix[3],
        ),
{
    let s = heads_of(b, l, n, d);
    assert(0 <= ix[0] < s[0] && 0 <= ix[1] < s[1] && 0 <= ix[2] < s[2] && 0 <= ix[3] < s[3]);
    lemma_stretch_at(c, b, l, width, start, stop, n, d, ix);
    let p = t_reshape(t_slice(Ok(c), -1i32, start, stop), seq![b, l, n, d])->Ok_0;
    let want = channels(c, ix, start + ix[2] * d, d);
    assert forall|j: int| 0 <= j < want.len() implies (#[trigger] num(p, ix.update(3, j))).e
        == want[j] by {
        let jx = ix.update(3, j);
        assert(in_shape(jx, s));
        lemma_stretch_at(c, b, l, width, start, stop, n, d, jx);
        assert(seq![jx[0], jx[1], start + (jx[2] * d + jx[3])] =~= seq![
            ix[0],
            ix[1],
            (start + ix[2] * d) + j,
        ]);
    }
    lemma_row(p, ix, want);
    let eps = Scalar::Lit(Float { bits: crate::models::qwen3_5::NORM_EPS_BITS });
    assert(t_rms_norm(Ok(p), None, eps) is Ok) by {
        reveal(raw_rms_norm);
    }
    norms_go_by_row(p, None, eps, ix);
    let y = t_rms_norm(Ok(p), None, eps)->Ok_0;
    assert(y.dtype == p.dtype) by {
        reveal(raw_rms_norm);
    }
    lemma_times_constant(y, scale, ix);
}

/// What a layer works with: what its convolution reads and gives, queries, keys, values, decays and
/// correction parts, and what the recurrence gives and leaves.
pub struct NetParts {
    pub input: Term,
    pub conv: Term,
    pub q: Term,
    pub k: Term,
    pub v: Term,
    pub g: Term,
    pub beta: Term,
    pub out: Term,
    pub next: Term,
}

/// Whether the convolution reads the inputs kept from before, or zeros, and then the products of the
/// positions with `in_proj_qkv`, and its channels are activated.
pub open spec fn convolution_reads(
    a: GatedDeltaNet,
    x: Term,
    conv: Option<Term>,
    w: NetParts,
    b: i32,
    l: i32,
) -> bool {
    let n = a.conv_kernel_size - 1;
    &&& forall|ix: Seq<int>| #[trigger]
        in_shape(ix, states(b, (n + l) as i32, a.conv_dim)) ==> num(w.input, ix).e == if ix[1] < n {
            match conv {
                Some(c) => num(c, ix).e,
                None => converted(
                    Num { e: Elem::Real(Scalar::Int(0)), t: Dtype::Float32 },
                    x.dtype,
                ).e,
            }
        } else {
            dot(a.in_proj_qkv@, row_of(x, seq![ix[0], ix[1] - n, 0]), x.dtype, ix[2]).e
        }
    &&& forall|ix: Seq<int>| #[trigger]
        in_shape(ix, states(b, l, a.conv_dim)) ==> num(w.conv, ix) == single(
            UnaryOp::Silu,
            convolved(
                w.input,
                a.conv1d.weight@,
                a.conv1d.groups,
                a.conv_kernel_size,
                ix[0],
                ix[1],
                ix[2],
            ),
        )
}

/// Whether the first channels of the convolution are the queries of the key heads, the next their
/// keys, and the rest the values of the value heads; queries and keys are normalized, and the
/// queries scaled once more.
pub open spec fn channels_in_roles(a: GatedDeltaNet, w: NetParts, b: i32, l: i32) -> bool {
    let (nk, nv, dk, dv) = (a.num_k_heads, a.num_v_heads, a.head_k_dim, a.head_v_dim);
    let s = one_over_root(dk);
    &&& forall|ix: Seq<int>| #[trigger]
        in_shape(ix, heads_of(b, l, nk, dk)) ==> num(w.q, ix) == scaled_head(
            channels(w.conv, ix, ix[2] * dk, dk),
            w.conv.dtype,
            Scalar::Product(Arc::new(s), Arc::new(s)),
            ix[3],
        ) && num(w.k, ix) == scaled_head(
            channels(w.conv, ix, nk * dk + ix[2] * dk, dk),
            w.conv.dtype,
            s,
            ix[3],
        )
    &&& forall|ix: Seq<int>| #[trigger]
        in_shape(ix, heads_of(b, l, nv, dv)) ==> num(w.v, ix) == num(
            w.conv,
            seq![ix[0], ix[1], 2 * (nk * dk) + (ix[2] * dv + ix[3])],
        )
}

/// The part of the state that a head keeps over a position: `exp(-exp(a_log) * softplus(a + bias))`.
pub open spec fn kept_part(a_log: Num, a: Num, dt_bias: Num) -> Num {
    single(
        UnaryOp::Exp,
        single(
            UnaryOp::Negative,
            pair(
                BinaryOp::Multiply,
                single(UnaryOp::Exp, converted(a_log, Dtype::Float32)),
                single(UnaryOp::Softplus, pair(BinaryOp::Add, a, dt_bias)),
            ),
        ),
    )
}

/// Whether decays come from `in_proj_a`, and correction parts from `in_proj_b`.
pub open spec fn controls_in_roles(
    a: GatedDeltaNet,
    x: Term,
    w: NetParts,
    b: i32,
    l: i32,
) -> bool {
    forall|ix: Seq<int>| #[trigger]
        in_shape(ix, states(b, l, a.num_v_heads)) ==> num(w.g, ix) == kept_part(
            num(a.a_log@, seq![ix[2]]),
            dot(a.in_proj_a@, row_of(x, seq![ix[0], ix[1], 0]), x.dtype, ix[2]),
            num(a.dt_bias@, seq![ix[2]]),
        ) && num(w.beta, ix) == single(
            UnaryOp::Sigmoid,
            dot(a.in_proj_b@, row_of(x, seq![ix[0], ix[1], 0]), x.dtype, ix[2]),
        )
}

/// Decays and correction parts, at an index.
proof fn lemma_controls_at(a: GatedDeltaNet, x: Term, b: i32, l: i32, dim: i32, ix: Seq<int>)
    requires
        net_goes(a, dim),
        x.shape == states(b, l, dim),
        in_shape(ix, states(b, l, a.num_v_heads)),
    ensures
        ({
            let g = decay(Ok(a.a_log@), t_linear(a.in_proj_a@, Ok(x)), Ok(a.dt_bias@));
            let beta = t_sigmoid(t_linear(a.in_proj_b@, Ok(x)));
            &&& has_shape(g, states(b, l, a.num_v_heads))
            &&& has_shape(beta, states(b, l, a.num_v_heads))
            &&& num(g->Ok_0, ix) == kept_part(
                num(a.a_log@, seq![ix[2]]),
                dot(a.in_proj_a@, row_of(x, seq![ix[0], ix[1], 0]), x.dtype, ix[2]),
                num(a.dt_bias@, seq![ix[2]]),
            )
            &&& num(beta->Ok_0, ix) == single(
                UnaryOp::Sigmoid,
                dot(a.in_proj_b@, row_of(x, seq![ix[0], ix[1], 0]), x.dtype, ix[2]),
            )
        }),
{
    let nv = a.num_v_heads;
    let s = states(b, l, nv);
    assert(0 <= ix[0] < s[0] && 0 <= ix[1] < s[1] && 0 <= ix[2] < s[2]);
    let at = seq![ix[0], ix[1], 0];
    assert(x.shape.update(2, nv) =~= s);
    linear_layers_go_by_row(a.in_proj_a@, x, dim, nv, ix);
    linear_layers_go_by_row(a.in_proj_b@, x, dim, nv, ix);
    lemma_same_row(x, ix, 0);
    assert(ix.update(2, 0) =~= at);
    let (p, q) = (t_linear(a.in_proj_a@, Ok(x))->Ok_0, t_linear(a.in_proj_b@, Ok(x))->Ok_0);
    functions_go_by_element(UnaryOp::Sigmoid, q, ix);
    let one = seq![ix[2]];
    let r = seq![nv];
    assert(broadcast_shape(s, r) =~= s);
    assert(broadcast_shape(r, s) =~= s);
    assert(stretched_index(ix, r) =~= one);
    lemma_stretch_self(ix, s);
    stretched_pairs_go_together(BinaryOp::Add, p, a.dt_bias@, s, ix);
    let sum = t_add(Ok(p), Ok(a.dt_bias@))->Ok_0;
    functions_go_by_element(UnaryOp::Softplus, sum, ix);
    let inner = t_softplus(Ok(sum))->Ok_0;
    conversions_go_by_element(a.a_log@, Dtype::Float32, one);
    let cast = t_cast(Ok(a.a_log@), Dtype::Float32)->Ok_0;
    functions_go_by_element(UnaryOp::Exp, cast, one);
    let outer = t_exp(Ok(cast))->Ok_0;
    stretched_pairs_go_together(BinaryOp::Multiply, outer, inner, s, ix);
    let m = t_multiply(Ok(outer), Ok(inner))->Ok_0;
    functions_go_by_element(UnaryOp::Negative, m, ix);
    functions_go_by_element(UnaryOp::Exp, t_negative(Ok(m))->Ok_0, ix);
}

/// What the convolution reads, at an index.
proof fn lemma_input_at(
    a: GatedDeltaNet,
    x: Term,
    conv: Option<Term>,
    b: i32,
    l: i32,
    dim: i32,
    ix: Seq<int>,
)
    requires
        b > 0,
        l > 0,
        l + a.conv_kernel_size <= i32::MAX,
        net_goes(a, dim),
        net_keeps(a, conv, None, b),
        x.shape == states(b, l, dim),
        in_shape(ix, states(b, (a.conv_kernel_size - 1 + l) as i32, a.conv_dim)),
    ensures
        num(a.conv_input(x, conv)->Ok_0, ix).e == if ix[1] < a.conv_kernel_size - 1 {
            match conv {
                Some(c) => num(c, ix).e,
                None => converted(
                    Num { e: Elem::Real(Scalar::Int(0)), t: Dtype::Float32 },
                    x.dtype,
                ).e,
            }
        } else {
            dot(
                a.in_proj_qkv@,
                row_of(x, seq![ix[0], ix[1] - (a.conv_kernel_size - 1), 0]),
                x.dtype,
                ix[2],
            ).e
        },
{
    let n = (a.conv_kernel_size - 1) as i32;
    let c = a.conv_dim;
    let s = states(b, (n + l) as i32, c);
    assert(0 <= ix[0] < s[0] && 0 <= ix[1] < s[1] && 0 <= ix[2] < s[2]);
    lemma_net_input(a, x, conv, b, l, dim);
    let e = a.earlier(x, conv);
    assert(has_shape(e, states(b, n, c)) && (conv is None ==> num(e->Ok_0, ix) == converted(
        Num { e: Elem::Real(Scalar::Int(0)), t: Dtype::Float32 },
        x.dtype,
    ))) by {
        assert(a.key_dim >= 0 && a.value_dim > 0) by (nonlinear_arith)
            requires
                a.num_k_heads > 0,
                a.head_k_dim > 0,
                a.num_v_heads > 0,
                a.head_v_dim > 0,
                a.key_dim == a.num_k_heads * a.head_k_dim,
                a.value_dim == a.num_v_heads * a.head_v_dim,
        ;
        if conv is None {
            assert(crate::shape::no_negative(states(b, n, c)));
            let z = t_zeros(states(b, n, c), Dtype::Float32)->Ok_0;
            conversions_go_by_element(z, x.dtype, ix);
            reveal(num);
        }
    }
    let lx = seq![
        ix[0],
        if ix[1] < n {
            0
        } else {
            ix[1] - n
        },
        ix[2],
    ];
    assert(x.shape.update(2, c) =~= states(b, l, c));
    assert(in_shape(lx, states(b, l, c)));
    linear_layers_go_by_row(a.in_proj_qkv@, x, dim, c, lx);
    let y = t_linear(a.in_proj_qkv@, Ok(x))->Ok_0;
    assert(y.shape =~= e->Ok_0.shape.update(1, l));
    joins_keep_the_order(e->Ok_0, y, 1, 1, ix);
    if ix[1] >= n {
        assert(ix.update(1, ix[1] - n) =~= lx);
        lemma_same_row(x, lx, 0);
        assert(lx.update(2, 0) =~= seq![ix[0], ix[1] - n, 0]);
    }
}

/// Feature `f` of a position before the last projection: what the recurrence gives, normalized in
/// its head, times the activated product with `in_proj_z`.
pub open spec fn gated_head(
    a: GatedDeltaNet,
    row: Seq<Elem>,
    t: Dtype,
    out: Seq<Elem>,
    ot: Dtype,
    f: int,
) -> Num {
    pair(
        BinaryOp::Multiply,
        single(UnaryOp::Silu, dot(a.in_proj_z@, row, t, f)),
        rms(out, Some(a.norm.weight@), a.norm.eps, ot, f % (a.head_v_dim as int)),
    )
}

/// The features of a position before the last projection.
pub open spec fn gated_heads(a: GatedDeltaNet, x: Term, out: Term, at: Seq<int>) -> Seq<Elem> {
    Seq::new(
        length_of(a.value_dim),
        |f: int|
            gated_head(
                a,
                row_of(x, seq![at[0], at[1], 0]),
                x.dtype,
                row_of(out, seq![at[0], at[1], f / (a.head_v_dim as int), 0]),
                out.dtype,
                f,
            ).e,
    )
}

/// The type of these.
pub open spec fn gated_heads_type(a: GatedDeltaNet, x: Term, out: Term) -> Dtype {
    binary_dtype(
        BinaryOp::Multiply,
        unary_dtype(UnaryOp::Silu, dot_type(a.in_proj_z@, x.dtype)),
        promoted(out.dtype, a.norm.weight@.dtype),
    )
}

/// Gated heads, at an index.
proof fn lemma_gated_head_at(
    a: GatedDeltaNet,
    x: Term,
    out: Term,
    b: i32,
    l: i32,
    dim: i32,
    ix: Seq<int>,
)
    requires
        net_goes(a, dim),
        sizes(b, l, a.num_v_heads, a.head_v_dim),
        x.shape == states(b, l, dim),
        out.shape == heads_of(b, l, a.num_v_heads, a.head_v_dim),
        in_shape(ix, states(b, l, a.value_dim)),
    ensures
        ({
            let r = t_reshape(a.norm.apply(Ok(out), Some(a.gate(x))), seq![b, l, -1i32]);
            &&& has_shape(r, states(b, l, a.value_dim))
            &&& r->Ok_0.dtype == gated_heads_type(a, x, out)
            &&& num(r->Ok_0, ix) == gated_head(
                a,
                row_of(x, seq![ix[0], ix[1], 0]),
                x.dtype,
                row_of(out, seq![ix[0], ix[1], ix[2] / (a.head_v_dim as int), 0]),
                out.dtype,
                ix[2],
            )
        }),
{
    let (n, d) = (a.num_v_heads, a.head_v_dim);
    let s = states(b, l, a.value_dim);
    assert(0 <= ix[0] < s[0] && 0 <= ix[1] < s[1] && 0 <= ix[2] < s[2]);
    let (h, j) = (ix[2] / (d as int), ix[2] % (d as int));
    vstd::arithmetic::div_mod::lemma_fundamental_div_mod(ix[2], d as int);
    assert(0 <= h < n) by (nonlinear_arith)
        requires
            ix[2] == d * h + j,
            0 <= j < d,
            0 <= ix[2] < n * d,
    ;
    let jx = seq![ix[0], ix[1], h, j];
    let full = heads_of(b, l, n, d);
    assert(in_shape(jx, full));
    assert(h * d + j == ix[2]) by (nonlinear_arith)
        requires
            ix[2] == d * h + j,
    ;
    // The gates.
    assert(x.shape.update(2, a.value_dim) =~= s);
    linear_layers_go_by_row(a.in_proj_z@, x, dim, a.value_dim, ix);
    lemma_same_row(x, ix, 0);
    assert(ix.update(2, 0) =~= seq![ix[0], ix[1], 0]);
    let z = t_linear(a.in_proj_z@, Ok(x))->Ok_0;
    lemma_dot_type(a.in_proj_z@, row_of(x, ix), x.dtype, ix[2]);
    lemma_num_type(z, ix);
    groups_are_stretches(z, b, l, n, d, jx);
    assert(seq![jx[0], jx[1], jx[2] * d + jx[3]] =~= ix);
    let g = a.gate(x)->Ok_0;
    functions_go_by_element(UnaryOp::Silu, g, jx);
    let sg = t_silu(Ok(g))->Ok_0;
    // The normalized heads.
    let w = Some(a.norm.weight@);
    assert(t_rms_norm(Ok(out), w, a.norm.eps) is Ok) by {
        reveal(raw_rms_norm);
    }
    norms_go_by_row(out, w, a.norm.eps, jx);
    lemma_same_row(out, jx, 0);
    assert(jx.update(3, 0) =~= seq![ix[0], ix[1], h, 0]);
    let y = t_rms_norm(Ok(out), w, a.norm.eps)->Ok_0;
    pairs_go_together(BinaryOp::Multiply, sg, y, jx);
    let m = t_multiply(Ok(sg), Ok(y))->Ok_0;
    assert(y.dtype == promoted(out.dtype, a.norm.weight@.dtype)) by {
        reveal(raw_rms_norm);
    }
    lemma_num_type(m, jx);
    lemma_num_type(sg, jx);
    lemma_num_type(y, jx);
    lemma_num_type(g, jx);
    lemma_ungrouped(Ok(m), b, l, n, d);
    let r = t_reshape(Ok(m), seq![b, l, -1i32])->Ok_0;
    lemma_is_reshape(m, seq![b, l, -1i32]);
    lemma_ungrouping(m, r, b, l, n, d, ix);
    reveal(num);
}

/// Linear attention works with its channels and controls in their roles: the first products with
/// `in_proj_qkv` become queries, the next keys and the rest values, each behind the convolution over
/// its own channel; `in_proj_a` decides what is kept and `in_proj_b` how much is corrected. What
/// the recurrence gives is normalized head by head, gated by `in_proj_z` and projected. The last
/// inputs of the convolution and the state are kept.
pub proof fn linear_attention_works_in_roles(
    a: GatedDeltaNet,
    x: Term,
    conv: Option<Term>,
    state: Option<Term>,
    b: i32,
    l: i32,
    dim: i32,
) -> (w: NetParts)
    requires
        b > 0,
        l > 0,
        b * l <= i32::MAX,
        b * a.num_v_heads <= i32::MAX,
        l + a.conv_kernel_size <= i32::MAX,
        net_goes(a, dim),
        net_keeps(a, conv, state, b),
        x.shape == states(b, l, dim),
    ensures
        convolution_reads(a, x, conv, w, b, l),
        channels_in_roles(a, w, b, l),
        controls_in_roles(a, x, w, b, l),
        ({
            let r = if a.by_ops {
                scanned(w.q, w.k, w.v, w.g, w.beta, state)
            } else {
                kernel_scanned(w.q, w.k, w.v, w.g, w.beta, state)
            };
            r == Ok::<(Term, Term), Exception>((w.out, w.next))
        }),
        ({
            let (r, kept, next) = a.apply(x, conv, state);
            &&& has_shape(r, states(b, l, dim))
            &&& forall|ix: Seq<int>| #[trigger]
                in_shape(ix, states(b, l, dim)) ==> num(r->Ok_0, ix) == dot(
                    a.out_proj@,
                    gated_heads(a, x, w.out, ix),
                    gated_heads_type(a, x, w.out),
                    ix[2],
                )
            &&& next == Some(w.next)
            &&& kept is Some
            &&& forall|ix: Seq<int>| #[trigger]
                in_shape(ix, states(b, (a.conv_kernel_size - 1) as i32, a.conv_dim)) ==> num(
                    kept->Some_0,
                    ix,
                ) == num(w.input, seq![ix[0], ix[1] + l, ix[2]])
        }),
{
    reveal(GatedDeltaNet::apply);
    let (nk, nv, dk, dv) = (a.num_k_heads, a.num_v_heads, a.head_k_dim, a.head_v_dim);
    let n = (a.conv_kernel_size - 1) as i32;
    assert(a.key_dim > 0 && a.value_dim > 0) by (nonlinear_arith)
        requires
            nk > 0,
            dk > 0,
            nv > 0,
            dv > 0,
            a.key_dim == nk * dk,
            a.value_dim == nv * dv,
    ;
    lemma_net_input(a, x, conv, b, l, dim);
    linear_attention_keeps_rows(a, x, conv, state, b, l, dim);
    let input = a.conv_input(x, conv)->Ok_0;
    let c = t_silu(a.conv1d.apply(Ok(input)))->Ok_0;
    let out = a.recurred(x, input, state);
    let w = NetParts {
        input,
        conv: c,
        q: a.queries(x, input)->Ok_0,
        k: a.keys(x, input)->Ok_0,
        v: a.values(x, input)->Ok_0,
        g: decay(Ok(a.a_log@), t_linear(a.in_proj_a@, Ok(x)), Ok(a.dt_bias@))->Ok_0,
        beta: t_sigmoid(t_linear(a.in_proj_b@, Ok(x)))->Ok_0,
        out: out->Ok_0.0,
        next: out->Ok_0.1,
    };
    assert forall|ix: Seq<int>| #[trigger]
        in_shape(ix, states(b, (n + l) as i32, a.conv_dim)) implies num(w.input, ix).e == if ix[1]
        < n {
        match conv {
            Some(c) => num(c, ix).e,
            None => converted(
                Num { e: Elem::Real(Scalar::Int(0)), t: Dtype::Float32 },
                x.dtype,
            ).e,
        }
    } else {
        dot(a.in_proj_qkv@, row_of(x, seq![ix[0], ix[1] - n, 0]), x.dtype, ix[2]).e
    } by {
        lemma_input_at(a, x, conv, b, l, dim, ix);
    }
    assert forall|ix: Seq<int>| #[trigger]
        in_shape(ix, states(b, l, a.conv_dim)) implies num(w.conv, ix) == single(
        UnaryOp::Silu,
        convolved(
            w.input,
            a.conv1d.weight@,
            a.conv1d.groups,
            a.conv_kernel_size,
            ix[0],
            ix[1],
            ix[2],
        ),
    ) by {
        let y = a.conv1d.apply(Ok(input));
        convolutions_look_ahead(
            input,
            a.conv1d.weight@,
            a.conv1d.groups,
            a.conv_kernel_size,
            ix,
        );
        functions_go_by_element(UnaryOp::Silu, y->Ok_0, ix);
    }
    lemma_channels(a, x, input, c, b, l);
    assert forall|ix: Seq<int>| #[trigger]
        in_shape(ix, states(b, l, nv)) implies num(w.g, ix) == kept_part(
        num(a.a_log@, seq![ix[2]]),
        dot(a.in_proj_a@, row_of(x, seq![ix[0], ix[1], 0]), x.dtype, ix[2]),
        num(a.dt_bias@, seq![ix[2]]),
    ) && num(w.beta, ix) == single(
        UnaryOp::Sigmoid,
        dot(a.in_proj_b@, row_of(x, seq![ix[0], ix[1], 0]), x.dtype, ix[2]),
    ) by {
        lemma_controls_at(a, x, b, l, dim, ix);
    }
    let zero = seq![0int, 0, 0];
    assert(in_shape(zero, states(b, l, nv)));
    lemma_controls_at(a, x, b, l, dim, zero);
    lemma_recurred_shape(a, w, state, b, l);
    let (r, kept, next) = a.apply(x, conv, state);
    assert(w.out.shape == heads_of(b, l, nv, dv));
    assert forall|ix: Seq<int>| #[trigger]
        in_shape(ix, states(b, l, dim)) implies num(r->Ok_0, ix) == dot(
        a.out_proj@,
        gated_heads(a, x, w.out, ix),
        gated_heads_type(a, x, w.out),
        ix[2],
    ) by {
        lemma_net_output_at(a, x, w.out, b, l, dim, ix);
    }
    assert forall|ix: Seq<int>| #[trigger]
        in_shape(ix, states(b, n, a.conv_dim)) implies num(kept->Some_0, ix) == num(
        w.input,
        seq![ix[0], ix[1] + l, ix[2]],
    ) by {
        let total = (n + l) as i32;
        slices_begin_where_asked(input, 1, 1, (total - n) as i32, total, ix);
        assert(ix.update(1, ix[1] + l) =~= seq![ix[0], ix[1] + l, ix[2]]);
    }
    w
}

/// What the layer gives, at an index.
proof fn lemma_net_output_at(
    a: GatedDeltaNet,
    x: Term,
    out: Term,
    b: i32,
    l: i32,
    dim: i32,
    ix: Seq<int>,
)
    requires
        net_goes(a, dim),
        sizes(b, l, a.num_v_heads, a.head_v_dim),
        x.shape == states(b, l, dim),
        out.shape == heads_of(b, l, a.num_v_heads, a.head_v_dim),
        in_shape(ix, states(b, l, dim)),
    ensures
        t_linear(
            a.out_proj@,
            t_reshape(a.norm.apply(Ok(out), Some(a.gate(x))), seq![b, l, -1i32]),
        ) matches Ok(r) && num(r, ix) == dot(
            a.out_proj@,
            gated_heads(a, x, out, ix),
            gated_heads_type(a, x, out),
            ix[2],
        ),
{
    let s = states(b, l, dim);
    assert(0 <= ix[0] < s[0] && 0 <= ix[1] < s[1] && 0 <= ix[2] < s[2]);
    let vd = a.value_dim;
    assert(vd > 0) by (nonlinear_arith)
        requires
            a.num_v_heads > 0,
            a.head_v_dim > 0,
            vd == a.num_v_heads * a.head_v_dim,
    ;
    let y = t_reshape(a.norm.apply(Ok(out), Some(a.gate(x))), seq![b, l, -1i32])->Ok_0;
    let want = gated_heads(a, x, out, ix);
    let zx = ix.update(2, 0);
    assert(in_shape(zx, states(b, l, vd)));
    lemma_gated_head_at(a, x, out, b, l, dim, zx);
    assert forall|f: int| 0 <= f < want.len() implies (#[trigger] num(y, ix.update(2, f))).e
        == want[f] by {
        let jx = ix.update(2, f);
        assert(in_shape(jx, states(b, l, vd)));
        lemma_gated_head_at(a, x, out, b, l, dim, jx);
    }
    lemma_row(y, ix, want);
    assert(y.shape.update(2, dim) =~= s);
    linear_layers_go_by_row(a.out_proj@, y, vd, dim, ix);
}

/// The channels of the convolution under heads.
proof fn lemma_channels(a: GatedDeltaNet, x: Term, input: Term, c: Term, b: i32, l: i32)
    requires
        sizes(b, l, a.num_k_heads, a.head_k_dim),
        sizes(b, l, a.num_v_heads, a.head_v_dim),
        a.key_dim == a.num_k_heads * a.head_k_dim,
        a.value_dim == a.num_v_heads * a.head_v_dim,
        a.conv_dim == a.key_dim + a.key_dim + a.value_dim,
        x.shape.len() == 3 && x.shape[0] == b && x.shape[1] == l,
        t_silu(a.conv1d.apply(Ok(input))) == Ok::<Term, Exception>(c),
        c.shape == states(b, l, a.conv_dim),
    ensures
        has_shape(a.queries(x, input), heads_of(b, l, a.num_k_heads, a.head_k_dim)),
        has_shape(a.keys(x, input), heads_of(b, l, a.num_k_heads, a.head_k_dim)),
        has_shape(a.values(x, input), heads_of(b, l, a.num_v_heads, a.head_v_dim)),
        forall|ix: Seq<int>| #[trigger]
            in_shape(ix, heads_of(b, l, a.num_k_heads, a.head_k_dim)) ==> num(
                a.queries(x, input)->Ok_0,
                ix,
            ) == scaled_head(
                channels(c, ix, ix[2] * a.head_k_dim, a.head_k_dim),
                c.dtype,
                Scalar::Product(
                    Arc::new(one_over_root(a.head_k_dim)),
                    Arc::new(one_over_root(a.head_k_dim)),
                ),
                ix[3],
            ) && num(a.keys(x, input)->Ok_0, ix) == scaled_head(
                channels(
                    c,
                    ix,
                    a.num_k_heads * a.head_k_dim + ix[2] * a.head_k_dim,
                    a.head_k_dim,
                ),
                c.dtype,
                one_over_root(a.head_k_dim),
                ix[3],
            ),
        forall|ix: Seq<int>| #[trigger]
            in_shape(ix, heads_of(b, l, a.num_v_heads, a.head_v_dim)) ==> num(
                a.values(x, input)->Ok_0,
                ix,
            ) == num(
                c,
                seq![
                    ix[0],
                    ix[1],
                    2 * (a.num_k_heads * a.head_k_dim) + (ix[2] * a.head_v_dim + ix[3]),
                ],
            ),
{
    let (nk, nv, dk, dv) = (a.num_k_heads, a.num_v_heads, a.head_k_dim, a.head_v_dim);
    let (kd, width) = (a.key_dim, a.conv_dim);
    let two = (2 * kd) as i32;
    let s = one_over_root(dk);
    let ss = Scalar::Product(Arc::new(s), Arc::new(s));
    let zero = seq![0int, 0, 0, 0];
    assert(nk * dk > 0 && nv * dv > 0) by (nonlinear_arith)
        requires
            nk > 0,
            dk > 0,
            nv > 0,
            dv > 0,
    ;
    assert(in_shape(zero, heads_of(b, l, nk, dk)));
    assert(in_shape(zero, heads_of(b, l, nv, dv)));
    lemma_scaled_at(c, b, l, width, 0, kd, nk, dk, ss, zero);
    lemma_scaled_at(c, b, l, width, kd, two, nk, dk, s, zero);
    lemma_stretch_at(c, b, l, width, two, OPEN, nv, dv, zero);
    assert forall|ix: Seq<int>| #[trigger] in_shape(ix, heads_of(b, l, nk, dk)) implies num(
        a.queries(x, input)->Ok_0,
        ix,
    ) == scaled_head(channels(c, ix, ix[2] * dk, dk), c.dtype, ss, ix[3]) && num(
        a.keys(x, input)->Ok_0,
        ix,
    ) == scaled_head(channels(c, ix, nk * dk + ix[2] * dk, dk), c.dtype, s, ix[3]) by {
        lemma_scaled_at(c, b, l, width, 0, kd, nk, dk, ss, ix);
        lemma_scaled_at(c, b, l, width, kd, two, nk, dk, s, ix);
        assert(0 + ix[2] * dk == ix[2] * dk);
    }
    assert forall|ix: Seq<int>| #[trigger] in_shape(ix, heads_of(b, l, nv, dv)) implies num(
        a.values(x, input)->Ok_0,
        ix,
    ) == num(c, seq![ix[0], ix[1], 2 * (nk * dk) + (ix[2] * dv + ix[3])]) by {
        lemma_stretch_at(c, b, l, width, two, OPEN, nv, dv, ix);
    }
}

/// What the recurrence gives has the shape of the values.
proof fn lemma_recurred_shape(
    a: GatedDeltaNet,
    w: NetParts,
    state: Option<Term>,
    b: i32,
    l: i32,
)
    requires
        b > 0,
        l > 0,
        b * a.num_v_heads <= i32::MAX,
        a.num_k_heads > 0,
        a.num_v_heads >= a.num_k_heads,
        a.num_v_heads % a.num_k_heads == 0,
        a.head_k_dim > 0,
        a.head_v_dim > 0,
        w.q.shape == heads_of(b, l, a.num_k_heads, a.head_k_dim),
        w.k.shape == heads_of(b, l, a.num_k_heads, a.head_k_dim),
        w.v.shape == heads_of(b, l, a.num_v_heads, a.head_v_dim),
        w.g.shape == states(b, l, a.num_v_heads),
        w.beta.shape == states(b, l, a.num_v_heads),
        state matches Some(s) ==> is_single(
            Ok(s),
            seq![b, a.num_v_heads, a.head_v_dim, a.head_k_dim],
        ),
    ensures
        ({
            let r = if a.by_ops {
                scanned(w.q, w.k, w.v, w.g, w.beta, state)
            } else {
                kernel_scanned(w.q, w.k, w.v, w.g, w.beta, state)
            };
            r matches Ok(p) && p.0.shape == heads_of(b, l, a.num_v_heads, a.head_v_dim)
        }),
{
    let (nk, nv, dk, dv) = (a.num_k_heads, a.num_v_heads, a.head_k_dim, a.head_v_dim);
    if a.by_ops {
        the_delta_rule_keeps_shapes(w.q, w.k, w.v, w.g, w.beta, state, b, l, nk, nv, dk, dv);
    } else {
        lemma_kernel(w.q, w.k, w.v, w.g, w.beta, state, b, l, nk, nv, dk, dv);
    }
}

} // verus!
