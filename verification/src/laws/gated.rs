//! What feed-forward layers compute, element by element.
//!
//! A layer reads the row of a position and nothing else. Its projections have roles: one is
//! activated and gates the other.

use crate::array::{BinaryOp, Dtype, Term, UnaryOp};
use crate::laws::elements::{
    dot, dot_type, functions_go_by_element, lemma_along_last, lemma_dot_type, lemma_num_type,
    lemma_row, lemma_same_row, linear_layers_go_by_row, num, pair, pairs_go_together, row_of,
    single, Num,
};
use crate::laws::shapes::goes;
use crate::meaning::{in_shape, length_of, Elem};
use crate::models::{deepseek_v2, gemma3, glm4, llama, qwen2, qwen3};
use crate::models::qwen3_5_vision::VisionMlp;
use crate::nn::{t_linear, LinearTerm};
use crate::ops::elementwise::{binary_dtype, t_multiply, t_unary, unary_dtype};
use crate::ops::select::{raw_slice, raw_split_half, t_split_half};
use vstd::prelude::*;

verus! {

/// Hidden feature `f` of a gated layer: the activated product with row `f` of the gating weight,
/// times the product with row `f` of the other.
pub open spec fn gated_feature(
    act: UnaryOp,
    gate: LinearTerm,
    up: LinearTerm,
    row: Seq<Elem>,
    t: Dtype,
    f: int,
) -> Num {
    pair(BinaryOp::Multiply, single(act, dot(gate, row, t, f)), dot(up, row, t, f))
}

/// The type of the hidden features of a gated layer.
pub open spec fn gated_type(act: UnaryOp, gate: LinearTerm, up: LinearTerm, t: Dtype) -> Dtype {
    binary_dtype(
        BinaryOp::Multiply,
        unary_dtype(act, dot_type(gate, t)),
        dot_type(up, t),
    )
}

/// The hidden features of a gated layer.
pub open spec fn gated_row(
    act: UnaryOp,
    gate: LinearTerm,
    up: LinearTerm,
    hidden: i32,
    row: Seq<Elem>,
    t: Dtype,
) -> Seq<Elem> {
    Seq::new(length_of(hidden), |f: int| gated_feature(act, gate, up, row, t, f).e)
}

/// Feature `c` of a gated layer with `hidden` features inside.
pub open spec fn gated(
    act: UnaryOp,
    gate: LinearTerm,
    up: LinearTerm,
    down: LinearTerm,
    hidden: i32,
    row: Seq<Elem>,
    t: Dtype,
    c: int,
) -> Num {
    dot(down, gated_row(act, gate, up, hidden, row, t), gated_type(act, gate, up, t), c)
}

proof fn lemma_gated_hidden(
    act: UnaryOp,
    gate: LinearTerm,
    up: LinearTerm,
    x: Term,
    dim: i32,
    hidden: i32,
    ix: Seq<int>,
)
    requires
        goes(gate, dim, hidden),
        goes(up, dim, hidden),
        hidden > 0,
        x.shape.len() >= 2,
        x.shape.last() == dim,
        in_shape(ix, x.shape),
    ensures
        t_multiply(t_unary(act, t_linear(gate, Ok(x))), t_linear(up, Ok(x))) matches Ok(h)
            && h.shape == x.shape.update(x.shape.len() - 1, hidden) && h.dtype == gated_type(
            act,
            gate,
            up,
            x.dtype,
        ) && row_of(h, ix) == gated_row(act, gate, up, hidden, row_of(x, ix), x.dtype),
{
    let k = ix.len() - 1;
    let h = t_multiply(t_unary(act, t_linear(gate, Ok(x))), t_linear(up, Ok(x)))->Ok_0;
    let want = gated_row(act, gate, up, hidden, row_of(x, ix), x.dtype);
    lemma_gated_at(act, gate, up, x, dim, hidden, ix, 0);
    assert forall|f: int| 0 <= f < want.len() implies (#[trigger] num(h, ix.update(k, f))).e
        == want[f] by {
        lemma_gated_at(act, gate, up, x, dim, hidden, ix, f);
    }
    lemma_row(h, ix, want);
}

proof fn lemma_gated_at(
    act: UnaryOp,
    gate: LinearTerm,
    up: LinearTerm,
    x: Term,
    dim: i32,
    hidden: i32,
    ix: Seq<int>,
    f: int,
)
    requires
        goes(gate, dim, hidden),
        goes(up, dim, hidden),
        0 <= f < hidden,
        x.shape.len() >= 2,
        x.shape.last() == dim,
        in_shape(ix, x.shape),
    ensures
        t_multiply(t_unary(act, t_linear(gate, Ok(x))), t_linear(up, Ok(x))) matches Ok(h)
            && h.shape == x.shape.update(x.shape.len() - 1, hidden) && h.dtype == gated_type(
            act,
            gate,
            up,
            x.dtype,
        ) && num(h, ix.update(ix.len() - 1, f)) == gated_feature(
            act,
            gate,
            up,
            row_of(x, ix),
            x.dtype,
            f,
        ),
{
    let k = ix.len() - 1;
    let jx = ix.update(k, f);
    lemma_along_last(ix, x.shape, hidden, f);
    lemma_same_row(x, ix, f);
    linear_layers_go_by_row(gate, x, dim, hidden, jx);
    linear_layers_go_by_row(up, x, dim, hidden, jx);
    let (g, u) = (t_linear(gate, Ok(x))->Ok_0, t_linear(up, Ok(x))->Ok_0);
    functions_go_by_element(act, g, jx);
    let a = t_unary(act, Ok(g))->Ok_0;
    pairs_go_together(BinaryOp::Multiply, a, u, jx);
    lemma_dot_type(gate, row_of(x, ix), x.dtype, f);
    lemma_dot_type(up, row_of(x, ix), x.dtype, f);
    lemma_num_type(t_multiply(Ok(a), Ok(u))->Ok_0, jx);
}

/// A gated layer, at an index.
proof fn lemma_gated(
    act: UnaryOp,
    gate: LinearTerm,
    up: LinearTerm,
    down: LinearTerm,
    x: Term,
    dim: i32,
    hidden: i32,
    ix: Seq<int>,
)
    requires
        goes(gate, dim, hidden),
        goes(up, dim, hidden),
        goes(down, hidden, dim),
        hidden > 0,
        x.shape.len() >= 2,
        x.shape.last() == dim,
        in_shape(ix, x.shape),
    ensures
        t_linear(
            down,
            t_multiply(t_unary(act, t_linear(gate, Ok(x))), t_linear(up, Ok(x))),
        ) matches Ok(r) && r.shape == x.shape && num(r, ix) == gated(
            act,
            gate,
            up,
            down,
            hidden,
            row_of(x, ix),
            x.dtype,
            ix.last(),
        ),
{
    lemma_gated_hidden(act, gate, up, x, dim, hidden, ix);
    let k = ix.len() - 1;
    let h = t_multiply(t_unary(act, t_linear(gate, Ok(x))), t_linear(up, Ok(x)))->Ok_0;
    assert(h.shape.update(k, dim) =~= x.shape);
    linear_layers_go_by_row(down, h, hidden, dim, ix);
}

/// In a feed-forward layer `gate_proj` is activated and gates `up_proj`, and `down_proj` brings the
/// hidden features back; every position by itself.
pub proof fn llama_gates_the_up_projection(
    m: llama::Mlp,
    x: Term,
    dim: i32,
    hidden: i32,
    ix: Seq<int>,
)
    requires
        goes(m.gate_proj@, dim, hidden),
        goes(m.up_proj@, dim, hidden),
        goes(m.down_proj@, hidden, dim),
        hidden > 0,
        x.shape.len() >= 2,
        x.shape.last() == dim,
        in_shape(ix, x.shape),
    ensures
        m.apply(Ok(x)) matches Ok(r) && r.shape == x.shape && num(r, ix) == gated(
            UnaryOp::Silu,
            m.gate_proj@,
            m.up_proj@,
            m.down_proj@,
            hidden,
            row_of(x, ix),
            x.dtype,
            ix.last(),
        ),
{
    lemma_gated(
        UnaryOp::Silu,
        m.gate_proj@,
        m.up_proj@,
        m.down_proj@,
        x,
        dim,
        hidden,
        ix,
    );
}

/// The same of this layer.
pub proof fn qwen2_gates_the_up_projection(
    m: qwen2::Mlp,
    x: Term,
    dim: i32,
    hidden: i32,
    ix: Seq<int>,
)
    requires
        goes(m.gate_proj@, dim, hidden),
        goes(m.up_proj@, dim, hidden),
        goes(m.down_proj@, hidden, dim),
        hidden > 0,
        x.shape.len() >= 2,
        x.shape.last() == dim,
        in_shape(ix, x.shape),
    ensures
        m.apply(Ok(x)) matches Ok(r) && r.shape == x.shape && num(r, ix) == gated(
            UnaryOp::Silu,
            m.gate_proj@,
            m.up_proj@,
            m.down_proj@,
            hidden,
            row_of(x, ix),
            x.dtype,
            ix.last(),
        ),
{
    lemma_gated(
        UnaryOp::Silu,
        m.gate_proj@,
        m.up_proj@,
        m.down_proj@,
        x,
        dim,
        hidden,
        ix,
    );
}

/// The same of this layer.
pub proof fn qwen3_gates_the_up_projection(
    m: qwen3::Mlp,
    x: Term,
    dim: i32,
    hidden: i32,
    ix: Seq<int>,
)
    requires
        goes(m.gate_proj@, dim, hidden),
        goes(m.up_proj@, dim, hidden),
        goes(m.down_proj@, hidden, dim),
        hidden > 0,
        x.shape.len() >= 2,
        x.shape.last() == dim,
        in_shape(ix, x.shape),
    ensures
        m.apply(Ok(x)) matches Ok(r) && r.shape == x.shape && num(r, ix) == gated(
            UnaryOp::Silu,
            m.gate_proj@,
            m.up_proj@,
            m.down_proj@,
            hidden,
            row_of(x, ix),
            x.dtype,
            ix.last(),
        ),
{
    lemma_gated(
        UnaryOp::Silu,
        m.gate_proj@,
        m.up_proj@,
        m.down_proj@,
        x,
        dim,
        hidden,
        ix,
    );
}

/// The same of this layer.
pub proof fn deepseek_gates_the_up_projection(
    m: deepseek_v2::DeepseekV2MLP,
    x: Term,
    dim: i32,
    hidden: i32,
    ix: Seq<int>,
)
    requires
        goes(m.gate_proj@, dim, hidden),
        goes(m.up_proj@, dim, hidden),
        goes(m.down_proj@, hidden, dim),
        hidden > 0,
        x.shape.len() >= 2,
        x.shape.last() == dim,
        in_shape(ix, x.shape),
    ensures
        m.apply(Ok(x)) matches Ok(r) && r.shape == x.shape && num(r, ix) == gated(
            UnaryOp::Silu,
            m.gate_proj@,
            m.up_proj@,
            m.down_proj@,
            hidden,
            row_of(x, ix),
            x.dtype,
            ix.last(),
        ),
{
    lemma_gated(
        UnaryOp::Silu,
        m.gate_proj@,
        m.up_proj@,
        m.down_proj@,
        x,
        dim,
        hidden,
        ix,
    );
}

/// The same of this layer, with another activation.
pub proof fn gemma3_gates_the_up_projection(
    m: gemma3::Mlp,
    x: Term,
    dim: i32,
    hidden: i32,
    ix: Seq<int>,
)
    requires
        goes(m.gate_proj@, dim, hidden),
        goes(m.up_proj@, dim, hidden),
        goes(m.down_proj@, hidden, dim),
        hidden > 0,
        x.shape.len() >= 2,
        x.shape.last() == dim,
        in_shape(ix, x.shape),
    ensures
        m.apply(Ok(x)) matches Ok(r) && r.shape == x.shape && num(r, ix) == gated(
            UnaryOp::GeluApproximate,
            m.gate_proj@,
            m.up_proj@,
            m.down_proj@,
            hidden,
            row_of(x, ix),
            x.dtype,
            ix.last(),
        ),
{
    lemma_gated(
        UnaryOp::GeluApproximate,
        m.gate_proj@,
        m.up_proj@,
        m.down_proj@,
        x,
        dim,
        hidden,
        ix,
    );
}

/// Hidden feature `f` of a layer whose gating and other weight are the halves of one.
pub open spec fn halved_feature(
    both: LinearTerm,
    hidden: i32,
    row: Seq<Elem>,
    t: Dtype,
    f: int,
) -> Num {
    pair(
        BinaryOp::Multiply,
        single(UnaryOp::Silu, dot(both, row, t, f)),
        dot(both, row, t, hidden + f),
    )
}

/// The hidden features of such a layer.
pub open spec fn halved_row(both: LinearTerm, hidden: i32, row: Seq<Elem>, t: Dtype) -> Seq<Elem> {
    Seq::new(length_of(hidden), |f: int| halved_feature(both, hidden, row, t, f).e)
}

/// A half of the last axis.
proof fn lemma_half_at(y: Term, half: i32, n: i32, ix: Seq<int>, f: int)
    requires
        half == 0 || half == 1,
        y.shape.len() > 0,
        0 <= n,
        2 * n <= i32::MAX,
        y.shape.last() == 2 * n,
        ix.len() == y.shape.len(),
        y.shape.len() <= 4,
        0 <= f < n,
    ensures
        t_split_half(Ok(y), -1i32, half) matches Ok(r) && r.shape == y.shape.update(
            y.shape.len() - 1,
            n,
        ) && num(r, ix.update(ix.len() - 1, f)) == num(
            y,
            ix.update(ix.len() - 1, half * n + f),
        ),
{
    reveal(raw_split_half);
    reveal(raw_slice);
    reveal(num);
    let k = ix.len() - 1;
    let r = t_split_half(Ok(y), -1i32, half)->Ok_0;
    assert((2 * n) % 2 == 0 && (2 * n) / 2 == n);
    assert(half * n == 0 || half * n == n) by (nonlinear_arith)
        requires
            half == 0 || half == 1,
    ;
    assert(r.args[0] == y);
    assert(ix.update(k, f).update(k, f + half * n) =~= ix.update(k, half * n + f));
}

/// In this feed-forward layer the first half of the rows of `gate_up_proj` is activated and gates
/// the second.
pub proof fn glm4_gates_the_second_half(
    m: glm4::Mlp,
    x: Term,
    dim: i32,
    hidden: i32,
    ix: Seq<int>,
)
    requires
        0 < hidden,
        2 * hidden <= i32::MAX,
        goes(m.gate_up_proj@, dim, (2 * hidden) as i32),
        goes(m.down_proj@, hidden, dim),
        2 <= x.shape.len() <= 4,
        x.shape.last() == dim,
        in_shape(ix, x.shape),
    ensures
        m.apply(Ok(x)) matches Ok(r) && r.shape == x.shape && num(r, ix) == dot(
            m.down_proj@,
            halved_row(m.gate_up_proj@, hidden, row_of(x, ix), x.dtype),
            gated_type(UnaryOp::Silu, m.gate_up_proj@, m.gate_up_proj@, x.dtype),
            ix.last(),
        ),
{
    let k = ix.len() - 1;
    let w = m.gate_up_proj@;
    let both = t_linear(w, Ok(x));
    let h = t_multiply(
        t_unary(UnaryOp::Silu, t_split_half(both, -1i32, 0)),
        t_split_half(both, -1i32, 1),
    );
    let want = halved_row(w, hidden, row_of(x, ix), x.dtype);
    lemma_halved_at(w, x, dim, hidden, ix, 0);
    assert forall|f: int| 0 <= f < want.len() implies (#[trigger] num(
        h->Ok_0,
        ix.update(k, f),
    )).e == want[f] by {
        lemma_halved_at(w, x, dim, hidden, ix, f);
    }
    lemma_row(h->Ok_0, ix, want);
    assert(h->Ok_0.shape.update(k, dim) =~= x.shape);
    linear_layers_go_by_row(m.down_proj@, h->Ok_0, hidden, dim, ix);
}

proof fn lemma_halved_at(
    w: LinearTerm,
    x: Term,
    dim: i32,
    hidden: i32,
    ix: Seq<int>,
    f: int,
)
    requires
        0 < hidden,
        2 * hidden <= i32::MAX,
        goes(w, dim, (2 * hidden) as i32),
        2 <= x.shape.len() <= 4,
        x.shape.last() == dim,
        in_shape(ix, x.shape),
        0 <= f < hidden,
    ensures
        ({
            let both = t_linear(w, Ok(x));
            let k = ix.len() - 1;
            t_multiply(
                t_unary(UnaryOp::Silu, t_split_half(both, -1i32, 0)),
                t_split_half(both, -1i32, 1),
            ) matches Ok(h) && h.shape == x.shape.update(k, hidden) && h.dtype == gated_type(
                UnaryOp::Silu,
                w,
                w,
                x.dtype,
            ) && num(h, ix.update(k, f)) == halved_feature(w, hidden, row_of(x, ix), x.dtype, f)
        }),
{
    let k = ix.len() - 1;
    let n = (2 * hidden) as i32;
    let y = t_linear(w, Ok(x))->Ok_0;
    lemma_along_last(ix, x.shape, n, f);
    lemma_along_last(ix, x.shape, n, hidden + f);
    lemma_same_row(x, ix, f);
    lemma_same_row(x, ix, hidden + f);
    linear_layers_go_by_row(w, x, dim, n, ix.update(k, f));
    linear_layers_go_by_row(w, x, dim, n, ix.update(k, hidden + f));
    lemma_half_at(y, 0, hidden, ix, f);
    lemma_half_at(y, 1, hidden, ix, f);
    let (g, u) = (
        t_split_half(Ok(y), -1i32, 0)->Ok_0,
        t_split_half(Ok(y), -1i32, 1)->Ok_0,
    );
    let jx = ix.update(k, f);
    assert(y.shape.update(k, hidden) =~= x.shape.update(k, hidden));
    assert(0 * hidden + f == f && 1 * hidden + f == hidden + f);
    lemma_along_last(ix, x.shape, hidden, f);
    functions_go_by_element(UnaryOp::Silu, g, jx);
    let a = t_unary(UnaryOp::Silu, Ok(g))->Ok_0;
    pairs_go_together(BinaryOp::Multiply, a, u, jx);
    lemma_dot_type(w, row_of(x, ix), x.dtype, f);
    lemma_dot_type(w, row_of(x, ix), x.dtype, hidden + f);
    lemma_num_type(t_multiply(Ok(a), Ok(u))->Ok_0, jx);
}

/// The activated products of a row with a weight of `hidden` rows.
pub open spec fn activated_row(
    act: UnaryOp,
    l: LinearTerm,
    hidden: i32,
    row: Seq<Elem>,
    t: Dtype,
) -> Seq<Elem> {
    Seq::new(length_of(hidden), |f: int| single(act, dot(l, row, t, f)).e)
}

/// The feed-forward layer of the vision tower activates every product with `linear_fc1` and brings
/// them back with `linear_fc2`.
pub proof fn the_tower_activates_between_two_layers(
    m: VisionMlp,
    x: Term,
    dim: i32,
    hidden: i32,
    ix: Seq<int>,
)
    requires
        hidden > 0,
        goes(m.linear_fc1@, dim, hidden),
        goes(m.linear_fc2@, hidden, dim),
        x.shape.len() >= 2,
        x.shape.last() == dim,
        in_shape(ix, x.shape),
    ensures
        m.apply(Ok(x)) matches Ok(r) && r.shape == x.shape && num(r, ix) == dot(
            m.linear_fc2@,
            activated_row(
                UnaryOp::GeluApproximate,
                m.linear_fc1@,
                hidden,
                row_of(x, ix),
                x.dtype,
            ),
            unary_dtype(UnaryOp::GeluApproximate, dot_type(m.linear_fc1@, x.dtype)),
            ix.last(),
        ),
{
    lemma_activated_between(
        UnaryOp::GeluApproximate,
        m.linear_fc1@,
        m.linear_fc2@,
        x,
        dim,
        hidden,
        dim,
        ix,
    );
    assert(x.shape.update(x.shape.len() - 1, dim) =~= x.shape);
}

proof fn lemma_activated_between(
    act: UnaryOp,
    first: LinearTerm,
    second: LinearTerm,
    x: Term,
    dim: i32,
    hidden: i32,
    out: i32,
    ix: Seq<int>,
)
    requires
        hidden > 0,
        goes(first, dim, hidden),
        goes(second, hidden, out),
        x.shape.len() >= 2,
        x.shape.last() == dim,
        in_shape(ix, x.shape.update(x.shape.len() - 1, out)),
    ensures
        t_linear(second, t_unary(act, t_linear(first, Ok(x)))) matches Ok(r) && r.shape
            == x.shape.update(x.shape.len() - 1, out) && num(r, ix) == dot(
            second,
            activated_row(act, first, hidden, row_of(x, ix), x.dtype),
            unary_dtype(act, dot_type(first, x.dtype)),
            ix.last(),
        ),
{
    let k = ix.len() - 1;
    let h = t_unary(act, t_linear(first, Ok(x)));
    let want = activated_row(act, first, hidden, row_of(x, ix), x.dtype);
    let s = x.shape.update(k, out);
    assert(s.update(k, hidden) =~= x.shape.update(k, hidden));
    lemma_activated_at(act, first, x, dim, hidden, out, ix, 0);
    assert forall|f: int| 0 <= f < want.len() implies (#[trigger] num(
        h->Ok_0,
        ix.update(k, f),
    )).e == want[f] by {
        lemma_activated_at(act, first, x, dim, hidden, out, ix, f);
    }
    lemma_row(h->Ok_0, ix, want);
    assert(h->Ok_0.shape.update(k, out) =~= s);
    linear_layers_go_by_row(second, h->Ok_0, hidden, out, ix);
}

proof fn lemma_activated_at(
    act: UnaryOp,
    first: LinearTerm,
    x: Term,
    dim: i32,
    hidden: i32,
    out: i32,
    ix: Seq<int>,
    f: int,
)
    requires
        goes(first, dim, hidden),
        x.shape.len() >= 2,
        x.shape.last() == dim,
        in_shape(ix, x.shape.update(x.shape.len() - 1, out)),
        0 <= f < hidden,
    ensures
        t_unary(act, t_linear(first, Ok(x))) matches Ok(h) && h.shape == x.shape.update(
            x.shape.len() - 1,
            hidden,
        ) && h.dtype == unary_dtype(act, dot_type(first, x.dtype)) && num(
            h,
            ix.update(ix.len() - 1, f),
        ) == single(act, dot(first, row_of(x, ix), x.dtype, f)),
{
    let k = ix.len() - 1;
    let s = x.shape.update(k, out);
    assert(s.update(k, hidden) =~= x.shape.update(k, hidden));
    let jx = ix.update(k, f);
    lemma_along_last(ix, s, hidden, f);
    lemma_same_row(x, ix, f);
    linear_layers_go_by_row(first, x, dim, hidden, jx);
    let y = t_linear(first, Ok(x))->Ok_0;
    functions_go_by_element(act, y, jx);
    lemma_dot_type(first, row_of(x, ix), x.dtype, f);
    lemma_num_type(t_unary(act, Ok(y))->Ok_0, jx);
}

} // verus!
