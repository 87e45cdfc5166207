//! Reading a prompt in parts: linear attention.
//!
//! The inputs kept for the convolution and the state of the recurrence keep track of a run as the
//! cache of full attention does: behind `p` positions they are what one pass over the whole run
//! has there.

use crate::array::{promoted, BinaryOp, Dtype, Kind, Term, Tn, UnaryOp};
use crate::error::Exception;
use crate::fast::{raw_rms_norm, t_rms_norm};
use crate::laws::arrays::{a_part_converts, part_on, same_array};
use crate::laws::delta::{
    are_parts, lemma_casts, lemma_output, lemma_part_scan, lemma_part_spread, lemma_same_output,
    scan_goes, scan_input,
};
use crate::laws::hybrid::scan_carries_over;
use crate::laws::hybrid_model::{
    lemma_features, lemma_grouped, lemma_kernel, lemma_net_input, lemma_ungrouped, net_goes,
    net_keeps,
};
use crate::laws::parts::{
    all_is_a_part, constants_on_parts, cuts_on_parts, grouping_on_parts, held_by, joining_on_parts,
    lemma_is_reshape, lemma_last_rows, lemma_moved, linear_on_parts, moved, norms_on_parts,
    pairs_on_parts, same_for_all, unary_on_parts,
};
use crate::laws::shapes::{a_linear_layer_keeps_rows, has_shape, is_single, lemma_spread};
use crate::meaning::{
    computed, delta_row, elem, in_shape, is_delta_launch, key_head, last_row, length_of, window,
};
use crate::models::gated_delta::{decay, first_state, kernel_scanned, scan, scanned, ScanInput};
use crate::models::qwen3_5::{normalized_times, power_minus_half, GatedDeltaNet, NORM_EPS_BITS};
use crate::nn::t_linear;
use crate::ops::create::{t_int, t_scalar};
use crate::ops::elementwise::{
    raw_cast, raw_unary, t_add, t_cast, t_exp, t_multiply, t_negative, t_sigmoid, t_silu,
    t_softplus,
};
use crate::ops::layout::t_reshape;
use crate::ops::product::raw_conv1d;
use crate::ops::select::{raw_concatenate, raw_slice, t_concatenate, t_slice, t_stack, OPEN};
use crate::scalar::{Float, Scalar};
use crate::shape::{broadcast_shape, no_negative};
use vstd::prelude::*;

verus! {

/// The shape of `l` positions of `c` features for `b` rows.
pub open spec fn rows(b: i32, l: i32, c: i32) -> Seq<i32> {
    seq![b, l, c]
}

/// Everything that the convolution reads in one pass over a run.
pub open spec fn run_input(a: GatedDeltaNet, w: Term, start: Option<Term>) -> Term {
    a.conv_input(w, start)->Ok_0
}

/// Whether the inputs kept for the convolution stand behind the first `p` positions of a run.
pub open spec fn conv_tracks(
    a: GatedDeltaNet,
    w: Term,
    start: Option<Term>,
    conv: Option<Term>,
    p: int,
    b: i32,
) -> bool {
    let e = a.earlier(w, conv);
    let kept = rows(b, (a.conv_kernel_size - 1) as i32, a.conv_dim);
    let all = run_input(a, w, start);
    &&& has_shape(e, kept)
    &&& promoted(e->Ok_0.dtype, t_linear(a.in_proj_qkv@, Ok(w))->Ok_0.dtype) == all.dtype
    &&& forall|ix: Seq<int>| #[trigger]
        in_shape(ix, kept) ==> elem(e->Ok_0, ix) == elem(all, ix.update(1, ix[1] + p))
}

/// The elements of what the convolution reads.
proof fn lemma_input_elems(
    e: Term,
    q: Term,
    b: i32,
    n: i32,
    l: i32,
    c: i32,
)
    requires
        e.shape == seq![b, n, c],
        q.shape == seq![b, l, c],
        0 <= n,
        0 <= l,
        n + l <= i32::MAX,
    ensures
        ({
            let t = t_concatenate(Ok(e), Ok(q), 1);
            &&& has_shape(t, seq![b, (n + l) as i32, c])
            &&& t->Ok_0.dtype == promoted(e.dtype, q.dtype)
            &&& forall|ix: Seq<int>| #[trigger]
                in_shape(ix, rows(b, (n + l) as i32, c)) ==> elem(t->Ok_0, ix) == if ix[1] < n {
                    elem(e, ix)
                } else {
                    elem(q, ix.update(1, ix[1] - n))
                }
        }),
{
    reveal(raw_concatenate);
    assert(seq![b, n, c].update(1, 0) =~= seq![b, l, c].update(1, 0));
    assert(seq![b, n, c].update(1, (n + l) as i32) =~= seq![b, (n + l) as i32, c]);
    let t = t_concatenate(Ok(e), Ok(q), 1)->Ok_0;
    assert(t.args[0] == e && t.args[1] == q);
}

/// At its start a run is behind nothing.
pub proof fn a_convolution_starts(
    a: GatedDeltaNet,
    w: Term,
    start: Option<Term>,
    b: i32,
    t: i32,
    dim: i32,
)
    requires
        b > 0,
        t > 0,
        net_goes(a, dim),
        w.shape == seq![b, t, dim],
        start matches Some(c) ==> c.shape == seq![
            b,
            (a.conv_kernel_size - 1) as i32,
            a.conv_dim,
        ],
        t + a.conv_kernel_size <= i32::MAX,
    ensures
        conv_tracks(a, w, start, start, 0, b),
{
    let n = (a.conv_kernel_size - 1) as i32;
    let c = a.conv_dim;
    lemma_net_input(a, w, start, b, t, dim);
    a_linear_layer_keeps_rows(a.in_proj_qkv@, Ok(w), b, t, dim, c);
    let e = a.earlier(w, start);
    assert(has_shape(e, seq![b, n, c])) by {
        reveal(raw_cast);
        reveal(raw_concatenate);
    }
    let q = t_linear(a.in_proj_qkv@, Ok(w))->Ok_0;
    lemma_input_elems(e->Ok_0, q, b, n, t, c);
    assert forall|ix: Seq<int>| #[trigger] in_shape(ix, rows(b, n, c)) implies elem(e->Ok_0, ix)
        == elem(run_input(a, w, start), ix.update(1, ix[1] + 0)) by {
        let s = seq![b, n, c];
        assert(0 <= ix[0] < s[0] && 0 <= ix[1] < s[1] && 0 <= ix[2] < s[2]);
        assert(ix.update(1, ix[1] + 0) =~= ix);
        assert(in_shape(ix, rows(b, (n + t) as i32, c)));
    }
}

/// Inputs behind kept ones are a part of all inputs.
proof fn lemma_joined_part(
    e: Term,
    q: Term,
    s: Term,
    r: Term,
    p: int,
    b: i32,
    k: i32,
    n: i32,
    t: i32,
    c: i32,
)
    requires
        0 <= k,
        0 < n,
        0 <= p,
        p + n <= t,
        k + t <= i32::MAX,
        e.shape == rows(b, k, c),
        s.shape == rows(b, k, c),
        q.shape == rows(b, n, c),
        r.shape == rows(b, t, c),
        part_on(q, r, 1, p),
        promoted(e.dtype, r.dtype) == t_concatenate(Ok(s), Ok(r), 1)->Ok_0.dtype,
        forall|ix: Seq<int>| #[trigger]
            in_shape(ix, rows(b, k, c)) ==> elem(e, ix) == elem(
                t_concatenate(Ok(s), Ok(r), 1)->Ok_0,
                ix.update(1, ix[1] + p),
            ),
    ensures
        held_by(
            t_concatenate(Ok(e), Ok(q), 1),
            t_concatenate(Ok(s), Ok(r), 1),
            1,
            p,
            rows(b, (k + n) as i32, c),
            rows(b, (k + t) as i32, c),
        ),
{
    lemma_input_elems(e, q, b, k, n, c);
    lemma_input_elems(s, r, b, k, t, c);
    let input = t_concatenate(Ok(e), Ok(q), 1)->Ok_0;
    let all = t_concatenate(Ok(s), Ok(r), 1)->Ok_0;
    let (small, large) = (rows(b, (k + n) as i32, c), rows(b, (k + t) as i32, c));
    assert(small =~= large.update(1, (k + n) as i32));
    assert forall|ix: Seq<int>| #[trigger] in_shape(ix, small) implies elem(input, ix) == elem(
        all,
        ix.update(1, ix[1] + p),
    ) by {
        assert(0 <= ix[0] < small[0] && 0 <= ix[1] < small[1] && 0 <= ix[2] < small[2]);
        let jx = ix.update(1, ix[1] + p);
        assert(in_shape(jx, large));
        if ix[1] < k {
            assert(in_shape(ix, rows(b, k, c)));
        } else {
            let y = ix.update(1, ix[1] - k);
            assert(in_shape(y, q.shape));
            lemma_moved(y, q, r, 1, p);
            assert(moved(y, 1, p) =~= jx.update(1, jx[1] - k));
        }
    }
}

/// The last inputs of a part.
proof fn lemma_kept_part(
    input: Term,
    all: Term,
    p: int,
    b: i32,
    k: i32,
    n: i32,
    c: i32,
)
    requires
        0 <= k,
        0 < n,
        0 <= p,
        k + n <= i32::MAX,
        input.shape == rows(b, (k + n) as i32, c),
        part_on(input, all, 1, p),
    ensures
        ({
            let z = t_slice(Ok(input), 1, n, (k + n) as i32);
            &&& has_shape(z, rows(b, k, c))
            &&& z->Ok_0.dtype == input.dtype
            &&& forall|ix: Seq<int>| #[trigger]
                in_shape(ix, rows(b, k, c)) ==> elem(z->Ok_0, ix) == elem(
                    all,
                    ix.update(1, ix[1] + (p + n)),
                )
        }),
{
    reveal(raw_slice);
    let small = input.shape;
    assert(small.update(1, k) =~= rows(b, k, c));
    let z = t_slice(Ok(input), 1, n, (k + n) as i32)->Ok_0;
    assert(z.args[0] == input);
    assert forall|ix: Seq<int>| #[trigger] in_shape(ix, rows(b, k, c)) implies elem(z, ix) == elem(
        all,
        ix.update(1, ix[1] + (p + n)),
    ) by {
        let sh = rows(b, k, c);
        assert(0 <= ix[0] < sh[0] && 0 <= ix[1] < sh[1] && 0 <= ix[2] < sh[2]);
        let jx = ix.update(1, ix[1] + n);
        assert(in_shape(jx, small));
        assert(jx.update(1, jx[1] + p) =~= ix.update(1, ix[1] + (p + n)));
    }
}

/// What the convolution reads for the next positions is a part of what it reads in one pass, and
/// what it keeps then stands behind them.
pub proof fn a_convolution_goes_on(
    a: GatedDeltaNet,
    x: Term,
    w: Term,
    start: Option<Term>,
    conv: Option<Term>,
    p: int,
    b: i32,
    n: i32,
    t: i32,
    dim: i32,
)
    requires
        b > 0,
        0 < n,
        0 <= p,
        p + n <= t,
        net_goes(a, dim),
        part_on(x, w, 1, p),
        x.shape == seq![b, n, dim],
        w.shape == seq![b, t, dim],
        t + a.conv_kernel_size <= i32::MAX,
        start matches Some(c) ==> c.shape == seq![
            b,
            (a.conv_kernel_size - 1) as i32,
            a.conv_dim,
        ],
        conv_tracks(a, w, start, conv, p, b),
    ensures
        ({
            let k = (a.conv_kernel_size - 1) as i32;
            let input = a.conv_input(x, conv);
            &&& held_by(
                input,
                a.conv_input(w, start),
                1,
                p,
                seq![b, (k + n) as i32, a.conv_dim],
                seq![b, (k + t) as i32, a.conv_dim],
            )
            &&& a.conv_kept(input->Ok_0) matches Ok(c) && c.shape == seq![b, k, a.conv_dim]
                && conv_tracks(a, w, start, Some(c), p + n, b)
        }),
{
    let k = (a.conv_kernel_size - 1) as i32;
    let c = a.conv_dim;
    linear_on_parts(a.in_proj_qkv@, x, w, p, b, n, t, dim, c);
    let (qx, qw) = (t_linear(a.in_proj_qkv@, Ok(x))->Ok_0, t_linear(a.in_proj_qkv@, Ok(w))->Ok_0);
    lemma_net_input(a, w, start, b, t, dim);
    let e = a.earlier(x, conv);
    assert(e == a.earlier(w, conv));
    let s = a.earlier(w, start);
    assert(has_shape(s, rows(b, k, c))) by {
        reveal(raw_cast);
        reveal(raw_concatenate);
    }
    lemma_joined_part(e->Ok_0, qx, s->Ok_0, qw, p, b, k, n, t, c);
    let input = a.conv_input(x, conv)->Ok_0;
    lemma_kept_part(input, run_input(a, w, start), p, b, k, n, c);
    lemma_promoted(e->Ok_0.dtype, qw.dtype);
}

proof fn lemma_promoted(a: Dtype, b: Dtype)
    ensures
        promoted(promoted(a, b), b) == promoted(a, b),
{
}

/// What an element of a convolution reads is all that it depends on.
proof fn lemma_conv_alike(y: Term, w: Term, ix: Seq<int>, jx: Seq<int>, g: i32)
    requires
        y.kind == (Kind::Conv1d { groups: g }),
        w.kind == (Kind::Conv1d { groups: g }),
        y.args.len() == 2,
        w.args.len() == 2,
        y.args[1] == w.args[1],
        y.args[0].dtype == w.args[0].dtype,
        ix.len() == 3,
        jx.len() == 3,
        ix[2] == jx[2],
        ({
            let k = length_of(y.args[1].shape[1]);
            window(y.args[0], ix[0], ix[1], k) == window(w.args[0], jx[0], jx[1], k)
        }),
    ensures
        elem(y, ix) == elem(w, jx),
{
    reveal(computed);
    assert(elem(y, ix) == computed(y, ix) && elem(w, jx) == computed(w, jx));
}

/// The window of a part is that of the whole.
proof fn lemma_windows(x: Term, w: Term, p: int, i: int, q: int, k: nat)
    requires
        part_on(x, w, 1, p),
        x.shape.len() == 3,
        0 <= i < x.shape[0],
        0 <= q,
        q + k <= x.shape[1],
    ensures
        window(x, i, q, k) == window(w, i, q + p, k),
{
    let (u, v) = (window(x, i, q, k), window(w, i, q + p, k));
    assert forall|j: int| 0 <= j < k implies u[j] == v[j] by {
        let ix = seq![i, q + j, 0];
        lemma_last_rows(ix, x, w, 1, p);
        assert(moved(ix, 1, p) =~= seq![i, q + p + j, 0]);
    }
    assert(u =~= v);
}

/// A convolution that gives every channel a kernel of its own works position by position.
proof fn lemma_convolved(
    a: GatedDeltaNet,
    x: Term,
    w: Term,
    p: int,
    b: i32,
    n: i32,
    t: i32,
    dim: i32,
)
    requires
        b > 0,
        0 < n,
        0 <= p,
        p + n <= t,
        net_goes(a, dim),
        t + a.conv_kernel_size <= i32::MAX,
        part_on(x, w, 1, p),
        x.shape == seq![b, (a.conv_kernel_size - 1 + n) as i32, a.conv_dim],
        w.shape == seq![b, (a.conv_kernel_size - 1 + t) as i32, a.conv_dim],
    ensures
        held_by(
            t_silu(a.conv1d.apply(Ok(x))),
            t_silu(a.conv1d.apply(Ok(w))),
            1,
            p,
            seq![b, n, a.conv_dim],
            seq![b, t, a.conv_dim],
        ),
{
    let c = a.conv_dim;
    let k = a.conv_kernel_size;
    let weight = a.conv1d.weight@;
    assert(c > 0) by {
        assert(a.key_dim > 0 && a.value_dim > 0) by (nonlinear_arith)
            requires
                a.num_k_heads > 0,
                a.head_k_dim > 0,
                a.num_v_heads > 0,
                a.head_v_dim > 0,
                a.key_dim == a.num_k_heads * a.head_k_dim,
                a.value_dim == a.num_v_heads * a.head_v_dim,
        ;
    }
    reveal(raw_conv1d);
    assert(1 * c == c);
    let (y, v) = (a.conv1d.apply(Ok(x))->Ok_0, a.conv1d.apply(Ok(w))->Ok_0);
    assert(y.shape == seq![b, n, c] && v.shape == seq![b, t, c]);
    assert(y.args[0] == x && y.args[1] == weight && v.args[0] == w && v.args[1] == weight);
    assert(y.shape =~= v.shape.update(1, n));
    assert forall|ix: Seq<int>| #[trigger] in_shape(ix, y.shape) implies elem(y, ix) == elem(
        v,
        ix.update(1, ix[1] + p),
    ) by {
        let s = y.shape;
        assert(0 <= ix[0] < s[0] && 0 <= ix[1] < s[1] && 0 <= ix[2] < s[2]);
        let jx = moved(ix, 1, p);
        lemma_windows(x, w, p, ix[0], ix[1], k as nat);
        lemma_conv_alike(y, v, ix, jx, c);
    }
    unary_on_parts(UnaryOp::Silu, y, v, 1, p);
}

/// A stretch of the features behind the convolution, split into heads.
proof fn lemma_stretch_of_heads(
    x: Term,
    w: Term,
    p: int,
    b: i32,
    n: i32,
    t: i32,
    c: i32,
    start: i32,
    stop: i32,
    h: i32,
    d: i32,
)
    requires
        b > 0,
        0 < n,
        0 < t,
        h > 0,
        d > 0,
        b * n <= i32::MAX,
        b * t <= i32::MAX,
        h * d <= i32::MAX,
        part_on(x, w, 1, p),
        x.shape == rows(b, n, c),
        w.shape == rows(b, t, c),
        0 <= start,
        start + h * d <= c,
        stop == start + h * d || (stop == OPEN && start + h * d == c),
    ensures
        held_by(
            t_reshape(t_slice(Ok(x), -1i32, start, stop), seq![b, n, h, d]),
            t_reshape(t_slice(Ok(w), -1i32, start, stop), seq![b, t, h, d]),
            1,
            p,
            seq![b, n, h, d],
            seq![b, t, h, d],
        ),
{
    let e = (h * d) as i32;
    assert(h * d > 0) by (nonlinear_arith)
        requires
            h > 0,
            d > 0,
    ;
    let end = (start + e) as i32;
    lemma_features(Ok(x), b, n, c, start, stop, end);
    assert(rows(b, n, c).update(2, e) =~= rows(b, n, e));
    assert(rows(b, t, c).update(2, e) =~= rows(b, t, e));
    cuts_on_parts(x, w, 1, p, start, stop, e);
    let (sx, sw) = (t_slice(Ok(x), -1i32, start, stop), t_slice(Ok(w), -1i32, start, stop));
    lemma_grouped(sx, b, n, h, d);
    lemma_grouped(sw, b, t, h, d);
    lemma_is_reshape(sx->Ok_0, seq![b, n, h, d]);
    lemma_is_reshape(sw->Ok_0, seq![b, t, h, d]);
    grouping_on_parts(
        sx->Ok_0,
        sw->Ok_0,
        t_reshape(sx, seq![b, n, h, d])->Ok_0,
        t_reshape(sw, seq![b, t, h, d])->Ok_0,
        p,
        b,
        n,
        t,
        h,
        d,
    );
}

/// Heads normalized and scaled.
proof fn lemma_scaled_heads(
    x: Term,
    w: Term,
    scale: Scalar,
    p: int,
    b: i32,
    n: i32,
    t: i32,
    h: i32,
    d: i32,
)
    requires
        part_on(x, w, 1, p),
        x.shape == seq![b, n, h, d],
        w.shape == seq![b, t, h, d],
    ensures
        held_by(
            normalized_times(Ok(x), scale),
            normalized_times(Ok(w), scale),
            1,
            p,
            seq![b, n, h, d],
            seq![b, t, h, d],
        ),
{
    let eps = Scalar::Lit(Float { bits: NORM_EPS_BITS });
    let (nx, nw) = (t_rms_norm(Ok(x), None, eps), t_rms_norm(Ok(w), None, eps));
    assert(nx is Ok && nw is Ok) by {
        reveal(raw_rms_norm);
    }
    norms_on_parts(None, eps, x, w, 1, p);
    let c = t_cast(t_scalar(scale), nx->Ok_0.dtype);
    assert(has_shape(c, Seq::<i32>::empty())) by {
        reveal(raw_cast);
    }
    lemma_scalar_for_all(seq![b, n, h, d], 1);
    lemma_scalar_for_all(seq![b, t, h, d], 1);
    constants_on_parts(BinaryOp::Multiply, nx->Ok_0, nw->Ok_0, c->Ok_0, 1, p);
}

proof fn lemma_scalar_for_all(shape: Seq<i32>, k: int)
    requires
        k < shape.len(),
    ensures
        same_for_all(Seq::<i32>::empty(), shape, k),
{
    let e = Seq::<i32>::empty();
    assert(broadcast_shape(shape, e) =~= shape);
    assert(broadcast_shape(e, shape) =~= shape);
}

proof fn lemma_list_for_all(b: i32, n: i32, h: i32)
    ensures
        same_for_all(seq![h], seq![b, n, h], 1),
{
    assert(broadcast_shape(seq![b, n, h], seq![h]) =~= seq![b, n, h]);
    assert(broadcast_shape(seq![h], seq![b, n, h]) =~= seq![b, n, h]);
}

/// The decays of some positions are those of the whole run.
proof fn lemma_decays(
    a_log: Term,
    x: Term,
    w: Term,
    dt_bias: Term,
    p: int,
    b: i32,
    n: i32,
    t: i32,
    h: i32,
)
    requires
        part_on(x, w, 1, p),
        x.shape == seq![b, n, h],
        w.shape == seq![b, t, h],
        a_log.shape == seq![h],
        dt_bias.shape == seq![h],
    ensures
        held_by(
            decay(Ok(a_log), Ok(x), Ok(dt_bias)),
            decay(Ok(a_log), Ok(w), Ok(dt_bias)),
            1,
            p,
            seq![b, n, h],
            seq![b, t, h],
        ),
{
    lemma_list_for_all(b, n, h);
    lemma_list_for_all(b, t, h);
    constants_on_parts(BinaryOp::Add, x, w, dt_bias, 1, p);
    let (sx, sw) = (t_add(Ok(x), Ok(dt_bias)), t_add(Ok(w), Ok(dt_bias)));
    unary_on_parts(UnaryOp::Softplus, sx->Ok_0, sw->Ok_0, 1, p);
    let (ix, iw) = (t_softplus(sx), t_softplus(sw));
    let c = t_exp(t_cast(Ok(a_log), Dtype::Float32));
    assert(has_shape(c, seq![h])) by {
        reveal(raw_cast);
        reveal(raw_unary);
    }
    constants_on_parts(BinaryOp::Multiply, ix->Ok_0, iw->Ok_0, c->Ok_0, 1, p);
    let (mx, mw) = (t_multiply(c, ix), t_multiply(c, iw));
    unary_on_parts(UnaryOp::Negative, mx->Ok_0, mw->Ok_0, 1, p);
    unary_on_parts(UnaryOp::Exp, t_negative(mx)->Ok_0, t_negative(mw)->Ok_0, 1, p);
}

/// What the recurrence reads: queries, keys, values, decays and correction parts.
pub open spec fn net_reads(a: GatedDeltaNet, x: Term, input: Term) -> (Tn, Tn, Tn, Tn, Tn) {
    (
        a.queries(x, input),
        a.keys(x, input),
        a.values(x, input),
        decay(Ok(a.a_log@), t_linear(a.in_proj_a@, Ok(x)), Ok(a.dt_bias@)),
        t_sigmoid(t_linear(a.in_proj_b@, Ok(x))),
    )
}

/// What the recurrence reads at some positions is what it reads there in one pass.
proof fn lemma_reads(
    a: GatedDeltaNet,
    x: Term,
    w: Term,
    input: Term,
    all: Term,
    p: int,
    b: i32,
    n: i32,
    t: i32,
    dim: i32,
)
    requires
        b > 0,
        0 < n,
        0 <= p,
        p + n <= t,
        b * n <= i32::MAX,
        b * t <= i32::MAX,
        net_goes(a, dim),
        t + a.conv_kernel_size <= i32::MAX,
        part_on(x, w, 1, p),
        x.shape == seq![b, n, dim],
        w.shape == seq![b, t, dim],
        part_on(input, all, 1, p),
        input.shape == seq![b, (a.conv_kernel_size - 1 + n) as i32, a.conv_dim],
        all.shape == seq![b, (a.conv_kernel_size - 1 + t) as i32, a.conv_dim],
    ensures
        ({
            let (q, k, v, g, beta) = net_reads(a, x, input);
            let (q2, k2, v2, g2, beta2) = net_reads(a, w, all);
            let (nk, nv, hk, hv) = (a.num_k_heads, a.num_v_heads, a.head_k_dim, a.head_v_dim);
            &&& held_by(q, q2, 1, p, seq![b, n, nk, hk], seq![b, t, nk, hk])
            &&& held_by(k, k2, 1, p, seq![b, n, nk, hk], seq![b, t, nk, hk])
            &&& held_by(v, v2, 1, p, seq![b, n, nv, hv], seq![b, t, nv, hv])
            &&& held_by(g, g2, 1, p, seq![b, n, nv], seq![b, t, nv])
            &&& held_by(beta, beta2, 1, p, seq![b, n, nv], seq![b, t, nv])
        }),
{
    let (nk, nv, hk, hv) = (a.num_k_heads, a.num_v_heads, a.head_k_dim, a.head_v_dim);
    let c = a.conv_dim;
    let kd = a.key_dim;
    assert(nk * hk > 0 && nv * hv > 0) by (nonlinear_arith)
        requires
            nk > 0,
            hk > 0,
            nv > 0,
            hv > 0,
    ;
    lemma_convolved(a, input, all, p, b, n, t, dim);
    let (mx, mw) = (t_silu(a.conv1d.apply(Ok(input))), t_silu(a.conv1d.apply(Ok(all))));
    let two = (2 * kd) as i32;
    lemma_stretch_of_heads(mx->Ok_0, mw->Ok_0, p, b, n, t, c, 0, kd, nk, hk);
    lemma_stretch_of_heads(mx->Ok_0, mw->Ok_0, p, b, n, t, c, kd, two, nk, hk);
    lemma_stretch_of_heads(mx->Ok_0, mw->Ok_0, p, b, n, t, c, two, OPEN, nv, hv);
    let s = power_minus_half(hk);
    let ss = Scalar::Product(std::sync::Arc::new(s), std::sync::Arc::new(s));
    lemma_scaled_heads(
        a.part(x, input, 0, kd, nk, hk)->Ok_0,
        a.part(w, all, 0, kd, nk, hk)->Ok_0,
        ss,
        p,
        b,
        n,
        t,
        nk,
        hk,
    );
    lemma_scaled_heads(
        a.part(x, input, kd, two, nk, hk)->Ok_0,
        a.part(w, all, kd, two, nk, hk)->Ok_0,
        s,
        p,
        b,
        n,
        t,
        nk,
        hk,
    );
    linear_on_parts(a.in_proj_a@, x, w, p, b, n, t, dim, nv);
    linear_on_parts(a.in_proj_b@, x, w, p, b, n, t, dim, nv);
    lemma_decays(
        a.a_log@,
        t_linear(a.in_proj_a@, Ok(x))->Ok_0,
        t_linear(a.in_proj_a@, Ok(w))->Ok_0,
        a.dt_bias@,
        p,
        b,
        n,
        t,
        nv,
    );
    unary_on_parts(
        UnaryOp::Sigmoid,
        t_linear(a.in_proj_b@, Ok(x))->Ok_0,
        t_linear(a.in_proj_b@, Ok(w))->Ok_0,
        1,
        p,
    );
}

/// What the recurrence puts out, normalized, gated and projected.
proof fn lemma_net_output(
    a: GatedDeltaNet,
    x: Term,
    w: Term,
    y: Term,
    v: Term,
    p: int,
    b: i32,
    n: i32,
    t: i32,
    dim: i32,
)
    requires
        b > 0,
        0 < n,
        0 < t,
        b * n <= i32::MAX,
        b * t <= i32::MAX,
        net_goes(a, dim),
        part_on(x, w, 1, p),
        x.shape == seq![b, n, dim],
        w.shape == seq![b, t, dim],
        part_on(y, v, 1, p),
        y.shape == seq![b, n, a.num_v_heads, a.head_v_dim],
        v.shape == seq![b, t, a.num_v_heads, a.head_v_dim],
    ensures
        held_by(
            t_linear(
                a.out_proj@,
                t_reshape(a.norm.apply(Ok(y), Some(a.gate(x))), seq![b, n, -1i32]),
            ),
            t_linear(
                a.out_proj@,
                t_reshape(a.norm.apply(Ok(v), Some(a.gate(w))), seq![b, t, -1i32]),
            ),
            1,
            p,
            seq![b, n, dim],
            seq![b, t, dim],
        ),
{
    let (nv, hv) = (a.num_v_heads, a.head_v_dim);
    linear_on_parts(a.in_proj_z@, x, w, p, b, n, t, dim, a.value_dim);
    let (zx, zw) = (t_linear(a.in_proj_z@, Ok(x)), t_linear(a.in_proj_z@, Ok(w)));
    lemma_grouped(zx, b, n, nv, hv);
    lemma_grouped(zw, b, t, nv, hv);
    let (small, large) = (seq![b, n, nv, hv], seq![b, t, nv, hv]);
    lemma_is_reshape(zx->Ok_0, small);
    lemma_is_reshape(zw->Ok_0, large);
    let (gx, gw) = (a.gate(x), a.gate(w));
    grouping_on_parts(zx->Ok_0, zw->Ok_0, gx->Ok_0, gw->Ok_0, p, b, n, t, nv, hv);
    unary_on_parts(UnaryOp::Silu, gx->Ok_0, gw->Ok_0, 1, p);
    let (nx, nw) = (
        t_rms_norm(Ok(y), Some(a.norm.weight@), a.norm.eps),
        t_rms_norm(Ok(v), Some(a.norm.weight@), a.norm.eps),
    );
    assert(nx is Ok && nw is Ok) by {
        reveal(raw_rms_norm);
    }
    norms_on_parts(Some(a.norm.weight@), a.norm.eps, y, v, 1, p);
    pairs_on_parts(
        BinaryOp::Multiply,
        t_silu(gx)->Ok_0,
        t_silu(gw)->Ok_0,
        nx->Ok_0,
        nw->Ok_0,
        1,
        p,
    );
    let (ox, ow) = (a.norm.apply(Ok(y), Some(gx)), a.norm.apply(Ok(v), Some(gw)));
    lemma_ungrouped(ox, b, n, nv, hv);
    lemma_ungrouped(ow, b, t, nv, hv);
    lemma_is_reshape(ox->Ok_0, seq![b, n, -1i32]);
    lemma_is_reshape(ow->Ok_0, seq![b, t, -1i32]);
    let (rx, rw) = (t_reshape(ox, seq![b, n, -1i32]), t_reshape(ow, seq![b, t, -1i32]));
    joining_on_parts(ox->Ok_0, ow->Ok_0, rx->Ok_0, rw->Ok_0, p, b, n, t, nv, hv);
    linear_on_parts(a.out_proj@, rx->Ok_0, rw->Ok_0, p, b, n, t, a.value_dim, dim);
}

/// The shape of a state.
pub open spec fn state_shape(b: i32, h: i32, dv: i32, dk: i32) -> Seq<i32> {
    seq![b, h, dv, dk]
}

/// What a recurrence reads, as arrays.
pub struct Reads {
    pub q: Term,
    pub k: Term,
    pub v: Term,
    pub g: Term,
    pub beta: Term,
}

impl Reads {
    /// What the plain operations read.
    pub open spec fn input(self) -> ScanInput {
        scan_input(self.q, self.k, self.v, self.g, self.beta)
    }

    /// Whether the arrays have `n` positions.
    pub open spec fn go(self, b: i32, n: i32, hk: i32, hv: i32, dk: i32, dv: i32) -> bool {
        &&& self.q.shape == seq![b, n, hk, dk]
        &&& self.k.shape == seq![b, n, hk, dk]
        &&& self.v.shape == seq![b, n, hv, dv]
        &&& self.g.shape == seq![b, n, hv]
        &&& self.beta.shape == seq![b, n, hv]
    }

    /// Whether the arrays are parts of those of a whole run.
    pub open spec fn held(self, w: Reads, p: int) -> bool {
        &&& part_on(self.q, w.q, 1, p)
        &&& part_on(self.k, w.k, 1, p)
        &&& part_on(self.v, w.v, 1, p)
        &&& part_on(self.g, w.g, 1, p)
        &&& part_on(self.beta, w.beta, 1, p)
    }

    /// The run by plain operations.
    pub open spec fn by_ops(self, state: Option<Term>) -> Result<(Term, Term), Exception> {
        scanned(self.q, self.k, self.v, self.g, self.beta, state)
    }

    /// The run by the kernel.
    pub open spec fn by_kernel(self, state: Option<Term>) -> Result<(Term, Term), Exception> {
        kernel_scanned(self.q, self.k, self.v, self.g, self.beta, state)
    }
}

/// Whether a state stands behind the first `p` positions of a run by plain operations.
pub open spec fn ops_track(
    w: Reads,
    start: Option<Term>,
    state: Option<Term>,
    p: nat,
    b: i32,
    hv: i32,
    dv: i32,
    dk: i32,
) -> bool {
    let s = first_state(state, b, hv, dv, dk);
    let s0 = first_state(start, b, hv, dv, dk);
    &&& is_single(s, state_shape(b, hv, dv, dk))
    &&& scan(w.input(), s0->Ok_0, 0, p) is Ok
    &&& same_array(s->Ok_0, scan(w.input(), s0->Ok_0, 0, p)->Ok_0.1)
}

/// Whether a state stands behind the first `p` positions of a run by the kernel.
pub open spec fn kernel_tracks(
    w: Reads,
    start: Option<Term>,
    state: Option<Term>,
    p: nat,
    b: i32,
    hv: i32,
    dv: i32,
    dk: i32,
) -> bool {
    let s = first_state(state, b, hv, dv, dk);
    let l = w.by_kernel(start)->Ok_0.0;
    &&& is_single(s, state_shape(b, hv, dv, dk))
    &&& forall|ix: Seq<int>| #[trigger]
        in_shape(ix, state_shape(b, hv, dv, dk)) ==> elem(s->Ok_0, ix) == delta_row(
            l,
            ix[0],
            ix[1],
            ix[2],
            p,
        )[ix[3]]
}

/// Both runs read what a scan reads.
proof fn lemma_inputs(
    x: Reads,
    w: Reads,
    p: int,
    b: i32,
    n: i32,
    t: i32,
    hk: i32,
    hv: i32,
    dk: i32,
    dv: i32,
)
    requires
        0 < hk <= hv,
        hv % hk == 0,
        x.go(b, n, hk, hv, dk, dv),
        w.go(b, t, hk, hv, dk, dv),
        x.held(w, p),
    ensures
        are_parts(x.input(), w.input(), p),
        scan_goes(x.input(), b, n, hv, dk, dv),
        scan_goes(w.input(), b, t, hv, dk, dv),
        spreads(x),
        spreads(w),
{
    lemma_part_spread(x.q, w.q, p, b, t, hk, hv, dk);
    lemma_part_spread(x.k, w.k, p, b, t, hk, hv, dk);
    lemma_spread(x.q, b, n, hk, hv, dk);
    lemma_spread(x.k, b, n, hk, hv, dk);
    lemma_spread(w.q, b, t, hk, hv, dk);
    lemma_spread(w.k, b, t, hk, hv, dk);
    a_part_converts(x.v, w.v, p, Dtype::Float32);
    a_part_converts(x.g, w.g, p, Dtype::Float32);
    a_part_converts(x.beta, w.beta, p, Dtype::Float32);
    lemma_casts(x.v, x.g, x.beta);
    lemma_casts(w.v, w.g, w.beta);
    reveal(raw_cast);
}

/// Whether all that a scan reads can be built.
pub open spec fn spreads(x: Reads) -> bool {
    let (hk, hv) = (x.q.shape[2], x.v.shape[2]);
    &&& crate::models::gated_delta::spread(t_cast(Ok(x.q), Dtype::Float32), hv, hk) is Ok
    &&& crate::models::gated_delta::spread(t_cast(Ok(x.k), Dtype::Float32), hv, hk) is Ok
    &&& t_cast(Ok(x.v), Dtype::Float32) is Ok
    &&& t_cast(Ok(x.g), Dtype::Float32) is Ok
    &&& t_cast(Ok(x.beta), Dtype::Float32) is Ok
}

/// A whole scan gives a state after every position, and an output for each.
proof fn lemma_whole_scan(w: ScanInput, s0: Term, b: i32, t: i32, h: i32, dk: i32, dv: i32, n: nat)
    requires
        n <= t,
        scan_goes(w, b, t, h, dk, dv),
        is_single(Ok(s0), state_shape(b, h, dv, dk)),
    ensures
        scan(w, s0, 0, n) is Ok,
        scan(w, s0, 0, n)->Ok_0.0.len() == n,
        is_single(Ok(scan(w, s0, 0, n)->Ok_0.1), state_shape(b, h, dv, dk)),
        forall|i: int|
            0 <= i < n ==> is_single(Ok(#[trigger] scan(w, s0, 0, n)->Ok_0.0[i]), seq![b, h, dv]),
{
    all_is_a_part(w.q, 1);
    all_is_a_part(w.k, 1);
    all_is_a_part(w.v, 1);
    all_is_a_part(w.g, 1);
    all_is_a_part(w.beta, 1);
    lemma_part_scan(w, w, 0, s0, s0, b, t, h, dk, dv, n);
}

/// The delta rule by plain operations that reads the next positions of a run gives what one pass
/// over the run gives there, and leaves a state that keeps track.
pub proof fn operations_read_on(
    x: Reads,
    w: Reads,
    start: Option<Term>,
    state: Option<Term>,
    p: nat,
    b: i32,
    n: i32,
    t: i32,
    hk: i32,
    hv: i32,
    dk: i32,
    dv: i32,
)
    requires
        b >= 0,
        0 < n,
        p + n <= t,
        0 < hk <= hv,
        hv % hk == 0,
        x.go(b, n, hk, hv, dk, dv),
        w.go(b, t, hk, hv, dk, dv),
        x.held(w, p as int),
        is_single(first_state(start, b, hv, dv, dk), state_shape(b, hv, dv, dk)),
        ops_track(w, start, state, p, b, hv, dv, dk),
    ensures
        ({
            let r = x.by_ops(state);
            let o = w.by_ops(start);
            &&& r is Ok && o is Ok
            &&& r->Ok_0.0.shape == seq![b, n, hv, dv] && o->Ok_0.0.shape == seq![b, t, hv, dv]
            &&& part_on(r->Ok_0.0, o->Ok_0.0, 1, p as int)
            &&& ops_track(w, start, Some(r->Ok_0.1), p + n as nat, b, hv, dv, dk)
        }),
{
    lemma_inputs(x, w, p as int, b, n, t, hk, hv, dk, dv);
    let (xi, wi) = (x.input(), w.input());
    let s = first_state(state, b, hv, dv, dk)->Ok_0;
    let s0 = first_state(start, b, hv, dv, dk)->Ok_0;
    lemma_whole_scan(wi, s0, b, t, hv, dk, dv, p);
    lemma_whole_scan(wi, s0, b, t, hv, dk, dv, t as nat);
    let (ys0, sp) = scan(wi, s0, 0, p)->Ok_0;
    lemma_part_scan(xi, wi, p as int, s, sp, b, n, hv, dk, dv, n as nat);
    let (ys, e) = scan(xi, s, 0, n as nat)->Ok_0;
    let (zs, e2) = scan(wi, sp, p as int, n as nat)->Ok_0;
    scan_carries_over(wi, s0, 0, p, n as nat);
    let m = p + n as nat;
    assert(scan(wi, s0, 0, m) == Ok::<(Seq<Term>, Term), Exception>((ys0 + zs, e2)));
    scan_carries_over(wi, s0, 0, m, (t - m) as nat);
    let (all, last) = scan(wi, s0, 0, t as nat)->Ok_0;
    assert(all.len() == t);
    assert forall|i: int| 0 <= i < n implies #[trigger] all[p + i] == zs[i] by {
        assert((ys0 + zs)[p + i] == zs[i]);
    }
    assert forall|i: int| 0 <= i < n implies same_array(#[trigger] ys[i], all[p + i]) by {
        assert(all[p + i] == zs[i]);
        assert(is_single(Ok(ys[i]), seq![b, hv, dv]));
    }
    lemma_outputs_part(ys, all, x.q.dtype, p, b, n, t, hv, dv);
}

/// The outputs of some steps are a part of those of all steps.
proof fn lemma_outputs_part(
    ys: Seq<Term>,
    all: Seq<Term>,
    dtype: Dtype,
    p: nat,
    b: i32,
    n: i32,
    t: i32,
    h: i32,
    dv: i32,
)
    requires
        0 < n,
        p + n <= t,
        ys.len() == n,
        all.len() == t,
        forall|i: int| 0 <= i < ys.len() ==> is_single(Ok(#[trigger] ys[i]), seq![b, h, dv]),
        forall|i: int| 0 <= i < all.len() ==> is_single(Ok(#[trigger] all[i]), seq![b, h, dv]),
        forall|i: int| 0 <= i < n ==> same_array(#[trigger] ys[i], all[p + i]),
    ensures
        held_by(
            t_cast(t_stack(ys, 1), dtype),
            t_cast(t_stack(all, 1), dtype),
            1,
            p as int,
            seq![b, n, h, dv],
            seq![b, t, h, dv],
        ),
{
    lemma_output(ys, dtype, b, h, dv);
    lemma_output(all, dtype, b, h, dv);
    let y = t_cast(t_stack(ys, 1), dtype)->Ok_0;
    let v = t_cast(t_stack(all, 1), dtype)->Ok_0;
    assert(y.shape =~= v.shape.update(1, n));
    assert forall|ix: Seq<int>| #[trigger] in_shape(ix, y.shape) implies elem(y, ix) == elem(
        v,
        ix.update(1, ix[1] + p),
    ) by {
        let sh = y.shape;
        assert(0 <= ix[0] < sh[0] && 0 <= ix[1] < sh[1] && 0 <= ix[2] < sh[2] && 0 <= ix[3]
            < sh[3]);
        let jx = ix.update(1, ix[1] + p);
        assert(in_shape(jx, v.shape));
        assert(jx.remove(1) =~= ix.remove(1));
        assert(in_shape(ix.remove(1), seq![b, h, dv]));
        assert(is_single(Ok(ys[ix[1]]), seq![b, h, dv]));
        assert(same_array(ys[ix[1]], all[p + ix[1]]));
        lemma_same_output(v, y, all, ys, jx, ix, b, h, dv);
    }
}

proof fn lemma_delta_len(t: Term, b: int, h: int, d: int, n: nat)
    requires
        t.args.len() == 7,
    ensures
        delta_row(t, b, h, d, n).len() == length_of(t.args[5].shape.last()),
    decreases n,
{
    if n > 0 {
        lemma_delta_len(t, b, h, d, (n - 1) as nat);
    } else {
        let row = last_row(t.args[5], seq![b, h, d, 0]);
        assert(delta_row(t, b, h, d, 0) == row);
        assert(row.len() == length_of(t.args[5].shape.last()));
    }
}

/// The rows of a state depend on what the launch reads alone.
proof fn lemma_delta_args(t: Term, u: Term, b: int, h: int, d: int, n: nat)
    requires
        t.args == u.args,
    ensures
        delta_row(t, b, h, d, n) == delta_row(u, b, h, d, n),
    decreases n,
{
    if n > 0 && t.args.len() == 7 {
        lemma_delta_args(t, u, b, h, d, (n - 1) as nat);
        assert(delta_row(t, b, h, d, n) =~= delta_row(u, b, h, d, n));
    }
}

/// One position more.
proof fn lemma_delta_step(t: Term, u: Term, b: int, h: int, d: int, m: nat, n: nat)
    requires
        t.args.len() == 7,
        u.args.len() == 7,
        n > 0,
        m > 0,
        delta_row(t, b, h, d, (n - 1) as nat) == delta_row(u, b, h, d, (m - 1) as nat),
        t.args[0].shape[2] == u.args[0].shape[2],
        t.args[2].shape[2] == u.args[2].shape[2],
        t.args[1].dtype == u.args[1].dtype,
        t.args[2].dtype == u.args[2].dtype,
        t.args[3].dtype == u.args[3].dtype,
        t.args[4].dtype == u.args[4].dtype,
        ({
            let g = key_head(h, t.args[0].shape[2], t.args[2].shape[2]);
            &&& last_row(t.args[1], seq![b, n - 1, g, 0]) == last_row(
                u.args[1],
                seq![b, m - 1, g, 0],
            )
            &&& elem(t.args[2], seq![b, n - 1, h, d]) == elem(u.args[2], seq![b, m - 1, h, d])
            &&& elem(t.args[3], seq![b, n - 1, h]) == elem(u.args[3], seq![b, m - 1, h])
            &&& elem(t.args[4], seq![b, n - 1, h]) == elem(u.args[4], seq![b, m - 1, h])
        }),
    ensures
        delta_row(t, b, h, d, n) == delta_row(u, b, h, d, m),
{
    assert(delta_row(t, b, h, d, n) =~= delta_row(u, b, h, d, m));
}

/// The arguments of a launch.
pub open spec fn launched(x: Reads, s: Term) -> Seq<Term> {
    seq![x.q, x.k, x.v, x.g, x.beta, s, t_int(x.q.shape[1])->Ok_0]
}

/// The rows of the state within a part are those of the whole run.
proof fn lemma_delta_rows(
    l: Term,
    u: Term,
    x: Reads,
    w: Reads,
    s: Term,
    s0: Term,
    p: nat,
    r: nat,
    i: int,
    h: int,
    d: int,
    b: i32,
    n: i32,
    t: i32,
    hk: i32,
    hv: i32,
    dk: i32,
    dv: i32,
)
    requires
        r <= n,
        p + n <= t,
        0 < hk <= hv,
        hv % hk == 0,
        dk >= 0,
        l.args == launched(x, s),
        u.args == launched(w, s0),
        x.go(b, n, hk, hv, dk, dv),
        w.go(b, t, hk, hv, dk, dv),
        x.held(w, p as int),
        s.shape == state_shape(b, hv, dv, dk),
        s0.shape == state_shape(b, hv, dv, dk),
        0 <= i < b,
        0 <= h < hv,
        0 <= d < dv,
        forall|ix: Seq<int>| #[trigger]
            in_shape(ix, state_shape(b, hv, dv, dk)) ==> elem(s, ix) == delta_row(
                u,
                ix[0],
                ix[1],
                ix[2],
                p,
            )[ix[3]],
    ensures
        delta_row(l, i, h, d, r) == delta_row(u, i, h, d, p + r),
    decreases r,
{
    assert(l.args.len() == 7 && u.args.len() == 7);
    assert(l.args[5] == s && u.args[5] == s0);
    if r == 0 {
        lemma_delta_base(l, u, p, i, h, d, b, hv, dv, dk);
    } else {
        lemma_delta_rows(l, u, x, w, s, s0, p, (r - 1) as nat, i, h, d, b, n, t, hk, hv, dk, dv);
        lemma_delta_reads(x, w, p, r - 1, i, h, d, b, n, t, hk, hv, dk, dv);
        assert(p + r - 1 == r - 1 + p);
        lemma_delta_step(l, u, i, h, d, p + r, r);
    }
}

proof fn lemma_delta_base(
    l: Term,
    u: Term,
    p: nat,
    i: int,
    h: int,
    d: int,
    b: i32,
    hv: i32,
    dv: i32,
    dk: i32,
)
    requires
        l.args.len() == 7,
        u.args.len() == 7,
        dk >= 0,
        l.args[5].shape == state_shape(b, hv, dv, dk),
        u.args[5].shape == state_shape(b, hv, dv, dk),
        0 <= i < b,
        0 <= h < hv,
        0 <= d < dv,
        forall|ix: Seq<int>| #[trigger]
            in_shape(ix, state_shape(b, hv, dv, dk)) ==> elem(l.args[5], ix) == delta_row(
                u,
                ix[0],
                ix[1],
                ix[2],
                p,
            )[ix[3]],
    ensures
        delta_row(l, i, h, d, 0) == delta_row(u, i, h, d, p),
{
    lemma_delta_len(u, i, h, d, p);
    let s = l.args[5];
    let row = delta_row(u, i, h, d, p);
    let start = seq![i, h, d, 0];
    let mine = last_row(s, start);
    assert(delta_row(l, i, h, d, 0) == mine);
    assert forall|e: int| 0 <= e < mine.len() implies mine[e] == row[e] by {
        let ix = start.update(3, e);
        assert(in_shape(ix, state_shape(b, hv, dv, dk)));
        assert(mine[e] == elem(s, ix));
        assert(ix[0] == i && ix[1] == h && ix[2] == d && ix[3] == e);
    }
    assert(mine =~= row);
}

/// What one position gives the recurrence.
proof fn lemma_delta_reads(
    x: Reads,
    w: Reads,
    p: nat,
    q: int,
    i: int,
    h: int,
    d: int,
    b: i32,
    n: i32,
    t: i32,
    hk: i32,
    hv: i32,
    dk: i32,
    dv: i32,
)
    requires
        0 <= q < n,
        0 < hk <= hv,
        hv % hk == 0,
        x.go(b, n, hk, hv, dk, dv),
        w.go(b, t, hk, hv, dk, dv),
        x.held(w, p as int),
        0 <= i < b,
        0 <= h < hv,
        0 <= d < dv,
    ensures
        ({
            let g = key_head(h, hk, hv);
            &&& last_row(x.k, seq![i, q, g, 0]) == last_row(w.k, seq![i, q + p, g, 0])
            &&& elem(x.v, seq![i, q, h, d]) == elem(w.v, seq![i, q + p, h, d])
            &&& elem(x.g, seq![i, q, h]) == elem(w.g, seq![i, q + p, h])
            &&& elem(x.beta, seq![i, q, h]) == elem(w.beta, seq![i, q + p, h])
        }),
{
    let g = key_head(h, hk, hv);
    lemma_key_head(h, hk, hv);
    let kx = seq![i, q, g, 0];
    lemma_last_rows(kx, x.k, w.k, 1, p as int);
    assert(moved(kx, 1, p as int) =~= seq![i, q + p, g, 0]);
    let vx = seq![i, q, h, d];
    assert(in_shape(vx, x.v.shape));
    lemma_moved(vx, x.v, w.v, 1, p as int);
    assert(moved(vx, 1, p as int) =~= seq![i, q + p, h, d]);
    let gx = seq![i, q, h];
    assert(in_shape(gx, x.g.shape) && in_shape(gx, x.beta.shape));
    lemma_moved(gx, x.g, w.g, 1, p as int);
    lemma_moved(gx, x.beta, w.beta, 1, p as int);
    assert(moved(gx, 1, p as int) =~= seq![i, q + p, h]);
}

proof fn lemma_key_head(h: int, hk: i32, hv: i32)
    requires
        0 < hk <= hv,
        hv % hk == 0,
        0 <= h < hv,
    ensures
        0 <= key_head(h, hk, hv) < hk,
{
    let times = hv as int / hk as int;
    let g = key_head(h, hk, hv);
    vstd::arithmetic::div_mod::lemma_fundamental_div_mod(hv as int, hk as int);
    assert(times >= 1) by (nonlinear_arith)
        requires
            hv == hk * times,
            0 < hk <= hv,
    ;
    assert(0 <= g < hk) by (nonlinear_arith)
        requires
            0 <= h < hv,
            hv == hk * times,
            times >= 1,
            g == h / times,
    ;
}

/// An element of the output of the kernel.
proof fn lemma_kernel_alike(y: Term, v: Term, ix: Seq<int>, jx: Seq<int>)
    requires
        y.kind == (Kind::KernelOutput { output: 0 }),
        v.kind == (Kind::KernelOutput { output: 0 }),
        is_delta_launch(y),
        is_delta_launch(v),
        ix.len() == 4,
        jx.len() == 4,
        y.args[0].dtype == v.args[0].dtype,
        ix[1] >= 0,
        jx[1] >= 0,
        delta_row(y, ix[0], ix[2], ix[3], (ix[1] + 1) as nat) == delta_row(
            v,
            jx[0],
            jx[2],
            jx[3],
            (jx[1] + 1) as nat,
        ),
        last_row(
            y.args[0],
            seq![
                ix[0],
                ix[1],
                key_head(ix[2], y.args[0].shape[2], y.args[2].shape[2]),
                0,
            ],
        ) == last_row(
            v.args[0],
            seq![
                jx[0],
                jx[1],
                key_head(jx[2], v.args[0].shape[2], v.args[2].shape[2]),
                0,
            ],
        ),
    ensures
        elem(y, ix) == elem(v, jx),
{
    reveal(computed);
    assert(elem(y, ix) == computed(y, ix) && elem(v, jx) == computed(v, jx));
}

/// An element of the state that the kernel leaves.
proof fn lemma_kernel_state(z: Term, ix: Seq<int>)
    requires
        z.kind == (Kind::KernelOutput { output: 1 }),
        is_delta_launch(z),
        ix.len() == 4,
    ensures
        elem(z, ix) == delta_row(z, ix[0], ix[1], ix[2], length_of(z.args[0].shape[1]))[ix[3]],
{
    reveal(computed);
    assert(elem(z, ix) == computed(z, ix));
}

/// What the kernel gives.
proof fn lemma_launch(
    x: Reads,
    state: Option<Term>,
    b: i32,
    n: i32,
    hk: i32,
    hv: i32,
    dk: i32,
    dv: i32,
)
    requires
        b >= 0,
        n >= 0,
        hv >= 0,
        dk >= 0,
        dv >= 0,
        b * hv <= i32::MAX,
        x.go(b, n, hk, hv, dk, dv),
        state matches Some(s) ==> is_single(Ok(s), state_shape(b, hv, dv, dk)),
    ensures
        x.by_kernel(state) matches Ok((y, s)) && y.shape == seq![b, n, hv, dv] && is_single(
            Ok(s),
            state_shape(b, hv, dv, dk),
        ) && y.dtype == x.q.dtype && y.kind == (Kind::KernelOutput { output: 0 }) && s.kind == (
        Kind::KernelOutput { output: 1 }) && is_delta_launch(y) && is_delta_launch(s) && y.args
            == launched(x, first_state(state, b, hv, dv, dk)->Ok_0) && s.args == y.args,
{
    lemma_kernel(x.q, x.k, x.v, x.g, x.beta, state, b, n, hk, hv, dk, dv);
    let s = first_state(state, b, hv, dv, dk);
    assert(is_single(s, state_shape(b, hv, dv, dk))) by {
        assert(no_negative(state_shape(b, hv, dv, dk)));
    }
}

/// The kernel that reads the next positions of a run gives what one pass over the run gives there,
/// and leaves a state that keeps track.
pub proof fn the_kernel_reads_on(
    x: Reads,
    w: Reads,
    start: Option<Term>,
    state: Option<Term>,
    p: nat,
    b: i32,
    n: i32,
    t: i32,
    hk: i32,
    hv: i32,
    dk: i32,
    dv: i32,
)
    requires
        b >= 0,
        0 < n,
        p + n <= t,
        0 < hk <= hv,
        hv % hk == 0,
        dk >= 0,
        dv >= 0,
        b * hv <= i32::MAX,
        x.go(b, n, hk, hv, dk, dv),
        w.go(b, t, hk, hv, dk, dv),
        x.held(w, p as int),
        start matches Some(s) ==> is_single(Ok(s), state_shape(b, hv, dv, dk)),
        state matches Some(s) ==> is_single(Ok(s), state_shape(b, hv, dv, dk)),
        kernel_tracks(w, start, state, p, b, hv, dv, dk),
    ensures
        ({
            let r = x.by_kernel(state);
            let o = w.by_kernel(start);
            &&& r is Ok && o is Ok
            &&& r->Ok_0.0.shape == seq![b, n, hv, dv] && o->Ok_0.0.shape == seq![b, t, hv, dv]
            &&& part_on(r->Ok_0.0, o->Ok_0.0, 1, p as int)
            &&& kernel_tracks(w, start, Some(r->Ok_0.1), p + n as nat, b, hv, dv, dk)
        }),
{
    lemma_launch(x, state, b, n, hk, hv, dk, dv);
    lemma_launch(w, start, b, t, hk, hv, dk, dv);
    let (y, z) = x.by_kernel(state)->Ok_0;
    let v = w.by_kernel(start)->Ok_0.0;
    let s = first_state(state, b, hv, dv, dk)->Ok_0;
    let s0 = first_state(start, b, hv, dv, dk);
    assert(is_single(s0, state_shape(b, hv, dv, dk))) by {
        assert(no_negative(state_shape(b, hv, dv, dk)));
    }
    let s0 = s0->Ok_0;
    assert(y.args[0] == x.q && y.args[2] == x.v && v.args[0] == w.q && v.args[2] == w.v);
    assert(z.args[0] == x.q);
    assert(y.shape =~= v.shape.update(1, n));
    assert forall|ix: Seq<int>| #[trigger] in_shape(ix, y.shape) implies elem(y, ix) == elem(
        v,
        ix.update(1, ix[1] + p),
    ) by {
        let sh = y.shape;
        assert(0 <= ix[0] < sh[0] && 0 <= ix[1] < sh[1] && 0 <= ix[2] < sh[2] && 0 <= ix[3]
            < sh[3]);
        let jx = ix.update(1, ix[1] + p);
        let r = (ix[1] + 1) as nat;
        lemma_delta_rows(y, v, x, w, s, s0, p, r, ix[0], ix[2], ix[3], b, n, t, hk, hv, dk, dv);
        let g = key_head(ix[2], hk, hv);
        lemma_key_head(ix[2], hk, hv);
        let kx = seq![ix[0], ix[1], g, 0];
        lemma_last_rows(kx, x.q, w.q, 1, p as int);
        assert(moved(kx, 1, p as int) =~= seq![jx[0], jx[1], g, 0]);
        lemma_kernel_alike(y, v, ix, jx);
    }
    assert forall|ix: Seq<int>| #[trigger]
        in_shape(ix, state_shape(b, hv, dv, dk)) implies elem(z, ix) == delta_row(
        v,
        ix[0],
        ix[1],
        ix[2],
        p + n as nat,
    )[ix[3]] by {
        let sh = state_shape(b, hv, dv, dk);
        assert(0 <= ix[0] < sh[0] && 0 <= ix[1] < sh[1] && 0 <= ix[2] < sh[2] && 0 <= ix[3]
            < sh[3]);
        lemma_kernel_state(z, ix);
        lemma_delta_args(z, y, ix[0], ix[1], ix[2], n as nat);
        lemma_delta_rows(
            y,
            v,
            x,
            w,
            s,
            s0,
            p,
            n as nat,
            ix[0],
            ix[1],
            ix[2],
            b,
            n,
            t,
            hk,
            hv,
            dk,
            dv,
        );
    }
}

/// What the recurrence of a layer reads in one pass over a run.
pub open spec fn run_reads(a: GatedDeltaNet, w: Term, conv: Option<Term>) -> Reads {
    let (q, k, v, g, beta) = net_reads(a, w, run_input(a, w, conv));
    Reads { q: q->Ok_0, k: k->Ok_0, v: v->Ok_0, g: g->Ok_0, beta: beta->Ok_0 }
}

/// Whether the state of a layer stands behind the first `p` positions of a run that began with
/// these inputs kept and this state.
pub open spec fn state_tracks(
    a: GatedDeltaNet,
    w: Term,
    conv: Option<Term>,
    start: Option<Term>,
    state: Option<Term>,
    p: nat,
    b: i32,
) -> bool {
    let (hv, dv, dk) = (a.num_v_heads, a.head_v_dim, a.head_k_dim);
    if a.by_ops {
        ops_track(run_reads(a, w, conv), start, state, p, b, hv, dv, dk)
    } else {
        kernel_tracks(run_reads(a, w, conv), start, state, p, b, hv, dv, dk)
    }
}

/// What a recurrence reads in one pass has the positions of the run.
proof fn lemma_run_reads(a: GatedDeltaNet, w: Term, conv: Option<Term>, b: i32, t: i32, dim: i32)
    requires
        b > 0,
        t > 0,
        b * t <= i32::MAX,
        net_goes(a, dim),
        w.shape == seq![b, t, dim],
        conv matches Some(c) ==> c.shape == seq![
            b,
            (a.conv_kernel_size - 1) as i32,
            a.conv_dim,
        ],
        t + a.conv_kernel_size <= i32::MAX,
    ensures
        run_reads(a, w, conv).go(b, t, a.num_k_heads, a.num_v_heads, a.head_k_dim, a.head_v_dim),
{
    lemma_net_input(a, w, conv, b, t, dim);
    let all = run_input(a, w, conv);
    all_is_a_part(w, 1);
    all_is_a_part(all, 1);
    lemma_reads(a, w, w, all, all, 0, b, t, t, dim);
}

/// At its start a run is behind nothing.
pub proof fn a_recurrence_starts(
    a: GatedDeltaNet,
    w: Term,
    conv: Option<Term>,
    start: Option<Term>,
    b: i32,
    t: i32,
    dim: i32,
)
    requires
        b > 0,
        t > 0,
        b * t <= i32::MAX,
        b * a.num_v_heads <= i32::MAX,
        net_goes(a, dim),
        w.shape == seq![b, t, dim],
        net_keeps(a, conv, start, b),
        t + a.conv_kernel_size <= i32::MAX,
    ensures
        state_tracks(a, w, conv, start, start, 0, b),
{
    let (hk, hv, dk, dv) = (a.num_k_heads, a.num_v_heads, a.head_k_dim, a.head_v_dim);
    lemma_run_reads(a, w, conv, b, t, dim);
    let r = run_reads(a, w, conv);
    let s0 = first_state(start, b, hv, dv, dk);
    assert(is_single(s0, state_shape(b, hv, dv, dk))) by {
        assert(no_negative(state_shape(b, hv, dv, dk)));
    }
    if !a.by_ops {
        lemma_launch(r, start, b, t, hk, hv, dk, dv);
        let l = r.by_kernel(start)->Ok_0.0;
        let s = s0->Ok_0;
        assert(l.args[5] == s);
        assert forall|ix: Seq<int>| #[trigger]
            in_shape(ix, state_shape(b, hv, dv, dk)) implies elem(s, ix) == delta_row(
            l,
            ix[0],
            ix[1],
            ix[2],
            0,
        )[ix[3]] by {
            lemma_first_row(l, ix, b, hv, dv, dk);
        }
    }
}

proof fn lemma_first_row(l: Term, ix: Seq<int>, b: i32, hv: i32, dv: i32, dk: i32)
    requires
        l.args.len() == 7,
        l.args[5].shape == state_shape(b, hv, dv, dk),
        in_shape(ix, state_shape(b, hv, dv, dk)),
    ensures
        elem(l.args[5], ix) == delta_row(l, ix[0], ix[1], ix[2], 0)[ix[3]],
{
    let sh = state_shape(b, hv, dv, dk);
    assert(0 <= ix[0] < sh[0] && 0 <= ix[1] < sh[1] && 0 <= ix[2] < sh[2] && 0 <= ix[3] < sh[3]);
    let at = seq![ix[0], ix[1], ix[2], 0];
    let row = last_row(l.args[5], at);
    assert(delta_row(l, ix[0], ix[1], ix[2], 0) == row);
    assert(at.update(3, ix[3]) =~= ix);
    assert(row[ix[3]] == elem(l.args[5], at.update(3, ix[3])));
}

/// What a layer gives once everything can be built.
proof fn lemma_net_parts(
    a: GatedDeltaNet,
    x: Term,
    conv: Option<Term>,
    state: Option<Term>,
    b: i32,
    n: i32,
    dim: i32,
)
    requires
        b > 0,
        n > 0,
        b * n <= i32::MAX,
        net_goes(a, dim),
        x.shape == seq![b, n, dim],
        a.conv_input(x, conv) is Ok,
        a.conv_kept(a.conv_input(x, conv)->Ok_0) is Ok,
        ({
            let (q, k, v, g, beta) = net_reads(a, x, a.conv_input(x, conv)->Ok_0);
            q is Ok && k is Ok && v is Ok && g is Ok && beta is Ok
        }),
        run_reads(a, x, conv).recurred(a.by_ops, state) is Ok,
    ensures
        ({
            let (out, next) = run_reads(a, x, conv).recurred(a.by_ops, state)->Ok_0;
            a.apply(x, conv, state) == (
                t_linear(
                    a.out_proj@,
                    t_reshape(a.norm.apply(Ok(out), Some(a.gate(x))), seq![b, n, -1i32]),
                ),
                Some(a.conv_kept(a.conv_input(x, conv)->Ok_0)->Ok_0),
                Some(next),
            )
        }),
{
    reveal(GatedDeltaNet::apply);
    a_linear_layer_keeps_rows(
        a.in_proj_qkv@,
        Ok(x),
        b,
        n,
        dim,
        a.conv_dim,
    );
    a_linear_layer_keeps_rows(a.in_proj_z@, Ok(x), b, n, dim, a.value_dim);
    a_linear_layer_keeps_rows(a.in_proj_a@, Ok(x), b, n, dim, a.num_v_heads);
    a_linear_layer_keeps_rows(a.in_proj_b@, Ok(x), b, n, dim, a.num_v_heads);
    lemma_grouped(t_linear(a.in_proj_z@, Ok(x)), b, n, a.num_v_heads, a.head_v_dim);
}

impl Reads {
    /// The run by plain operations or by the kernel.
    pub open spec fn recurred(self, by_ops: bool, state: Option<Term>) -> Result<
        (Term, Term),
        Exception,
    > {
        if by_ops {
            self.by_ops(state)
        } else {
            self.by_kernel(state)
        }
    }
}

/// Linear attention that reads the next positions of a run gives what one pass over the run gives
/// there, and leaves inputs and a state that keep track.
pub proof fn linear_attention_reads_on(
    a: GatedDeltaNet,
    x: Term,
    w: Term,
    conv0: Option<Term>,
    state0: Option<Term>,
    conv: Option<Term>,
    state: Option<Term>,
    p: nat,
    b: i32,
    n: i32,
    t: i32,
    dim: i32,
)
    requires
        b > 0,
        0 < n,
        p + n <= t,
        b * t <= i32::MAX,
        b * a.num_v_heads <= i32::MAX,
        t + a.conv_kernel_size <= i32::MAX,
        net_goes(a, dim),
        part_on(x, w, 1, p as int),
        x.shape == seq![b, n, dim],
        w.shape == seq![b, t, dim],
        net_keeps(a, conv0, state0, b),
        net_keeps(a, conv, state, b),
        conv_tracks(a, w, conv0, conv, p as int, b),
        state_tracks(a, w, conv0, state0, state, p, b),
    ensures
        ({
            let (y, c, s) = a.apply(x, conv, state);
            &&& held_by(
                y,
                a.apply(w, conv0, state0).0,
                1,
                p as int,
                seq![b, n, dim],
                seq![b, t, dim],
            )
            &&& c is Some && s is Some
            &&& conv_tracks(a, w, conv0, c, p + n, b)
            &&& state_tracks(a, w, conv0, state0, s, p + n as nat, b)
        }),
{
    let (hk, hv, dk, dv) = (a.num_k_heads, a.num_v_heads, a.head_k_dim, a.head_v_dim);
    assert(b * n <= b * t) by (nonlinear_arith)
        requires
            b > 0,
            n <= t,
    ;
    a_convolution_goes_on(a, x, w, conv0, conv, p as int, b, n, t, dim);
    lemma_net_input(a, w, conv0, b, t, dim);
    let input = a.conv_input(x, conv)->Ok_0;
    let all = run_input(a, w, conv0);
    lemma_reads(a, x, w, input, all, p as int, b, n, t, dim);
    let (rx, rw) = (run_reads(a, x, conv), run_reads(a, w, conv0));
    let s0 = first_state(state0, b, hv, dv, dk);
    assert(is_single(s0, state_shape(b, hv, dv, dk))) by {
        assert(no_negative(state_shape(b, hv, dv, dk)));
    }
    if a.by_ops {
        operations_read_on(rx, rw, state0, state, p, b, n, t, hk, hv, dk, dv);
    } else {
        the_kernel_reads_on(rx, rw, state0, state, p, b, n, t, hk, hv, dk, dv);
    }
    lemma_net_parts(a, x, conv, state, b, n, dim);
    lemma_net_parts(a, w, conv0, state0, b, t, dim);
    let (y, v) = (
        rx.recurred(a.by_ops, state)->Ok_0.0,
        rw.recurred(a.by_ops, state0)->Ok_0.0,
    );
    lemma_net_output(a, x, w, y, v, p as int, b, n, t, dim);
}

} // verus!
