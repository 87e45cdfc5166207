//! Reading a prompt in parts: full attention.
//!
//! A cache keeps track of a run: behind `p` positions it holds what one pass over the whole run
//! gives for the first `p` of them. A layer that reads the next positions with such a cache gives
//! what the pass gives at these positions.

use crate::array::{Dtype, Kind, MaskMode, Term};
use crate::cache::{kv_updated, ConcatKeyValueCache, KeyValueCache, KvState};
use crate::fast::{raw_attention, t_attention, MaskTerm};
use crate::laws::arrays::part_on;
use crate::laws::cache::{
    buffers_stay_in_bounds, heads, kv_wf, reads_back, reads_back_buffer, update_reads_back,
};
use crate::laws::hybrid_model::{
    gated_attention_goes, lemma_grouped, lemma_half, lemma_headed, lemma_ungrouped,
};
use crate::laws::model::{holds_positions, top_fits};
use crate::laws::parts::{
    all_is_a_part, cuts_on_parts, grouping_on_parts, held_by, joining_on_parts, lemma_is_reshape,
    lemma_last_rows, linear_on_parts, moved, norms_on_parts, pairs_on_parts, swaps_on_parts,
    turns_on_parts, unary_on_parts,
};
use crate::laws::shapes::{has_shape, joining_gives_rows, splitting_gives_heads};
use crate::meaning::{computed, elem, in_shape, last_row, seen_by, seen_keys, seen_values, Elem};
use crate::models::qwen3_5::{heads_first, Attention};
use crate::nn::{t_linear, RmsNorm};
use crate::ops::elementwise::{t_multiply, t_sigmoid};
use crate::ops::layout::{raw_transpose, t_reshape, t_transpose};
use crate::ops::select::{raw_concatenate, raw_slice, raw_slice_update, t_slice, OPEN};
use crate::scalar::Scalar;
use crate::shape::permuted;
use crate::utils::attention::{attended, join_heads, rotated, split_heads};
use vstd::prelude::*;

verus! {

/// The element at an index of the positions held at the start followed by those of the run.
pub open spec fn joined_at(start: Option<Term>, held: i32, run: Term, ix: Seq<int>) -> Elem {
    if ix[2] < held {
        elem(start->Some_0, ix)
    } else {
        elem(run, ix.update(2, ix[2] - held))
    }
}

/// Whether a buffer holds the positions held at the start followed by the first of the run, `n` in
/// all.
pub open spec fn buffer_tracks(
    buffer: Term,
    start: Option<Term>,
    held: i32,
    run: Term,
    b: i32,
    m: i32,
    n: i32,
    d: i32,
) -> bool {
    forall|ix: Seq<int>| #[trigger]
        in_shape(ix, heads(b, m, n, d)) ==> elem(buffer, ix) == joined_at(start, held, run, ix)
}

/// Whether the buffers of a cache have the element types of keys and values.
pub open spec fn kv_typed(c: KvState, keys: Dtype, values: Dtype) -> bool {
    &&& c.keys matches Some(k) ==> k.dtype == keys
    &&& c.values matches Some(v) ==> v.dtype == values
}

/// Whether a cache stands behind the first `p` positions of a run with these keys and values that
/// began at `start`.
pub open spec fn kv_tracks(
    c: KvState,
    start: KvState,
    keys: Term,
    values: Term,
    p: int,
    b: i32,
    m: i32,
    d: i32,
) -> bool {
    &&& c.offset == start.offset + p
    &&& kv_typed(c, keys.dtype, values.dtype)
    &&& c.offset > 0 ==> c.keys is Some && c.values is Some
    &&& buffer_tracks(c.keys->Some_0, start.keys, start.offset, keys, b, m, c.offset, d)
    &&& buffer_tracks(c.values->Some_0, start.values, start.offset, values, b, m, c.offset, d)
}

/// At its start a run is behind nothing.
pub proof fn a_run_starts(start: KvState, keys: Term, values: Term, b: i32, m: i32, d: i32)
    requires
        kv_wf(start, b, m, d, d),
        kv_typed(start, keys.dtype, values.dtype),
    ensures
        kv_tracks(start, start, keys, values, 0, b, m, d),
{
    assert forall|ix: Seq<int>| #[trigger]
        in_shape(ix, heads(b, m, start.offset, d)) implies ix[2] < start.offset by {
        assert(0 <= ix[2] < heads(b, m, start.offset, d)[2]);
    }
}

/// An update keeps the element types of the buffers.
proof fn lemma_update_types(c: KvState, k: Term, v: Term)
    requires
        kv_typed(c, k.dtype, v.dtype),
        kv_updated(c, k, v).1 is Ok,
    ensures
        kv_typed(kv_updated(c, k, v).0, k.dtype, v.dtype),
        kv_updated(c, k, v).1->Ok_0.0.dtype == k.dtype,
        kv_updated(c, k, v).1->Ok_0.1.dtype == v.dtype,
{
    reveal(raw_concatenate);
    reveal(raw_slice);
    reveal(raw_slice_update);
}

proof fn lemma_track_one(
    fetched: Term,
    after: Term,
    buffer: Option<Term>,
    start: Option<Term>,
    held: i32,
    offset: i32,
    step: Term,
    run: Term,
    p: int,
    b: i32,
    m: i32,
    n: i32,
    d: i32,
)
    requires
        0 <= held,
        0 <= p,
        0 < n,
        offset == held + p,
        offset + n <= i32::MAX,
        step.shape == heads(b, m, n, d),
        part_on(step, run, 2, p),
        offset > 0 ==> buffer_tracks(buffer->Some_0, start, held, run, b, m, offset, d),
        reads_back(fetched, buffer, offset, step, b, m, n, d),
        reads_back_buffer(after, fetched, b, m, (offset + n) as i32, d),
    ensures
        buffer_tracks(fetched, start, held, run, b, m, (offset + n) as i32, d),
        buffer_tracks(after, start, held, run, b, m, (offset + n) as i32, d),
{
    let end = (offset + n) as i32;
    assert forall|ix: Seq<int>| #[trigger] in_shape(ix, heads(b, m, end, d)) implies elem(
        fetched,
        ix,
    ) == joined_at(start, held, run, ix) && elem(after, ix) == joined_at(start, held, run, ix) by {
        let sh = heads(b, m, end, d);
        assert(0 <= ix[0] < sh[0] && 0 <= ix[1] < sh[1] && 0 <= ix[2] < sh[2] && 0 <= ix[3]
            < sh[3]);
        if ix[2] < offset {
            assert(in_shape(ix, heads(b, m, offset, d)));
        } else {
            let jx = ix.update(2, ix[2] - offset);
            assert(in_shape(jx, heads(b, m, n, d)));
            assert(elem(step, jx) == elem(run, jx.update(2, jx[2] + p)));
            assert(jx.update(2, jx[2] + p) =~= ix.update(2, ix[2] - held));
        }
    }
}

/// A cache that stands behind `p` positions of a run stands behind `p + n` once it was given the
/// next `n`, and hands back all positions so far.
pub proof fn a_run_goes_on(
    c: KvState,
    start: KvState,
    k: Term,
    v: Term,
    keys: Term,
    values: Term,
    p: int,
    b: i32,
    m: i32,
    n: i32,
    d: i32,
    top: i32,
)
    requires
        0 < n,
        0 <= p,
        0 <= start.offset,
        start.offset + p + n <= top,
        top_fits(top),
        kv_tracks(c, start, keys, values, p, b, m, d),
        holds_positions(c, b, m, d, (start.offset + p) as i32, top),
        k.shape == heads(b, m, n, d),
        v.shape == heads(b, m, n, d),
        part_on(k, keys, 2, p),
        part_on(v, values, 2, p),
    ensures
        ({
            let (t, r) = kv_updated(c, k, v);
            let all = (start.offset + p + n) as i32;
            &&& kv_tracks(t, start, keys, values, p + n, b, m, d)
            &&& holds_positions(t, b, m, d, all, top)
            &&& r is Ok
            &&& r->Ok_0.0.shape == heads(b, m, all, d) && r->Ok_0.0.dtype == keys.dtype
            &&& r->Ok_0.1.shape == heads(b, m, all, d) && r->Ok_0.1.dtype == values.dtype
            &&& buffer_tracks(r->Ok_0.0, start.keys, start.offset, keys, b, m, all, d)
            &&& buffer_tracks(r->Ok_0.1, start.values, start.offset, values, b, m, all, d)
        }),
{
    update_reads_back(c, k, v, b, m, d, d, n);
    buffers_stay_in_bounds(c, k, v, b, m, d, d, n, top as int);
    lemma_update_types(c, k, v);
    let (t, r) = kv_updated(c, k, v);
    lemma_track_one(
        r->Ok_0.0,
        t.keys->Some_0,
        c.keys,
        start.keys,
        start.offset,
        c.offset,
        k,
        keys,
        p,
        b,
        m,
        n,
        d,
    );
    lemma_track_one(
        r->Ok_0.1,
        t.values->Some_0,
        c.values,
        start.values,
        start.offset,
        c.offset,
        v,
        values,
        p,
        b,
        m,
        n,
        d,
    );
}

/// What an element of attention reads is all that it depends on.
proof fn lemma_attention_alike(y: Term, w: Term, ix: Seq<int>, jx: Seq<int>)
    requires
        y.kind matches Kind::Attention { mask, sinks } && mask != MaskMode::Given && !sinks,
        w.kind matches Kind::Attention { mask, sinks } && mask != MaskMode::Given && !sinks,
        y.args.len() == 3,
        w.args.len() == 3,
        ix.len() == 4,
        jx.len() == 4,
        y.scalars == w.scalars,
        y.args[0].dtype == w.args[0].dtype,
        y.args[1].dtype == w.args[1].dtype,
        y.args[2].dtype == w.args[2].dtype,
        last_row(y.args[0], ix) == last_row(w.args[0], jx),
        ({
            let n = seen_by(
                y.kind->Attention_mask,
                ix[2],
                y.args[0].shape[2] as int,
                y.args[1].shape[2] as int,
            );
            let g = ix[1] / (y.args[0].shape[1] as int / y.args[1].shape[1] as int);
            let o = seen_by(
                w.kind->Attention_mask,
                jx[2],
                w.args[0].shape[2] as int,
                w.args[1].shape[2] as int,
            );
            let h = jx[1] / (w.args[0].shape[1] as int / w.args[1].shape[1] as int);
            &&& seen_keys(y.args[1], ix[0], g, n) == seen_keys(w.args[1], jx[0], h, o)
            &&& seen_values(y.args[2], ix[0], g, ix[3], n) == seen_values(
                w.args[2],
                jx[0],
                h,
                jx[3],
                o,
            )
        }),
    ensures
        elem(y, ix) == elem(w, jx),
{
    reveal(computed);
    assert(elem(y, ix) == computed(y, ix) && elem(w, jx) == computed(w, jx));
}

/// The mask of a run of `n` positions.
pub open spec fn run_mask(n: i32) -> MaskTerm {
    if n > 1 {
        MaskTerm::Causal
    } else {
        MaskTerm::Unmasked
    }
}

/// The keys and values of the first positions are the same in the part and in the whole.
proof fn lemma_seen(
    k: Term,
    all: Term,
    start: Option<Term>,
    held: i32,
    run: Term,
    b: i32,
    m: i32,
    s: i32,
    u: i32,
    d: i32,
    i: int,
    g: int,
    e: int,
    n: nat,
)
    requires
        k.shape == heads(b, m, s, d),
        all.shape == heads(b, m, u, d),
        buffer_tracks(k, start, held, run, b, m, s, d),
        buffer_tracks(all, start, held, run, b, m, u, d),
        n <= s,
        s <= u,
        0 <= i < b,
        0 <= g < m,
        0 <= e < d,
    ensures
        seen_keys(k, i, g, n) == seen_keys(all, i, g, n),
        seen_values(k, i, g, e, n) == seen_values(all, i, g, e, n),
{
    let (p, q) = (seen_keys(k, i, g, n), seen_keys(all, i, g, n));
    assert forall|j: int| 0 <= j < n implies p[j] == q[j] by {
        let ix = seq![i, g, j, 0];
        let (x, y) = (last_row(k, ix), last_row(all, ix));
        assert forall|f: int| 0 <= f < x.len() implies x[f] == y[f] by {
            let jx = ix.update(3, f);
            assert(in_shape(jx, heads(b, m, s, d)) && in_shape(jx, heads(b, m, u, d)));
        }
        assert(x =~= y);
    }
    assert(p =~= q);
    let (x, y) = (seen_values(k, i, g, e, n), seen_values(all, i, g, e, n));
    assert forall|j: int| 0 <= j < n implies x[j] == y[j] by {
        let ix = seq![i, g, j, e];
        assert(in_shape(ix, heads(b, m, s, d)) && in_shape(ix, heads(b, m, u, d)));
    }
    assert(x =~= y);
}

/// Attention works query by query: a query gives what it gives within the whole run, since it may
/// see the same positions.
proof fn lemma_attention(
    q: Term,
    all_q: Term,
    k: Term,
    v: Term,
    all_k: Term,
    all_v: Term,
    start: KvState,
    keys: Term,
    values: Term,
    scale: Scalar,
    p: int,
    b: i32,
    h: i32,
    m: i32,
    n: i32,
    t: i32,
    d: i32,
)
    requires
        b > 0,
        h > 0,
        m > 0,
        h % m == 0,
        d > 0,
        0 < n,
        0 <= p,
        p + n <= t,
        0 <= start.offset,
        start.offset + t <= i32::MAX,
        part_on(q, all_q, 2, p),
        q.shape == heads(b, h, n, d),
        all_q.shape == heads(b, h, t, d),
        k.shape == heads(b, m, (start.offset + p + n) as i32, d),
        v.shape == heads(b, m, (start.offset + p + n) as i32, d),
        all_k.shape == heads(b, m, (start.offset + t) as i32, d),
        all_v.shape == heads(b, m, (start.offset + t) as i32, d),
        k.dtype == all_k.dtype,
        v.dtype == all_v.dtype,
        buffer_tracks(
            k,
            start.keys,
            start.offset,
            keys,
            b,
            m,
            (start.offset + p + n) as i32,
            d,
        ),
        buffer_tracks(
            v,
            start.values,
            start.offset,
            values,
            b,
            m,
            (start.offset + p + n) as i32,
            d,
        ),
        buffer_tracks(
            all_k,
            start.keys,
            start.offset,
            keys,
            b,
            m,
            (start.offset + t) as i32,
            d,
        ),
        buffer_tracks(
            all_v,
            start.values,
            start.offset,
            values,
            b,
            m,
            (start.offset + t) as i32,
            d,
        ),
    ensures
        held_by(
            t_attention(Ok(q), Ok(k), Ok(v), scale, run_mask(n), None),
            t_attention(Ok(all_q), Ok(all_k), Ok(all_v), scale, run_mask(t), None),
            2,
            p,
            heads(b, h, n, d),
            heads(b, h, t, d),
        ),
{
    let (s, u) = ((start.offset + p + n) as i32, (start.offset + t) as i32);
    let ty = t_attention(Ok(q), Ok(k), Ok(v), scale, run_mask(n), None);
    let tw = t_attention(Ok(all_q), Ok(all_k), Ok(all_v), scale, run_mask(t), None);
    reveal(raw_attention);
    assert(has_shape(ty, heads(b, h, n, d)) && has_shape(tw, heads(b, h, t, d)));
    let (y, w) = (ty->Ok_0, tw->Ok_0);
    assert(y.args[0] == q && y.args[1] == k && y.args[2] == v);
    assert(w.args[0] == all_q && w.args[1] == all_k && w.args[2] == all_v);
    assert(y.shape =~= w.shape.update(2, n));
    let r = h as int / m as int;
    vstd::arithmetic::div_mod::lemma_fundamental_div_mod(h as int, m as int);
    assert(r >= 1) by (nonlinear_arith)
        requires
            h == m * r,
            h > 0,
            m > 0,
    ;
    assert forall|ix: Seq<int>| #[trigger] in_shape(ix, y.shape) implies elem(y, ix) == elem(
        w,
        ix.update(2, ix[2] + p),
    ) by {
        let sh = y.shape;
        assert(0 <= ix[0] < sh[0] && 0 <= ix[1] < sh[1] && 0 <= ix[2] < sh[2] && 0 <= ix[3]
            < sh[3]);
        let jx = moved(ix, 2, p);
        lemma_last_rows(ix, q, all_q, 2, p);
        let g = ix[1] / r;
        assert(0 <= g < m) by (nonlinear_arith)
            requires
                0 <= ix[1] < h,
                h == m * r,
                r >= 1,
                g == ix[1] / r,
        ;
        let count = (start.offset + p + ix[2] + 1) as nat;
        assert(seen_by(y.kind->Attention_mask, ix[2], n as int, s as int) == count);
        assert(seen_by(w.kind->Attention_mask, jx[2], t as int, u as int) == count);
        lemma_seen(
            k,
            all_k,
            start.keys,
            start.offset,
            keys,
            b,
            m,
            s,
            u,
            d,
            ix[0],
            g,
            ix[3],
            count,
        );
        lemma_seen(
            v,
            all_v,
            start.values,
            start.offset,
            values,
            b,
            m,
            s,
            u,
            d,
            ix[0],
            g,
            ix[3],
            count,
        );
        lemma_attention_alike(y, w, ix, jx);
    }
}

/// The queries, gates, keys and values of some positions are those of the whole run.
proof fn lemma_projections(
    a: Attention,
    x: Term,
    w: Term,
    p: int,
    b: i32,
    n: i32,
    t: i32,
    dim: i32,
)
    requires
        b > 0,
        0 < n,
        0 < t,
        b * n <= i32::MAX,
        b * t <= i32::MAX,
        gated_attention_goes(a, dim),
        part_on(x, w, 1, p),
        x.shape == seq![b, n, dim],
        w.shape == seq![b, t, dim],
    ensures
        ({
            let (h, m, d) = (a.n_heads, a.n_kv_heads, a.head_dim);
            &&& held_by(
                a.queries(x),
                a.queries(w),
                2,
                p,
                heads(b, h, n, d),
                heads(b, h, t, d),
            )
            &&& held_by(a.keys(x), a.keys(w), 2, p, heads(b, m, n, d), heads(b, m, t, d))
            &&& held_by(a.values(x), a.values(w), 2, p, heads(b, m, n, d), heads(b, m, t, d))
            &&& held_by(
                a.gates(x),
                a.gates(w),
                1,
                p,
                seq![b, n, (h * d) as i32],
                seq![b, t, (h * d) as i32],
            )
        }),
{
    let (h, m, d) = (a.n_heads, a.n_kv_heads, a.head_dim);
    let e = (d * 2) as i32;
    assert(d * 2 <= i32::MAX && h * d <= i32::MAX) by (nonlinear_arith)
        requires
            h > 0,
            d > 0,
            h * (d * 2) <= i32::MAX,
    ;
    lemma_query_projections(a, x, w, p, b, n, t, dim);
    // Keys and values.
    linear_on_parts(a.k_proj@, x, w, p, b, n, t, dim, (m * d) as i32);
    linear_on_parts(a.v_proj@, x, w, p, b, n, t, dim, (m * d) as i32);
    let (kx, kw) = (t_linear(a.k_proj@, Ok(x)), t_linear(a.k_proj@, Ok(w)));
    let (vx, vw) = (t_linear(a.v_proj@, Ok(x)), t_linear(a.v_proj@, Ok(w)));
    lemma_split(kx->Ok_0, kw->Ok_0, p, b, n, t, m, d);
    lemma_split(vx->Ok_0, vw->Ok_0, p, b, n, t, m, d);
    let gx = t_reshape(kx, seq![b, n, m, -1i32]);
    let gw = t_reshape(kw, seq![b, t, m, -1i32]);
    lemma_normed(a.k_norm, gx->Ok_0, gw->Ok_0, p, b, n, t, m, d);
}

proof fn lemma_query_projections(
    a: Attention,
    x: Term,
    w: Term,
    p: int,
    b: i32,
    n: i32,
    t: i32,
    dim: i32,
)
    requires
        b > 0,
        0 < n,
        0 < t,
        b * n <= i32::MAX,
        b * t <= i32::MAX,
        gated_attention_goes(a, dim),
        part_on(x, w, 1, p),
        x.shape == seq![b, n, dim],
        w.shape == seq![b, t, dim],
    ensures
        ({
            let (h, d) = (a.n_heads, a.head_dim);
            &&& held_by(
                a.queries(x),
                a.queries(w),
                2,
                p,
                heads(b, h, n, d),
                heads(b, h, t, d),
            )
            &&& held_by(
                a.gates(x),
                a.gates(w),
                1,
                p,
                seq![b, n, (h * d) as i32],
                seq![b, t, (h * d) as i32],
            )
        }),
{
    let (h, d) = (a.n_heads, a.head_dim);
    let e = (d * 2) as i32;
    assert(d * 2 <= i32::MAX && h * d <= i32::MAX) by (nonlinear_arith)
        requires
            h > 0,
            d > 0,
            h * (d * 2) <= i32::MAX,
    ;
    linear_on_parts(a.q_proj@, x, w, p, b, n, t, dim, (h * e) as i32);
    let (lx, lw) = (t_linear(a.q_proj@, Ok(x)), t_linear(a.q_proj@, Ok(w)));
    lemma_grouped(lx, b, n, h, e);
    lemma_grouped(lw, b, t, h, e);
    let (qx, qw) = (a.queries_and_gates(x), a.queries_and_gates(w));
    lemma_is_reshape(lx->Ok_0, seq![b, n, h, e]);
    lemma_is_reshape(lw->Ok_0, seq![b, t, h, e]);
    grouping_on_parts(lx->Ok_0, lw->Ok_0, qx->Ok_0, qw->Ok_0, p, b, n, t, h, e);
    lemma_half(qx, b, n, h, d, 0, d);
    lemma_half(qx, b, n, h, d, d, OPEN);
    assert(seq![b, n, h, e].update(3, d) =~= seq![b, n, h, d]);
    assert(seq![b, t, h, e].update(3, d) =~= seq![b, t, h, d]);
    cuts_on_parts(qx->Ok_0, qw->Ok_0, 1, p, 0, d, d);
    cuts_on_parts(qx->Ok_0, qw->Ok_0, 1, p, d, OPEN, d);
    let (sx, sw) = (t_slice(qx, -1i32, 0, d), t_slice(qw, -1i32, 0, d));
    lemma_normed(a.q_norm, sx->Ok_0, sw->Ok_0, p, b, n, t, h, d);
    let (gx, gw) = (t_slice(qx, -1i32, d, OPEN), t_slice(qw, -1i32, d, OPEN));
    lemma_ungrouped(gx, b, n, h, d);
    lemma_ungrouped(gw, b, t, h, d);
    lemma_is_reshape(gx->Ok_0, seq![b, n, -1i32]);
    lemma_is_reshape(gw->Ok_0, seq![b, t, -1i32]);
    joining_on_parts(
        gx->Ok_0,
        gw->Ok_0,
        a.gates(x)->Ok_0,
        a.gates(w)->Ok_0,
        p,
        b,
        n,
        t,
        h,
        d,
    );
}

/// Heads normalized and put before the positions.
proof fn lemma_normed(
    norm: RmsNorm,
    x: Term,
    w: Term,
    p: int,
    b: i32,
    n: i32,
    t: i32,
    h: i32,
    d: i32,
)
    requires
        part_on(x, w, 1, p),
        x.shape == seq![b, n, h, d],
        w.shape == seq![b, t, h, d],
        norm.weight@.shape == seq![d],
    ensures
        held_by(
            t_transpose(norm.apply(Ok(x)), heads_first()),
            t_transpose(norm.apply(Ok(w)), heads_first()),
            2,
            p,
            heads(b, h, n, d),
            heads(b, h, t, d),
        ),
{
    lemma_headed(norm, Ok(x), b, n, h, d);
    lemma_headed(norm, Ok(w), b, t, h, d);
    norms_on_parts(Some(norm.weight@), norm.eps, x, w, 1, p);
    swaps_on_parts(norm.apply(Ok(x))->Ok_0, norm.apply(Ok(w))->Ok_0, 1, p, b, n, h, t, h, d);
}

/// Rows split into heads, which come before the positions.
proof fn lemma_split(x: Term, w: Term, p: int, b: i32, n: i32, t: i32, h: i32, d: i32)
    requires
        b > 0,
        n > 0,
        t > 0,
        h > 0,
        d > 0,
        b * n <= i32::MAX,
        b * t <= i32::MAX,
        h * d <= i32::MAX,
        part_on(x, w, 1, p),
        x.shape == seq![b, n, (h * d) as i32],
        w.shape == seq![b, t, (h * d) as i32],
    ensures
        held_by(
            t_reshape(Ok(x), seq![b, n, h, -1i32]),
            t_reshape(Ok(w), seq![b, t, h, -1i32]),
            1,
            p,
            seq![b, n, h, d],
            seq![b, t, h, d],
        ),
        held_by(
            split_heads(Ok(x), b, n, h),
            split_heads(Ok(w), b, t, h),
            2,
            p,
            heads(b, h, n, d),
            heads(b, h, t, d),
        ),
{
    lemma_open_group(x, b, n, h, d);
    lemma_open_group(w, b, t, h, d);
    let (y, v) = (
        t_reshape(Ok(x), seq![b, n, h, -1i32])->Ok_0,
        t_reshape(Ok(w), seq![b, t, h, -1i32])->Ok_0,
    );
    lemma_is_reshape(x, seq![b, n, h, -1i32]);
    lemma_is_reshape(w, seq![b, t, h, -1i32]);
    grouping_on_parts(x, w, y, v, p, b, n, t, h, d);
    assert(heads_first() =~= seq![0i32, 2i32, 1i32, 3i32]);
    swaps_on_parts(y, v, 1, p, b, n, h, t, h, d);
}

/// Rows under a shape with heads whose size is left to be found.
proof fn lemma_open_group(x: Term, b: i32, l: i32, m: i32, d: i32)
    requires
        b > 0,
        l > 0,
        m > 0,
        d > 0,
        b * l <= i32::MAX,
        m * d <= i32::MAX,
        x.shape == seq![b, l, (m * d) as i32],
    ensures
        has_shape(t_reshape(Ok(x), seq![b, l, m, -1i32]), seq![b, l, m, d]),
{
    splitting_gives_heads(Ok(x), b, l, m, d);
    let grouped = t_reshape(Ok(x), seq![b, l, m, -1i32]);
    reveal(raw_transpose);
    let axes = seq![0i32, 2i32, 1i32, 3i32];
    let t = grouped->Ok_0;
    let p = permuted(t.shape, axes);
    assert(p == seq![b, m, l, d]);
    assert(t.shape.len() == 4);
    assert(p[0] == t.shape[0] && p[1] == t.shape[2] && p[2] == t.shape[1] && p[3] == t.shape[3]);
    assert(t.shape =~= seq![b, l, m, d]);
}

/// The keys of a whole run, turned by their positions.
pub open spec fn run_keys(a: Attention, w: Term, start: KvState) -> Term {
    rotated::<ConcatKeyValueCache>(a.rope, a.keys(w), Some(start), None)->Ok_0
}

/// The values of a whole run.
pub open spec fn run_values(a: Attention, w: Term) -> Term {
    a.values(w)->Ok_0
}

/// Full attention that reads the next positions of a run gives what one pass over the run gives
/// there, and leaves a cache that keeps track.
pub proof fn attention_reads_on(
    a: Attention,
    x: Term,
    w: Term,
    start: KvState,
    c: KvState,
    p: int,
    b: i32,
    n: i32,
    t: i32,
    dim: i32,
    top: i32,
)
    requires
        b > 0,
        0 < n,
        0 <= p,
        p + n <= t,
        b * t <= i32::MAX,
        0 <= start.offset,
        start.offset + t <= top,
        top_fits(top),
        gated_attention_goes(a, dim),
        part_on(x, w, 1, p),
        x.shape == seq![b, n, dim],
        w.shape == seq![b, t, dim],
        holds_positions(start, b, a.n_kv_heads, a.head_dim, start.offset, top),
        kv_typed(start, run_keys(a, w, start).dtype, run_values(a, w).dtype),
        holds_positions(c, b, a.n_kv_heads, a.head_dim, (start.offset + p) as i32, top),
        kv_tracks(
            c,
            start,
            run_keys(a, w, start),
            run_values(a, w),
            p,
            b,
            a.n_kv_heads,
            a.head_dim,
        ),
    ensures
        ({
            let (y, after) = a.apply(x, n > 1, Some(c));
            &&& held_by(
                y,
                a.apply(w, t > 1, Some(start)).0,
                1,
                p,
                seq![b, n, dim],
                seq![b, t, dim],
            )
            &&& after matches Some(z) && kv_tracks(
                z,
                start,
                run_keys(a, w, start),
                run_values(a, w),
                p + n,
                b,
                a.n_kv_heads,
                a.head_dim,
            ) && holds_positions(
                z,
                b,
                a.n_kv_heads,
                a.head_dim,
                (start.offset + p + n) as i32,
                top,
            )
        }),
{
    reveal(Attention::apply);
    let (h, m, d) = (a.n_heads, a.n_kv_heads, a.head_dim);
    assert(b * n <= b * t) by (nonlinear_arith)
        requires
            b > 0,
            n <= t,
    ;
    lemma_projections(a, x, w, p, b, n, t, dim);
    let (qx, qw) = (a.queries(x)->Ok_0, a.queries(w)->Ok_0);
    let (kx, kw) = (a.keys(x)->Ok_0, a.keys(w)->Ok_0);
    let (vx, vw) = (a.values(x)->Ok_0, a.values(w)->Ok_0);
    turns_on_parts(a.rope, qx, qw, p, start.offset);
    turns_on_parts(a.rope, kx, kw, p, start.offset);
    let (keys, values) = (run_keys(a, w, start), run_values(a, w));
    let rq = a.rope.apply(Ok(qx), c.offset);
    let rk = a.rope.apply(Ok(kx), c.offset);
    let (sq, sk) = (a.rope.apply(Ok(qw), start.offset), a.rope.apply(Ok(kw), start.offset));
    // The part.
    a_run_goes_on(c, start, rk->Ok_0, vx, keys, values, p, b, m, n, d, top);
    // The whole.
    all_is_a_part(keys, 2);
    all_is_a_part(values, 2);
    a_run_starts(start, keys, values, b, m, d);
    a_run_goes_on(start, start, keys, values, keys, values, 0, b, m, t, d, top);
    let (after, r) = kv_updated(c, rk->Ok_0, vx);
    let (_, s) = kv_updated(start, keys, values);
    lemma_attention(
        rq->Ok_0,
        sq->Ok_0,
        r->Ok_0.0,
        r->Ok_0.1,
        s->Ok_0.0,
        s->Ok_0.1,
        start,
        keys,
        values,
        a.scale,
        p,
        b,
        h,
        m,
        n,
        t,
        d,
    );
    let ax = attended::<ConcatKeyValueCache>(
        a.rope,
        Ok(qx),
        Ok(kx),
        Ok(vx),
        a.scale,
        run_mask(n),
        None,
        Some(c),
        None,
    );
    let aw = attended::<ConcatKeyValueCache>(
        a.rope,
        Ok(qw),
        Ok(kw),
        Ok(vw),
        a.scale,
        run_mask(t),
        None,
        Some(start),
        None,
    );
    assert(held_by(ax.0, aw.0, 2, p, heads(b, h, n, d), heads(b, h, t, d)));
    assert(ax.1 == Some(after));
    lemma_gated_output(
        a,
        ax.0->Ok_0,
        aw.0->Ok_0,
        a.gates(x)->Ok_0,
        a.gates(w)->Ok_0,
        p,
        b,
        n,
        t,
        dim,
    );
}

/// Heads joined, gated and projected.
proof fn lemma_gated_output(
    a: Attention,
    x: Term,
    w: Term,
    g: Term,
    f: Term,
    p: int,
    b: i32,
    n: i32,
    t: i32,
    dim: i32,
)
    requires
        b > 0,
        0 < n,
        0 < t,
        b * n <= i32::MAX,
        b * t <= i32::MAX,
        gated_attention_goes(a, dim),
        part_on(x, w, 2, p),
        x.shape == heads(b, a.n_heads, n, a.head_dim),
        w.shape == heads(b, a.n_heads, t, a.head_dim),
        part_on(g, f, 1, p),
        g.shape == seq![b, n, (a.n_heads * a.head_dim) as i32],
        f.shape == seq![b, t, (a.n_heads * a.head_dim) as i32],
    ensures
        held_by(
            t_linear(a.o_proj@, t_multiply(join_heads(Ok(x), b, n), t_sigmoid(Ok(g)))),
            t_linear(a.o_proj@, t_multiply(join_heads(Ok(w), b, t), t_sigmoid(Ok(f)))),
            1,
            p,
            seq![b, n, dim],
            seq![b, t, dim],
        ),
{
    let (h, d) = (a.n_heads, a.head_dim);
    assert(h * d <= i32::MAX) by (nonlinear_arith)
        requires
            h > 0,
            d > 0,
            h * (d * 2) <= i32::MAX,
    ;
    assert(heads_first() =~= seq![0i32, 2i32, 1i32, 3i32]);
    swaps_on_parts(x, w, 2, p, b, h, n, h, t, d);
    joining_gives_rows(Ok(x), b, n, h, d);
    joining_gives_rows(Ok(w), b, t, h, d);
    let (sx, sw) = (t_transpose(Ok(x), heads_first()), t_transpose(Ok(w), heads_first()));
    let (jx, jw) = (join_heads(Ok(x), b, n), join_heads(Ok(w), b, t));
    lemma_is_reshape(sx->Ok_0, seq![b, n, -1i32]);
    lemma_is_reshape(sw->Ok_0, seq![b, t, -1i32]);
    joining_on_parts(sx->Ok_0, sw->Ok_0, jx->Ok_0, jw->Ok_0, p, b, n, t, h, d);
    unary_on_parts(crate::array::UnaryOp::Sigmoid, g, f, 1, p);
    let (gx, gw) = (t_sigmoid(Ok(g)), t_sigmoid(Ok(f)));
    pairs_on_parts(
        crate::array::BinaryOp::Multiply,
        jx->Ok_0,
        jw->Ok_0,
        gx->Ok_0,
        gw->Ok_0,
        1,
        p,
    );
    linear_on_parts(
        a.o_proj@,
        t_multiply(jx, gx)->Ok_0,
        t_multiply(jw, gw)->Ok_0,
        p,
        b,
        n,
        t,
        (h * d) as i32,
        dim,
    );
}

} // verus!
