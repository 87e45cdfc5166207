//! Reading a prompt in chunks gives what one pass over it gives.

use crate::array::{BinaryOp, Term, Tn};
use crate::error::Exception;
use crate::fast::raw_rms_norm;
use crate::laws::arrays::{a_slice_is_a_part, part_on};
use crate::laws::cache::heads;
use crate::laws::feeds::{
    experts_feed_by_position, experts_go, feeds_by_position, linear_layers_feed_by_position,
    mlp_goes,
};
use crate::laws::hybrid_model::{
    caches_hold, hybrid_goes, layer_goes, layer_holds, lemma_chunks, lemma_hybrid_layers,
    lemma_one_more_layer, reads_on,
};
use crate::laws::lookup::a_table_gives_a_row_a_token;
use crate::laws::model::top_fits;
use crate::laws::parts::{
    all_is_a_part, held_by, lemma_moved, linear_on_parts, moved, norms_on_parts, pairs_on_parts,
};
use crate::laws::shapes::{goes, has_shape, table_goes};
use crate::laws::tables::embeddings_on_parts;
use crate::laws::tracks::{
    a_run_starts, attention_reads_on, kv_tracks, kv_typed, run_keys, run_values,
};
use crate::laws::tracks_linear::{
    a_convolution_starts, a_recurrence_starts, conv_tracks, linear_attention_reads_on, rows,
    state_shape, state_tracks,
};
use crate::meaning::{elem, in_shape};
use crate::models::hybrid::{
    chunk_end, chunk_read, chunks_read, empty_layer, prompt_read, run_hybrid, FeedForward,
    HybridLayer, HybridLm, Progress,
};
use crate::models::qwen3::Mlp;
use crate::models::qwen3_5::LayerState;
use crate::models::qwen3_5_moe::SparseMoeBlock;
use crate::nn::{t_embed, EmbeddingTerm, LinearTerm, RmsNorm};
use crate::ops::elementwise::t_add;
use crate::ops::select::t_slice;
use vstd::prelude::*;

verus! {

/// The normalized states that a layer reads in one pass.
pub open spec fn normed<F: FeedForward>(t: HybridLayer<F>, w: Term) -> Term {
    t.input_layernorm.apply(Ok(w))->Ok_0
}

/// Whether the cache of a layer stands behind the first `p` positions of a run over `w` that began
/// with the cache `start`.
#[verifier::opaque]
pub open spec fn layer_tracks<F: FeedForward>(
    t: HybridLayer<F>,
    w: Term,
    start: LayerState,
    c: LayerState,
    p: nat,
    b: i32,
) -> bool {
    let n = normed(t, w);
    match (start, c) {
        (LayerState::Full(s), LayerState::Full(k)) => {
            let a = t.self_attn->Some_0;
            kv_tracks(
                k,
                s,
                run_keys(a, n, s),
                run_values(a, n),
                p as int,
                b,
                a.n_kv_heads,
                a.head_dim,
            )
        },
        (
            LayerState::Linear { conv: conv0, state: state0 },
            LayerState::Linear { conv, state },
        ) => {
            let a = t.linear_attn->Some_0;
            &&& p > 0 ==> conv is Some && state is Some
            &&& conv_tracks(a, n, conv0, conv, p as int, b)
            &&& state_tracks(a, n, conv0, state0, state, p, b)
        },
        _ => false,
    }
}

/// Whether a layer can be read in parts: its feed-forward part works position by position, and its
/// cache has the element types of its keys and values.
#[verifier::opaque]
pub open spec fn reads_in_parts<F: FeedForward>(
    t: HybridLayer<F>,
    w: Term,
    start: LayerState,
    b: i32,
    dim: i32,
) -> bool {
    &&& feeds_by_position(t.mlp, b, dim)
    &&& start matches LayerState::Full(s) ==> {
        let a = t.self_attn->Some_0;
        let n = normed(t, w);
        kv_typed(s, run_keys(a, n, s).dtype, run_values(a, n).dtype)
    }
}

/// At its start a run is behind nothing.
proof fn lemma_layer_starts<F: FeedForward>(
    t: HybridLayer<F>,
    w: Term,
    start: LayerState,
    b: i32,
    l: i32,
    dim: i32,
    held: i32,
    top: i32,
)
    requires
        b > 0,
        l > 0,
        b * l <= i32::MAX,
        layer_goes(t, dim, b, l),
        layer_holds(t, start, b, held, top),
        reads_in_parts(t, w, start, b, dim),
        w.shape == seq![b, l, dim],
    ensures
        layer_tracks(t, w, start, start, 0, b),
{
    reveal(layer_goes);
    reveal(layer_holds);
    reveal(reads_in_parts);
    reveal(layer_tracks);
    let n = normed(t, w);
    assert(has_shape(t.input_layernorm.apply(Ok(w)), seq![b, l, dim])) by {
        reveal(raw_rms_norm);
    }
    match start {
        LayerState::Full(s) => {
            let a = t.self_attn->Some_0;
            a_run_starts(
                s,
                run_keys(a, n, s),
                run_values(a, n),
                b,
                a.n_kv_heads,
                a.head_dim,
            );
        },
        LayerState::Linear { conv, state } => {
            let a = t.linear_attn->Some_0;
            a_convolution_starts(a, n, conv, b, l, dim);
            a_recurrence_starts(a, n, conv, state, b, l, dim);
        },
    }
}

/// The attention of a layer that reads the next positions.
proof fn lemma_mixed<F: FeedForward>(
    t: HybridLayer<F>,
    x: Term,
    w: Term,
    start: LayerState,
    c: LayerState,
    p: nat,
    b: i32,
    n: i32,
    l: i32,
    dim: i32,
    held: i32,
    top: i32,
)
    requires
        b > 0,
        0 < n,
        p + n <= l,
        b * l <= i32::MAX,
        held >= 0,
        held + l <= top,
        top_fits(top),
        layer_goes(t, dim, b, n),
        layer_goes(t, dim, b, l),
        layer_holds(t, start, b, held, top),
        layer_holds(t, c, b, (held + p) as i32, top),
        reads_in_parts(t, w, start, b, dim),
        layer_tracks(t, w, start, c, p, b),
        part_on(x, w, 1, p as int),
        x.shape == seq![b, n, dim],
        w.shape == seq![b, l, dim],
    ensures
        ({
            let nx = t.input_layernorm.apply(Ok(x))->Ok_0;
            let (r, after) = t.mixed(nx, n > 1, c);
            &&& t.input_layernorm.apply(Ok(x)) is Ok && t.input_layernorm.apply(Ok(w)) is Ok
            &&& held_by(
                r,
                t.mixed(normed(t, w), l > 1, start).0,
                1,
                p as int,
                seq![b, n, dim],
                seq![b, l, dim],
            )
            &&& layer_tracks(t, w, start, after, p + n as nat, b)
        }),
{
    reveal(layer_goes);
    reveal(layer_holds);
    reveal(reads_in_parts);
    reveal(layer_tracks);
    let norm = t.input_layernorm;
    assert(has_shape(norm.apply(Ok(x)), seq![b, n, dim]) && has_shape(
        norm.apply(Ok(w)),
        seq![b, l, dim],
    )) by {
        reveal(raw_rms_norm);
    }
    norms_on_parts(Some(norm.weight@), norm.eps, x, w, 1, p as int);
    let (nx, nw) = (norm.apply(Ok(x))->Ok_0, norm.apply(Ok(w))->Ok_0);
    match (start, c) {
        (LayerState::Full(s), LayerState::Full(k)) => {
            attention_reads_on(
                t.self_attn->Some_0,
                nx,
                nw,
                s,
                k,
                p as int,
                b,
                n,
                l,
                dim,
                top,
            );
        },
        (
            LayerState::Linear { conv: conv0, state: state0 },
            LayerState::Linear { conv, state },
        ) => {
            linear_attention_reads_on(
                t.linear_attn->Some_0,
                nx,
                nw,
                conv0,
                state0,
                conv,
                state,
                p,
                b,
                n,
                l,
                dim,
            );
        },
        _ => {},
    }
}

/// A layer that reads the next positions of a run gives what one pass over the run gives there, and
/// leaves a cache that keeps track.
pub proof fn a_layer_reads_on<F: FeedForward>(
    t: HybridLayer<F>,
    x: Term,
    w: Term,
    start: LayerState,
    c: LayerState,
    p: nat,
    b: i32,
    n: i32,
    l: i32,
    dim: i32,
    held: i32,
    top: i32,
)
    requires
        b > 0,
        0 < n,
        p + n <= l,
        b * l <= i32::MAX,
        held >= 0,
        held + l <= top,
        top_fits(top),
        layer_goes(t, dim, b, n),
        layer_goes(t, dim, b, l),
        layer_holds(t, start, b, held, top),
        layer_holds(t, c, b, (held + p) as i32, top),
        reads_in_parts(t, w, start, b, dim),
        layer_tracks(t, w, start, c, p, b),
        part_on(x, w, 1, p as int),
        x.shape == seq![b, n, dim],
        w.shape == seq![b, l, dim],
    ensures
        held_by(
            t.apply(x, n > 1, c).0,
            t.apply(w, l > 1, start).0,
            1,
            p as int,
            seq![b, n, dim],
            seq![b, l, dim],
        ),
        layer_tracks(t, w, start, t.apply(x, n > 1, c).1, p + n as nat, b),
{
    lemma_mixed(t, x, w, start, c, p, b, n, l, dim, held, top);
    let nx = t.input_layernorm.apply(Ok(x))->Ok_0;
    let (rx, rw) = (t.mixed(nx, n > 1, c).0, t.mixed(normed(t, w), l > 1, start).0);
    pairs_on_parts(BinaryOp::Add, x, w, rx->Ok_0, rw->Ok_0, 1, p as int);
    let (hx, hw) = (t_add(Ok(x), rx), t_add(Ok(w), rw));
    let norm = t.post_attention_layernorm;
    assert(norm.weight@.shape == seq![dim]) by {
        reveal(layer_goes);
    }
    assert(has_shape(norm.apply(hx), seq![b, n, dim]) && has_shape(
        norm.apply(hw),
        seq![b, l, dim],
    )) by {
        reveal(raw_rms_norm);
    }
    norms_on_parts(Some(norm.weight@), norm.eps, hx->Ok_0, hw->Ok_0, 1, p as int);
    let (gx, gw) = (norm.apply(hx)->Ok_0, norm.apply(hw)->Ok_0);
    assert(has_shape(t.mlp.feed(gx), seq![b, n, dim]) && has_shape(
        t.mlp.feed(gw),
        seq![b, l, dim],
    )) by {
        reveal(layer_goes);
    }
    assert(part_on(t.mlp.feed(gx)->Ok_0, t.mlp.feed(gw)->Ok_0, 1, p as int)) by {
        reveal(reads_in_parts);
        assert(part_on(gx, gw, 1, p as int));
    }
    pairs_on_parts(
        BinaryOp::Add,
        hx->Ok_0,
        hw->Ok_0,
        t.mlp.feed(gx)->Ok_0,
        t.mlp.feed(gw)->Ok_0,
        1,
        p as int,
    );
    reveal(HybridLayer::apply);
}

/// The hidden states before layer `i` in one pass.
pub open spec fn pass_states<F: FeedForward>(
    layers: Seq<HybridLayer<F>>,
    w: Term,
    starts: Seq<LayerState>,
    i: int,
) -> Term {
    run_hybrid(layers, w, w.shape[1] > 1, starts, i as nat).0->Ok_0
}

/// The caches behind the first `k` layers.
pub open spec fn caches_after<F: FeedForward>(
    layers: Seq<HybridLayer<F>>,
    x: Term,
    caches: Seq<LayerState>,
    k: nat,
) -> Seq<LayerState> {
    run_hybrid(layers, x, x.shape[1] > 1, caches, k).1
}

/// Whether every layer can be read in parts.
pub open spec fn layers_in_parts<F: FeedForward>(
    layers: Seq<HybridLayer<F>>,
    w: Term,
    starts: Seq<LayerState>,
    b: i32,
    dim: i32,
) -> bool {
    forall|i: int|
        0 <= i < layers.len() ==> reads_in_parts(
            #[trigger] layers[i],
            pass_states(layers, w, starts, i),
            starts[i],
            b,
            dim,
        )
}

/// Whether the caches stand behind the first `p` positions of one pass.
pub open spec fn caches_track<F: FeedForward>(
    layers: Seq<HybridLayer<F>>,
    w: Term,
    starts: Seq<LayerState>,
    caches: Seq<LayerState>,
    p: nat,
    b: i32,
) -> bool {
    &&& caches.len() == layers.len()
    &&& forall|i: int|
        0 <= i < layers.len() ==> layer_tracks(
            layers[i],
            pass_states(layers, w, starts, i),
            starts[i],
            #[trigger] caches[i],
            p,
            b,
        )
}

/// Whether every layer has its cache, behind `held` positions.
pub open spec fn layers_hold<F: FeedForward>(
    layers: Seq<HybridLayer<F>>,
    caches: Seq<LayerState>,
    b: i32,
    held: i32,
    top: i32,
) -> bool {
    &&& caches.len() == layers.len()
    &&& forall|i: int|
        0 <= i < layers.len() ==> layer_holds(layers[i], #[trigger] caches[i], b, held, top)
}

/// Whether every layer works on `l` positions of `b` rows.
pub open spec fn layers_go<F: FeedForward>(
    layers: Seq<HybridLayer<F>>,
    dim: i32,
    b: i32,
    l: i32,
) -> bool {
    forall|i: int| 0 <= i < layers.len() ==> layer_goes(#[trigger] layers[i], dim, b, l)
}

/// At its start a pass is behind nothing.
proof fn lemma_layers_start<F: FeedForward>(
    layers: Seq<HybridLayer<F>>,
    w: Term,
    starts: Seq<LayerState>,
    b: i32,
    l: i32,
    dim: i32,
    held: i32,
    top: i32,
)
    requires
        b > 0,
        l > 0,
        b * l <= i32::MAX,
        held + l <= top,
        top_fits(top),
        layers_go(layers, dim, b, l),
        layers_hold(layers, starts, b, held, top),
        layers_in_parts(layers, w, starts, b, dim),
        w.shape == seq![b, l, dim],
    ensures
        caches_track(layers, w, starts, starts, 0, b),
{
    assert forall|i: int| 0 <= i < layers.len() implies layer_tracks(
        layers[i],
        pass_states(layers, w, starts, i),
        starts[i],
        #[trigger] starts[i],
        0,
        b,
    ) by {
        lemma_hybrid_layers(layers, w, l > 1, starts, b, l, dim, held, top, i as nat);
        assert(layer_goes(layers[i], dim, b, l));
        lemma_layer_starts(
            layers[i],
            pass_states(layers, w, starts, i),
            starts[i],
            b,
            l,
            dim,
            held,
            top,
        );
    }
}

/// One more layer that reads the next positions.
proof fn lemma_one_more_reads_on<F: FeedForward>(
    layers: Seq<HybridLayer<F>>,
    x: Term,
    w: Term,
    starts: Seq<LayerState>,
    caches: Seq<LayerState>,
    p: nat,
    b: i32,
    n: i32,
    l: i32,
    dim: i32,
    held: i32,
    top: i32,
    k: nat,
)
    requires
        b > 0,
        0 < n,
        p + n <= l,
        b * l <= i32::MAX,
        held >= 0,
        held + l <= top,
        top_fits(top),
        layers_go(layers, dim, b, n),
        layers_go(layers, dim, b, l),
        layers_hold(layers, starts, b, held, top),
        layers_hold(layers, caches, b, (held + p) as i32, top),
        layers_in_parts(layers, w, starts, b, dim),
        caches_track(layers, w, starts, caches, p, b),
        x.shape == seq![b, n, dim],
        w.shape == seq![b, l, dim],
        k < layers.len(),
        held_by(
            run_hybrid(layers, x, n > 1, caches, k).0,
            run_hybrid(layers, w, l > 1, starts, k).0,
            1,
            p as int,
            seq![b, n, dim],
            seq![b, l, dim],
        ),
    ensures
        held_by(
            run_hybrid(layers, x, n > 1, caches, k + 1).0,
            run_hybrid(layers, w, l > 1, starts, k + 1).0,
            1,
            p as int,
            seq![b, n, dim],
            seq![b, l, dim],
        ),
        layer_tracks(
            layers[k as int],
            pass_states(layers, w, starts, k as int),
            starts[k as int],
            caches_after(layers, x, caches, k + 1)[k as int],
            p + n as nat,
            b,
        ),
        caches_after(layers, x, caches, k + 1).len() == layers.len(),
        forall|i: int|
            0 <= i < k ==> #[trigger] caches_after(layers, x, caches, k + 1)[i]
                == caches_after(layers, x, caches, k)[i],
{
    assert(b * n <= b * l) by (nonlinear_arith)
        requires
            b > 0,
            n <= l,
    ;
    let at = (held + p) as i32;
    lemma_hybrid_layers(layers, x, n > 1, caches, b, n, dim, at, top, k);
    lemma_hybrid_layers(layers, w, l > 1, starts, b, l, dim, held, top, k);
    let (y, s) = run_hybrid(layers, x, n > 1, caches, k);
    let (z, q) = run_hybrid(layers, w, l > 1, starts, k);
    let i = k as int;
    assert(s[i] == caches[i] && q[i] == starts[i]);
    let rx = lemma_one_more_layer(layers, x, n > 1, caches, k + 1);
    let rw = lemma_one_more_layer(layers, w, l > 1, starts, k + 1);
    assert(layer_goes(layers[i], dim, b, n) && layer_goes(layers[i], dim, b, l));
    a_layer_reads_on(
        layers[i],
        y->Ok_0,
        z->Ok_0,
        starts[i],
        caches[i],
        p,
        b,
        n,
        l,
        dim,
        held,
        top,
    );
}

/// Layers that read the next positions give what one pass gives there, and leave caches that keep
/// track.
pub proof fn layers_read_on<F: FeedForward>(
    layers: Seq<HybridLayer<F>>,
    x: Term,
    w: Term,
    starts: Seq<LayerState>,
    caches: Seq<LayerState>,
    p: nat,
    b: i32,
    n: i32,
    l: i32,
    dim: i32,
    held: i32,
    top: i32,
    k: nat,
)
    requires
        b > 0,
        0 < n,
        p + n <= l,
        b * l <= i32::MAX,
        held >= 0,
        held + l <= top,
        top_fits(top),
        layers_go(layers, dim, b, n),
        layers_go(layers, dim, b, l),
        layers_hold(layers, starts, b, held, top),
        layers_hold(layers, caches, b, (held + p) as i32, top),
        layers_in_parts(layers, w, starts, b, dim),
        caches_track(layers, w, starts, caches, p, b),
        part_on(x, w, 1, p as int),
        x.shape == seq![b, n, dim],
        w.shape == seq![b, l, dim],
        k <= layers.len(),
    ensures
        held_by(
            run_hybrid(layers, x, n > 1, caches, k).0,
            run_hybrid(layers, w, l > 1, starts, k).0,
            1,
            p as int,
            seq![b, n, dim],
            seq![b, l, dim],
        ),
        caches_after(layers, x, caches, k).len() == layers.len(),
        forall|i: int|
            0 <= i < k ==> layer_tracks(
                layers[i],
                pass_states(layers, w, starts, i),
                starts[i],
                #[trigger] caches_after(layers, x, caches, k)[i],
                p + n as nat,
                b,
            ),
    decreases k,
{
    if k > 0 {
        let j = (k - 1) as nat;
        layers_read_on(layers, x, w, starts, caches, p, b, n, l, dim, held, top, j);
        lemma_one_more_reads_on(layers, x, w, starts, caches, p, b, n, l, dim, held, top, j);
        let before = caches_after(layers, x, caches, j);
        let after = caches_after(layers, x, caches, k);
        assert forall|i: int| 0 <= i < k implies layer_tracks(
            layers[i],
            pass_states(layers, w, starts, i),
            starts[i],
            #[trigger] after[i],
            p + n as nat,
            b,
        ) by {
            if i < j {
                assert(after[i] == before[i]);
            }
        }
    }
}

/// The embedded tokens of a prompt.
pub open spec fn embedded<A, F: FeedForward>(m: HybridLm<A, F>, ids: Term) -> Term {
    t_embed(m.model.embed_tokens@, ids)->Ok_0
}

/// Whether a model can read a prompt in parts that starts with these caches.
pub open spec fn model_in_parts<A, F: FeedForward>(
    m: HybridLm<A, F>,
    ids: Term,
    starts: Seq<LayerState>,
    b: i32,
    dim: i32,
) -> bool {
    layers_in_parts(m.model.layers@, embedded(m, ids), starts, b, dim)
}

/// Whether the caches stand behind the first `p` tokens of a prompt read in one pass.
pub open spec fn model_tracks<A, F: FeedForward>(
    m: HybridLm<A, F>,
    ids: Term,
    starts: Seq<LayerState>,
    caches: Seq<LayerState>,
    p: nat,
    b: i32,
) -> bool {
    caches_track(m.model.layers@, embedded(m, ids), starts, caches, p, b)
}

/// A model that reads the next tokens of a prompt gives the hidden states that one pass over the
/// prompt gives there, and leaves caches that keep track.
pub proof fn a_model_reads_on<A, F: FeedForward>(
    m: HybridLm<A, F>,
    piece: Term,
    ids: Term,
    starts: Seq<LayerState>,
    caches: Seq<LayerState>,
    p: nat,
    b: i32,
    n: i32,
    l: i32,
    v: i32,
    dim: i32,
    held: i32,
    top: i32,
)
    requires
        b > 0,
        0 < n,
        p + n <= l,
        b * l <= i32::MAX,
        held >= 0,
        held + l <= top,
        top_fits(top),
        hybrid_goes(m, v, dim, b, n),
        hybrid_goes(m, v, dim, b, l),
        caches_hold(m, starts, b, held, top),
        caches_hold(m, caches, b, (held + p) as i32, top),
        model_in_parts(m, ids, starts, b, dim),
        model_tracks(m, ids, starts, caches, p, b),
        part_on(piece, ids, 1, p as int),
        piece.shape == seq![b, n],
        ids.shape == seq![b, l],
    ensures
        held_by(
            m.model.run(piece, caches).0,
            m.model.run(ids, starts).0,
            1,
            p as int,
            seq![b, n, dim],
            seq![b, l, dim],
        ),
        model_tracks(m, ids, starts, m.model.run(piece, caches).1, p + n as nat, b),
{
    let layers = m.model.layers@;
    let e = m.model.embed_tokens@;
    embeddings_on_parts(e, piece, ids, p as int, b, n, l, v, dim);
    let (x, w) = (embedded(m, piece), embedded(m, ids));
    lemma_all_layers(layers, x, w, starts, caches, p, b, n, l, dim, held, top);
    lemma_run(m, piece, caches);
    lemma_run(m, ids, starts);
    lemma_normed_parts(
        m.model.norm,
        run_hybrid(layers, x, n > 1, caches, layers.len()).0,
        run_hybrid(layers, w, l > 1, starts, layers.len()).0,
        p as int,
        b,
        n,
        l,
        dim,
    );
}

/// A run of a model whose layers all have a cache.
proof fn lemma_run<A, F: FeedForward>(m: HybridLm<A, F>, ids: Term, caches: Seq<LayerState>)
    requires
        t_embed(m.model.embed_tokens@, ids) is Ok,
        embedded(m, ids).shape.len() >= 2,
        caches.len() == m.model.layers@.len(),
    ensures
        ({
            let (layers, x) = (m.model.layers@, embedded(m, ids));
            m.model.run(ids, caches) == (
                m.model.norm.apply(
                    run_hybrid(layers, x, x.shape[1] > 1, caches, layers.len()).0,
                ),
                caches_after(layers, x, caches, layers.len()),
            )
        }),
{
}

/// A normalization keeps parts.
proof fn lemma_normed_parts(
    norm: RmsNorm,
    y: Tn,
    z: Tn,
    p: int,
    b: i32,
    n: i32,
    l: i32,
    dim: i32,
)
    requires
        norm.weight@.shape == seq![dim],
        held_by(y, z, 1, p, seq![b, n, dim], seq![b, l, dim]),
    ensures
        held_by(norm.apply(y), norm.apply(z), 1, p, seq![b, n, dim], seq![b, l, dim]),
{
    assert(has_shape(norm.apply(y), seq![b, n, dim]) && has_shape(
        norm.apply(z),
        seq![b, l, dim],
    )) by {
        reveal(raw_rms_norm);
    }
    norms_on_parts(Some(norm.weight@), norm.eps, y->Ok_0, z->Ok_0, 1, p);
}

/// All layers of a model that read the next positions.
proof fn lemma_all_layers<F: FeedForward>(
    layers: Seq<HybridLayer<F>>,
    x: Term,
    w: Term,
    starts: Seq<LayerState>,
    caches: Seq<LayerState>,
    p: nat,
    b: i32,
    n: i32,
    l: i32,
    dim: i32,
    held: i32,
    top: i32,
)
    requires
        b > 0,
        0 < n,
        p + n <= l,
        b * l <= i32::MAX,
        held >= 0,
        held + l <= top,
        top_fits(top),
        layers_go(layers, dim, b, n),
        layers_go(layers, dim, b, l),
        layers_hold(layers, starts, b, held, top),
        layers_hold(layers, caches, b, (held + p) as i32, top),
        layers_in_parts(layers, w, starts, b, dim),
        caches_track(layers, w, starts, caches, p, b),
        part_on(x, w, 1, p as int),
        x.shape == seq![b, n, dim],
        w.shape == seq![b, l, dim],
    ensures
        held_by(
            run_hybrid(layers, x, n > 1, caches, layers.len()).0,
            run_hybrid(layers, w, l > 1, starts, layers.len()).0,
            1,
            p as int,
            seq![b, n, dim],
            seq![b, l, dim],
        ),
        caches_track(
            layers,
            w,
            starts,
            caches_after(layers, x, caches, layers.len()),
            p + n as nat,
            b,
        ),
{
    layers_read_on(layers, x, w, starts, caches, p, b, n, l, dim, held, top, layers.len());
}

/// A part of a part is a part.
proof fn lemma_part_of_part(x: Term, y: Term, w: Term, lo: int, mid: int)
    requires
        part_on(x, y, 1, lo),
        part_on(y, w, 1, mid),
    ensures
        part_on(x, w, 1, lo + mid),
{
    assert(w.shape.update(1, x.shape[1]) =~= w.shape.update(1, y.shape[1]).update(1, x.shape[1]));
    assert forall|ix: Seq<int>| #[trigger] in_shape(ix, x.shape) implies elem(x, ix) == elem(
        w,
        ix.update(1, ix[1] + (lo + mid)),
    ) by {
        lemma_moved(ix, x, y, 1, lo);
        lemma_moved(moved(ix, 1, lo), y, w, 1, mid);
        assert(moved(moved(ix, 1, lo), 1, mid) =~= ix.update(1, ix[1] + (lo + mid)));
    }
}

/// Whether the reading of a prompt has come as far as one pass would have: the caches keep track,
/// and at the end the last hidden states of the pass are there.
pub open spec fn progress_tracks<A, F: FeedForward>(
    m: HybridLm<A, F>,
    ids: Term,
    starts: Seq<LayerState>,
    p: Progress,
    b: i32,
    t: i32,
    dim: i32,
) -> bool {
    match p.out {
        None => p.start >= 0 && model_tracks(m, ids, starts, p.caches, p.start as nat, b),
        Some(x) => {
            &&& model_tracks(m, ids, starts, p.caches, t as nat, b)
            &&& held_by(
                x,
                m.model.run(ids, starts).0,
                1,
                t - 1,
                seq![b, 1i32, dim],
                seq![b, t, dim],
            )
        },
    }
}

/// One more chunk keeps track.
proof fn lemma_chunk_tracks<A, F: FeedForward>(
    m: HybridLm<A, F>,
    ids: Term,
    starts: Seq<LayerState>,
    chunk: i32,
    p: Progress,
    b: i32,
    t: i32,
    v: i32,
    dim: i32,
    held: i32,
    top: i32,
)
    requires
        b > 0,
        t > 0,
        chunk > 0,
        b * t <= i32::MAX,
        held >= 0,
        held + t <= top,
        top_fits(top),
        forall|n: i32| 0 < n <= t ==> #[trigger] hybrid_goes(m, v, dim, b, n),
        caches_hold(m, starts, b, held, top),
        model_in_parts(m, ids, starts, b, dim),
        ids.shape == seq![b, t],
        p.out is None,
        reads_on(m, p, b, t, dim, held, top),
        progress_tracks(m, ids, starts, p, b, t, dim),
    ensures
        progress_tracks(m, ids, starts, chunk_read(&m.model, ids, chunk, p), b, t, dim),
{
    let end = chunk_end(p.start, chunk, t);
    let n = (end - p.start) as i32;
    let at = p.start as nat;
    let piece = t_slice(Ok(ids), 1, p.start as i32, end as i32);
    a_slice_is_a_part(ids, p.start as i32, end as i32);
    assert(has_shape(piece, seq![b, n])) by {
        assert(piece->Ok_0.shape =~= seq![b, n]);
    }
    assert(hybrid_goes(m, v, dim, b, n) && hybrid_goes(m, v, dim, b, t));
    a_model_reads_on(
        m,
        piece->Ok_0,
        ids,
        starts,
        p.caches,
        at,
        b,
        n,
        t,
        v,
        dim,
        held,
        top,
    );
    let (h, caches) = m.model.run(piece->Ok_0, p.caches);
    if end == t {
        let last = t_slice(h, 1, (n - 1) as i32, n);
        a_slice_is_a_part(h->Ok_0, (n - 1) as i32, n);
        assert(has_shape(last, seq![b, 1i32, dim])) by {
            assert(last->Ok_0.shape =~= seq![b, 1i32, dim]);
        }
        lemma_part_of_part(
            last->Ok_0,
            h->Ok_0,
            m.model.run(ids, starts).0->Ok_0,
            n - 1,
            p.start,
        );
        assert(n - 1 + p.start == t - 1);
    }
}

/// Every chunk keeps track.
proof fn lemma_chunks_track<A, F: FeedForward>(
    m: HybridLm<A, F>,
    ids: Term,
    starts: Seq<LayerState>,
    chunk: i32,
    b: i32,
    t: i32,
    v: i32,
    dim: i32,
    held: i32,
    top: i32,
    k: nat,
)
    requires
        b > 0,
        t > 0,
        chunk > 0,
        b * t <= i32::MAX,
        held >= 0,
        held + t <= top,
        top_fits(top),
        forall|n: i32| 0 < n <= t ==> #[trigger] hybrid_goes(m, v, dim, b, n),
        caches_hold(m, starts, b, held, top),
        model_in_parts(m, ids, starts, b, dim),
        model_tracks(m, ids, starts, starts, 0, b),
        ids.shape == seq![b, t],
    ensures
        progress_tracks(
            m,
            ids,
            starts,
            chunks_read(&m.model, ids, starts, chunk, k),
            b,
            t,
            dim,
        ),
    decreases k,
{
    if k > 0 {
        let j = (k - 1) as nat;
        lemma_chunks_track(m, ids, starts, chunk, b, t, v, dim, held, top, j);
        lemma_chunks(m, ids, starts, chunk, b, t, v, dim, held, top, j);
        let p = chunks_read(&m.model, ids, starts, chunk, j);
        if p.out is None {
            lemma_chunk_tracks(m, ids, starts, chunk, p, b, t, v, dim, held, top);
        }
    }
}

/// Whether two arrays are there and have the same elements under a shape.
pub open spec fn same_elements(x: Option<Term>, y: Option<Term>, shape: Seq<i32>) -> bool {
    &&& x is Some && y is Some
    &&& forall|ix: Seq<int>| #[trigger]
        in_shape(ix, shape) ==> elem(x->Some_0, ix) == elem(y->Some_0, ix)
}

/// Whether two caches of a layer hold the same: the same keys and values up to the same position,
/// or the same inputs of the convolution and the same state.
pub open spec fn same_cache<F: FeedForward>(
    t: HybridLayer<F>,
    c: LayerState,
    d: LayerState,
    b: i32,
) -> bool {
    match (c, d) {
        (LayerState::Full(x), LayerState::Full(y)) => {
            let a = t.self_attn->Some_0;
            let shape = heads(b, a.n_kv_heads, x.offset, a.head_dim);
            &&& x.offset == y.offset
            &&& same_elements(x.keys, y.keys, shape)
            &&& same_elements(x.values, y.values, shape)
        },
        (
            LayerState::Linear { conv: conv1, state: state1 },
            LayerState::Linear { conv: conv2, state: state2 },
        ) => {
            let a = t.linear_attn->Some_0;
            let kept = rows(b, (a.conv_kernel_size - 1) as i32, a.conv_dim);
            &&& same_elements(conv1, conv2, kept)
            &&& same_elements(
                state1,
                state2,
                state_shape(b, a.num_v_heads, a.head_v_dim, a.head_k_dim),
            )
        },
        _ => false,
    }
}

/// Caches behind the same positions of the same run hold the same.
proof fn lemma_same_cache<F: FeedForward>(
    t: HybridLayer<F>,
    w: Term,
    start: LayerState,
    c: LayerState,
    d: LayerState,
    p: nat,
    b: i32,
    held: i32,
    top: i32,
)
    requires
        p > 0,
        held >= 0,
        layer_holds(t, start, b, held, top),
        layer_tracks(t, w, start, c, p, b),
        layer_tracks(t, w, start, d, p, b),
    ensures
        same_cache(t, c, d, b),
{
    reveal(layer_holds);
    reveal(layer_tracks);
    match (c, d) {
        (
            LayerState::Linear { conv: conv1, state: state1 },
            LayerState::Linear { conv: conv2, state: state2 },
        ) => {
            let a = t.linear_attn->Some_0;
            let n = normed(t, w);
            let shape = state_shape(b, a.num_v_heads, a.head_v_dim, a.head_k_dim);
            assert(a.earlier(n, conv1) == Ok::<Term, Exception>(conv1->Some_0));
            assert(a.earlier(n, conv2) == Ok::<Term, Exception>(conv2->Some_0));
            assert forall|ix: Seq<int>| #[trigger] in_shape(ix, shape) implies elem(
                state1->Some_0,
                ix,
            ) == elem(state2->Some_0, ix) by {
            }
        },
        _ => {},
    }
}

/// Reading a prompt in chunks gives what one pass over it gives, whatever the size of the chunks:
/// the logits are those of the last position of the pass, and every cache holds the same.
pub proof fn chunks_read_what_one_pass_reads<A, F: FeedForward>(
    m: HybridLm<A, F>,
    ids: Term,
    caches: Seq<LayerState>,
    chunk: i32,
    b: i32,
    t: i32,
    v: i32,
    dim: i32,
    held: i32,
    top: i32,
)
    requires
        b > 0,
        t > 0,
        chunk > 0,
        b * t <= i32::MAX,
        held >= 0,
        held + t <= top,
        top_fits(top),
        forall|n: i32| 0 < n <= t ==> #[trigger] hybrid_goes(m, v, dim, b, n),
        caches_hold(m, caches, b, held, top),
        model_in_parts(m, ids, caches, b, dim),
        ids.shape == seq![b, t],
    ensures
        held_by(
            m.prefilled(ids, caches, chunk).0,
            m.run(ids, caches).0,
            1,
            t - 1,
            seq![b, 1i32, v],
            seq![b, t, v],
        ),
        m.prefilled(ids, caches, chunk).1.len() == caches.len(),
        m.run(ids, caches).1.len() == caches.len(),
        forall|i: int|
            0 <= i < caches.len() ==> same_cache(
                #[trigger] m.model.layers@[i],
                m.prefilled(ids, caches, chunk).1[i],
                m.run(ids, caches).1[i],
                b,
            ),
{
    let layers = m.model.layers@;
    assert(hybrid_goes(m, v, dim, b, t));
    a_table_gives_a_row_a_token(m.model.embed_tokens@, ids, b, t, v, dim);
    let w = embedded(m, ids);
    lemma_layers_start(layers, w, caches, b, t, dim, held, top);
    all_is_a_part(ids, 1);
    a_model_reads_on(m, ids, ids, caches, caches, 0, b, t, t, v, dim, held, top);
    let whole = m.model.run(ids, caches);
    lemma_chunks_track(m, ids, caches, chunk, b, t, v, dim, held, top, (t + 1) as nat);
    lemma_chunks(m, ids, caches, chunk, b, t, v, dim, held, top, (t + 1) as nat);
    let p = prompt_read(&m.model, ids, caches, chunk);
    assert(p.out is Some);
    let x = p.out->Some_0;
    lemma_logits_on_parts(m, x->Ok_0, whole.0->Ok_0, t - 1, b, 1, t, v, dim);
    assert forall|i: int| 0 <= i < caches.len() implies same_cache(
        #[trigger] layers[i],
        m.prefilled(ids, caches, chunk).1[i],
        m.run(ids, caches).1[i],
        b,
    ) by {
        lemma_same_cache(
            layers[i],
            pass_states(layers, w, caches, i),
            caches[i],
            p.caches[i],
            whole.1[i],
            t as nat,
            b,
            held,
            top,
        );
    }
}

/// The head of a model works position by position.
proof fn lemma_logits_on_parts<A, F: FeedForward>(
    m: HybridLm<A, F>,
    x: Term,
    w: Term,
    lo: int,
    b: i32,
    n: i32,
    t: i32,
    v: i32,
    dim: i32,
)
    requires
        hybrid_goes(m, v, dim, b, t),
        part_on(x, w, 1, lo),
        x.shape == seq![b, n, dim],
        w.shape == seq![b, t, dim],
    ensures
        held_by(m.projected(Ok(x)), m.projected(Ok(w)), 1, lo, seq![b, n, v], seq![b, t, v]),
{
    match m.lm_head {
        Some(head) => {
            linear_on_parts(head@, x, w, lo, b, n, t, dim, v);
        },
        None => {
            reveal(goes);
            reveal(table_goes);
            let l = match m.model.embed_tokens@ {
                EmbeddingTerm::Dense { weight } => LinearTerm::Dense { weight, bias: None },
                EmbeddingTerm::Packed { weight, scales, biases, group_size, bits } => {
                    LinearTerm::Packed { weight, scales, biases, bias: None, group_size, bits }
                },
            };
            linear_on_parts(l, x, w, lo, b, n, t, dim, v);
        },
    }
}

/// A dense model can read a prompt in parts from empty caches: its feed-forward layers work
/// position by position, and there is nothing whose element type could differ.
pub proof fn a_dense_model_reads_in_parts<A>(
    m: HybridLm<A, Mlp>,
    ids: Term,
    caches: Seq<LayerState>,
    b: i32,
    dim: i32,
    hidden: i32,
)
    requires
        caches.len() == m.model.layers@.len(),
        forall|i: int|
            0 <= i < caches.len() ==> #[trigger] caches[i] == empty_layer(
                m.model.layers@[i].is_linear,
            ),
        forall|i: int|
            0 <= i < caches.len() ==> mlp_goes((#[trigger] m.model.layers@[i]).mlp, dim, hidden),
    ensures
        model_in_parts(m, ids, caches, b, dim),
{
    let layers = m.model.layers@;
    assert forall|i: int| 0 <= i < layers.len() implies reads_in_parts(
        #[trigger] layers[i],
        pass_states(layers, embedded(m, ids), caches, i),
        caches[i],
        b,
        dim,
    ) by {
        reveal(reads_in_parts);
        assert(caches[i] == empty_layer(layers[i].is_linear));
        linear_layers_feed_by_position(layers[i].mlp, b, dim, hidden);
    }
}

/// So can a model of routed experts.
pub proof fn a_model_of_experts_reads_in_parts<A>(
    m: HybridLm<A, SparseMoeBlock>,
    ids: Term,
    caches: Seq<LayerState>,
    b: i32,
    dim: i32,
    hidden: i32,
    shared: i32,
)
    requires
        caches.len() == m.model.layers@.len(),
        forall|i: int|
            0 <= i < caches.len() ==> #[trigger] caches[i] == empty_layer(
                m.model.layers@[i].is_linear,
            ),
        forall|i: int|
            0 <= i < caches.len() ==> experts_go(
                (#[trigger] m.model.layers@[i]).mlp,
                dim,
                hidden,
                shared,
            ),
    ensures
        model_in_parts(m, ids, caches, b, dim),
{
    let layers = m.model.layers@;
    assert forall|i: int| 0 <= i < layers.len() implies reads_in_parts(
        #[trigger] layers[i],
        pass_states(layers, embedded(m, ids), caches, i),
        caches[i],
        b,
        dim,
    ) by {
        reveal(reads_in_parts);
        assert(caches[i] == empty_layer(layers[i].is_linear));
        experts_feed_by_position(layers[i].mlp, b, dim, hidden, shared);
    }
}

} // verus!
