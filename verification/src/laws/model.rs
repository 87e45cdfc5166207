//! What a whole model gives, and what it leaves in its caches.

use crate::array::{Term, Tn};
use crate::cache::{room, ConcatKeyValueCache, FreshCache, KeyValueCache, KvState, KV_STEP};
use crate::fast::raw_rms_norm;
use crate::laws::cache::{buffers_stay_in_bounds, kv_wf, update_reads_back};
use crate::laws::lookup::a_table_gives_a_row_a_token;
use crate::laws::masks::causal_mask_shows;
use crate::laws::sampling::sampling_gives_a_token_a_row;
use crate::laws::shapes::{
    a_linear_layer_keeps_rows, a_table_serves_as_head, attention_goes, attention_keeps_rows, goes,
    hands_back, has_shape, table_goes,
};
use crate::models::decoder::{model_slots, run_decoder, run_layers, DecoderLayer, Masks};
use crate::models::generate::{
    generated, next_ids, LanguageModel, StateTerm,
};
use crate::models::llama::{Mlp, Model, TransformerBlock};
use crate::models::sampling::{recent_tokens, SamplerOpts};
use crate::nn::{t_embed, t_linear, RmsNorm};
use crate::ops::elementwise::{raw_binary, raw_unary, t_add, t_multiply, t_silu};
use crate::ops::layout::raw_expand_dims;
use crate::ops::select::{raw_select, t_select};
use crate::shape::broadcast_shape;
use crate::utils::mask::model_mask;
use vstd::prelude::*;

verus! {

/// Whether a feed-forward layer has `dim` features outside and `hidden` inside.
pub open spec fn feed_goes(m: Mlp, dim: i32, hidden: i32) -> bool {
    &&& goes(m.gate_proj@, dim, hidden)
    &&& goes(m.up_proj@, dim, hidden)
    &&& goes(m.down_proj@, hidden, dim)
}

/// Whether a layer has `dim` features outside, `hidden` inside, and `kv` key heads of `d` features.
pub open spec fn block_goes(t: TransformerBlock, dim: i32, hidden: i32, kv: i32, d: i32) -> bool {
    &&& attention_goes(t.self_attn, dim, d)
    &&& t.self_attn.n_kv_heads == kv
    &&& feed_goes(t.mlp, dim, hidden)
    &&& t.input_layernorm.weight@.shape == seq![dim]
    &&& t.post_attention_layernorm.weight@.shape == seq![dim]
}

/// Whether a cache of `kv` heads of `d` features for `b` rows holds `held` positions, and has never
/// held more than `top`.
pub open spec fn holds_positions(s: KvState, b: i32, kv: i32, d: i32, held: i32, top: i32) -> bool {
    &&& kv_wf(s, b, kv, d, d)
    &&& s.offset == held
    &&& room(s.keys) <= 2 * top + KV_STEP
}

/// Whether a number of positions leaves room to work with.
pub open spec fn top_fits(top: i32) -> bool {
    3 * top + 2 * KV_STEP <= i32::MAX
}

/// Whether every one of `n` slots has a cache that holds `held` positions.
pub open spec fn slots_hold(
    slots: Seq<Option<KvState>>,
    n: nat,
    b: i32,
    kv: i32,
    d: i32,
    held: i32,
    top: i32,
) -> bool {
    &&& slots.len() == n
    &&& forall|i: int|
        0 <= i < n ==> (#[trigger] slots[i] matches Some(s) && holds_positions(
            s,
            b,
            kv,
            d,
            held,
            top,
        ))
}

pub(crate) proof fn lemma_norm(n: RmsNorm, x: Tn, b: i32, l: i32, dim: i32)
    requires
        has_shape(x, seq![b, l, dim]),
        n.weight@.shape == seq![dim],
    ensures
        has_shape(n.apply(x), seq![b, l, dim]),
{
    reveal(raw_rms_norm);
}

pub(crate) proof fn lemma_same_sum(x: Tn, y: Tn, b: i32, l: i32, dim: i32)
    requires
        has_shape(x, seq![b, l, dim]),
        has_shape(y, seq![b, l, dim]),
    ensures
        has_shape(t_add(x, y), seq![b, l, dim]),
        has_shape(t_multiply(x, y), seq![b, l, dim]),
        has_shape(t_silu(x), seq![b, l, dim]),
{
    reveal(raw_binary);
    reveal(raw_unary);
    assert(broadcast_shape(seq![b, l, dim], seq![b, l, dim]) =~= seq![b, l, dim]);
}

proof fn lemma_feed(m: Mlp, x: Tn, b: i32, l: i32, dim: i32, hidden: i32)
    requires
        feed_goes(m, dim, hidden),
        has_shape(x, seq![b, l, dim]),
    ensures
        has_shape(m.apply(x), seq![b, l, dim]),
{
    a_linear_layer_keeps_rows(m.gate_proj@, x, b, l, dim, hidden);
    a_linear_layer_keeps_rows(m.up_proj@, x, b, l, dim, hidden);
    let gate = t_linear(m.gate_proj@, x);
    let up = t_linear(m.up_proj@, x);
    lemma_same_sum(gate, up, b, l, hidden);
    lemma_same_sum(t_silu(gate), up, b, l, hidden);
    a_linear_layer_keeps_rows(m.down_proj@, t_multiply(t_silu(gate), up), b, l, hidden, dim);
}

/// A layer gives back what it takes and leaves `l` more positions in its cache.
proof fn lemma_block(
    t: TransformerBlock,
    x: Term,
    mask: Option<Term>,
    s: KvState,
    b: i32,
    l: i32,
    dim: i32,
    hidden: i32,
    kv: i32,
    d: i32,
    held: i32,
    top: i32,
)
    requires
        b > 0,
        l > 0,
        d > 0,
        b * l <= i32::MAX,
        held + l <= top,
        top_fits(top),
        block_goes(t, dim, hidden, kv, d),
        holds_positions(s, b, kv, d, held, top),
        x.shape == seq![b, l, dim],
        mask matches Some(m) ==> m.shape == seq![l, (held + l) as i32],
    ensures
        ({
            let (y, after) = DecoderLayer::<ConcatKeyValueCache>::apply(
                &t,
                x,
                mask,
                Some(s),
                None,
            );
            &&& has_shape(y, seq![b, l, dim])
            &&& after matches Some(z) && holds_positions(
                z,
                b,
                kv,
                d,
                (held + l) as i32,
                top,
            )
        }),
{
    let all = (held + l) as i32;
    lemma_norm(t.input_layernorm, Ok(x), b, l, dim);
    let n = t.input_layernorm.apply(Ok(x))->Ok_0;
    assert(hands_back::<ConcatKeyValueCache>(s, b, kv, l, d, all)) by {
        assert forall|k: Term, v: Term|
            k.shape == seq![b, kv, l, d] && v.shape == seq![b, kv, l, d] implies ((
        #[trigger] ConcatKeyValueCache::updated(s, k, v)).1 matches Ok((p, q)) && p.shape
            == seq![b, kv, all, d] && q.shape == seq![b, kv, all, d]) by {
            update_reads_back(s, k, v, b, kv, d, d, l);
        }
    }
    attention_keeps_rows::<ConcatKeyValueCache>(
        t.self_attn,
        n,
        mask,
        Some(s),
        b,
        l,
        d,
        dim,
        all,
    );
    let (r, after) = DecoderLayer::<ConcatKeyValueCache>::apply(
        &t.self_attn,
        n,
        mask,
        Some(s),
        None,
    );
    let (k, v) = choose|k: Term, v: Term|
        k.shape == seq![b, kv, l, d] && v.shape == seq![b, kv, l, d] && after == Some(
            (#[trigger] ConcatKeyValueCache::updated(s, k, v)).0,
        );
    update_reads_back(s, k, v, b, kv, d, d, l);
    buffers_stay_in_bounds(s, k, v, b, kv, d, d, l, top as int);
    lemma_same_sum(Ok(x), r, b, l, dim);
    let h = t_add(Ok(x), r);
    lemma_norm(t.post_attention_layernorm, h, b, l, dim);
    lemma_feed(t.mlp, t.post_attention_layernorm.apply(h), b, l, dim, hidden);
    lemma_same_sum(h, t.mlp.apply(t.post_attention_layernorm.apply(h)), b, l, dim);
}

proof fn lemma_blocks(
    layers: Seq<TransformerBlock>,
    x: Term,
    mask: Option<Term>,
    slots: Seq<Option<KvState>>,
    b: i32,
    l: i32,
    dim: i32,
    hidden: i32,
    kv: i32,
    d: i32,
    held: i32,
    top: i32,
    n: nat,
)
    requires
        b > 0,
        l > 0,
        d > 0,
        b * l <= i32::MAX,
        held + l <= top,
        top_fits(top),
        n <= layers.len(),
        forall|i: int|
            0 <= i < layers.len() ==> block_goes(#[trigger] layers[i], dim, hidden, kv, d),
        slots_hold(slots, layers.len(), b, kv, d, held, top),
        x.shape == seq![b, l, dim],
        mask matches Some(m) ==> m.shape == seq![l, (held + l) as i32],
    ensures
        ({
            let (y, after) = run_layers::<TransformerBlock, ConcatKeyValueCache>(
                layers,
                x,
                Masks { full: mask, window: mask },
                slots,
                None,
                n,
            );
            &&& has_shape(y, seq![b, l, dim])
            &&& after.len() == slots.len()
            &&& forall|i: int|
                0 <= i < n ==> (#[trigger] after[i] matches Some(z) && holds_positions(
                    z,
                    b,
                    kv,
                    d,
                    (held + l) as i32,
                    top,
                ))
            &&& forall|i: int| n <= i < slots.len() ==> #[trigger] after[i] == slots[i]
        }),
    decreases n,
{
    if n > 0 {
        let k = (n - 1) as nat;
        lemma_blocks(layers, x, mask, slots, b, l, dim, hidden, kv, d, held, top, k);
        let masks = Masks { full: mask, window: mask };
        let (y, s) = run_layers::<TransformerBlock, ConcatKeyValueCache>(
            layers,
            x,
            masks,
            slots,
            None,
            k,
        );
        assert(s[k as int] == slots[k as int]);
        lemma_block(
            layers[k as int],
            y->Ok_0,
            mask,
            slots[k as int]->Some_0,
            b,
            l,
            dim,
            hidden,
            kv,
            d,
            held,
            top,
        );
    }
}

/// Whether a model has a vocabulary of `v` tokens, `dim` features between its layers, `hidden`
/// features inside them, and `kv` key heads of `d` features.
pub open spec fn model_goes(m: Model, v: i32, dim: i32, hidden: i32, kv: i32, d: i32) -> bool {
    &&& dim >= 0
    &&& table_goes(m.model.embed_tokens@, v, dim)
    &&& forall|i: int|
        0 <= i < m.model.layers@.len() ==> block_goes(
            #[trigger] m.model.layers@[i],
            dim,
            hidden,
            kv,
            d,
        )
    &&& m.model.norm.weight@.shape == seq![dim]
    &&& m.lm_head matches Some(h) ==> goes(h@, dim, v)
}

/// A model answers: from `l` tokens in each of `b` rows it gives the logits of every token of the
/// vocabulary for every position, and every cache, which held `held` positions, then holds `l`
/// more, so that the next step can follow. An empty list of caches counts as caches that hold
/// nothing.
pub proof fn a_model_gives_logits(
    m: Model,
    ids: Term,
    slots: Seq<Option<KvState>>,
    b: i32,
    l: i32,
    v: i32,
    dim: i32,
    hidden: i32,
    kv: i32,
    d: i32,
    held: i32,
    top: i32,
)
    requires
        b > 0,
        l > 0,
        d > 0,
        kv > 0,
        b * l <= i32::MAX,
        held + l <= top,
        top_fits(top),
        m.model.layers@.len() > 0,
        model_goes(m, v, dim, hidden, kv, d),
        ids.shape == seq![b, l],
        slots_hold(slots, m.model.layers@.len(), b, kv, d, held, top) || (slots.len() == 0
            && held == 0),
    ensures
        ({
            let (y, after) = LanguageModel::<ConcatKeyValueCache>::run(
                &m,
                ids,
                None,
                slots,
                None,
            );
            &&& has_shape(y, seq![b, l, v])
            &&& slots_hold(
                after,
                m.model.layers@.len(),
                b,
                kv,
                d,
                (held + l) as i32,
                top,
            )
        }),
{
    let layers = m.model.layers@;
    let h = t_embed(m.model.embed_tokens@, ids);
    a_table_gives_a_row_a_token(m.model.embed_tokens@, ids, b, l, v, dim);
    let filled = model_slots::<ConcatKeyValueCache>(slots, layers.len());
    assert(slots_hold(filled, layers.len(), b, kv, d, held, top));
    if slots.len() > 0 {
        assert(slots[0] is Some);
        let s = slots[0]->Some_0;
        assert(holds_positions(s, b, kv, d, held, top));
    }
    let mask = model_mask::<ConcatKeyValueCache>(None, h->Ok_0, slots);
    assert(mask matches Ok(k) && (k matches Some(t) ==> t.shape == seq![l, (held + l) as i32])) by {
        if l > 1 {
            causal_mask_shows(l, held, None);
        }
    }
    let k = mask->Ok_0;
    lemma_blocks(
        layers,
        h->Ok_0,
        k,
        filled,
        b,
        l,
        dim,
        hidden,
        kv,
        d,
        held,
        top,
        layers.len(),
    );
    let (x, after) = run_decoder::<TransformerBlock, ConcatKeyValueCache>(
        layers,
        h,
        None,
        slots,
        None,
    );
    lemma_norm(m.model.norm, x, b, l, dim);
    let out = m.model.norm.apply(x);
    match m.lm_head {
        Some(head) => {
            a_linear_layer_keeps_rows(head@, out, b, l, dim, v);
        },
        None => {
            a_table_serves_as_head(m.model.embed_tokens@, out, b, l, v, dim);
        },
    }
}

/// Whatever the model, a step of generation gives one token a row where the model gives the logits
/// of every position, be it the first step or a later one.
pub proof fn a_step_gives_a_token_a_row<M: LanguageModel<C>, C: FreshCache>(
    model: &M,
    state: StateTerm,
    slots: Seq<Option<C::State>>,
    opts: SamplerOpts,
    history: Seq<u32>,
    draw: u64,
    b: i32,
    l: i32,
    v: i32,
)
    requires
        b >= 0,
        l > 0,
        v >= 0,
        next_ids(state) matches Ok(ids) && has_shape(
            model.run(ids, None, slots, None).0,
            seq![b, l, v],
        ),
        opts.penalizes() ==> b == 1,
    ensures
        has_shape(generated::<M, C>(model, state, slots, opts, history, draw).0, seq![b]),
{
    let logits = model.run(next_ids(state)->Ok_0, None, slots, None).0;
    let last = t_select(logits, 1, -1i32);
    assert(has_shape(last, seq![b, v])) by {
        reveal(raw_select);
        assert(seq![b, l, v].remove(1) =~= seq![b, v]);
    }
    sampling_gives_a_token_a_row(last->Ok_0, opts, recent_tokens(opts, history), draw, b, v);
}

/// Generation goes on: a step reads the prompt or the token before, gives one token a row, and
/// leaves every cache holding what the step read on top of what it held. A penalty is for a batch
/// of one.
pub proof fn generation_goes_on(
    m: Model,
    state: StateTerm,
    slots: Seq<Option<KvState>>,
    opts: SamplerOpts,
    history: Seq<u32>,
    draw: u64,
    b: i32,
    l: i32,
    v: i32,
    dim: i32,
    hidden: i32,
    kv: i32,
    d: i32,
    held: i32,
    top: i32,
)
    requires
        b > 0,
        l > 0,
        d > 0,
        kv > 0,
        v >= 0,
        b * l <= i32::MAX,
        held + l <= top,
        top_fits(top),
        m.model.layers@.len() > 0,
        model_goes(m, v, dim, hidden, kv, d),
        match state {
            StateTerm::Prefill(p) => p.shape == seq![b, l],
            StateTerm::Decode(y) => y.shape == seq![b] && l == 1,
        },
        slots_hold(slots, m.model.layers@.len(), b, kv, d, held, top) || (slots.len() == 0
            && held == 0),
        opts.penalizes() ==> b == 1,
    ensures
        ({
            let (y, after) = generated::<Model, ConcatKeyValueCache>(
                &m,
                state,
                slots,
                opts,
                history,
                draw,
            );
            &&& has_shape(y, seq![b])
            &&& slots_hold(
                after,
                m.model.layers@.len(),
                b,
                kv,
                d,
                (held + l) as i32,
                top,
            )
        }),
{
    let ids = next_ids(state);
    assert(has_shape(ids, seq![b, l])) by {
        reveal(raw_expand_dims);
        assert(seq![b].insert(1, 1i32) =~= seq![b, 1i32]);
    }
    a_model_gives_logits(m, ids->Ok_0, slots, b, l, v, dim, hidden, kv, d, held, top);
    a_step_gives_a_token_a_row::<Model, ConcatKeyValueCache>(
        &m,
        state,
        slots,
        opts,
        history,
        draw,
        b,
        l,
        v,
    );
}

} // verus!
