//! What whole models of further families give, and what they leave in their caches.

use crate::array::{Term, Tn};
use crate::cache::{ConcatKeyValueCache, KeyValueCache, KvState};
use crate::fast::{array_mask, raw_attention, raw_rms_norm};
use crate::laws::cache::{buffers_stay_in_bounds, update_reads_back};
use crate::laws::lookup::a_table_gives_a_row_a_token;
use crate::laws::masks::causal_mask_shows;
use crate::laws::model::{
    a_step_gives_a_token_a_row, holds_positions, lemma_norm, lemma_same_sum, slots_hold, top_fits,
};
use crate::laws::shapes::{
    a_linear_layer_keeps_rows, a_table_serves_as_head, goes, has_shape, joining_gives_rows,
    splitting_gives_heads, table_goes, turning_keeps_shape, turns_heads,
};
use crate::models::decoder::{model_slots, run_decoder, run_layers, DecoderLayer, Masks};
use crate::models::generate::{generated, next_ids, LanguageModel, StateTerm};
use crate::models::qwen3::logits_of;
use crate::models::sampling::SamplerOpts;
use crate::models::{qwen2, qwen3};
use crate::nn::{t_embed, t_linear, AnyEmbedding, AnyLinear, LinearTerm, RmsNorm};
use crate::ops::elementwise::{t_add, t_multiply, t_silu};
use crate::ops::layout::raw_expand_dims;
use crate::scalar::Scalar;
use crate::shape::broadcast_shape;
use crate::utils::attention::{attended, join_heads, rotated};
use crate::utils::mask::model_mask;
use crate::utils::rope::RopeVariant;
use vstd::prelude::*;

verus! {

/// The sizes of a run: `b` rows of `l` positions, `dim` features between layers, `kv` key heads of
/// `d` features, caches that hold `held` positions and never more than `top`.
pub struct Sizes {
    pub b: i32,
    pub l: i32,
    pub dim: i32,
    pub kv: i32,
    pub d: i32,
    pub held: i32,
    pub top: i32,
}

impl Sizes {
    /// Whether the sizes are in range.
    pub open spec fn fit(self) -> bool {
        &&& self.b > 0 && self.l > 0 && self.d > 0 && self.kv > 0 && self.dim >= 0
        &&& self.b * self.l <= i32::MAX
        &&& self.held + self.l <= self.top
        &&& top_fits(self.top)
    }

    /// The shape of hidden states.
    pub open spec fn rows(self) -> Seq<i32> {
        seq![self.b, self.l, self.dim]
    }

    /// Whether a mask is for the positions of the run behind those held.
    pub open spec fn takes(self, mask: Option<Term>) -> bool {
        mask matches Some(m) ==> m.shape == seq![self.l, (self.held + self.l) as i32]
    }

    /// Whether a cache is as before the run.
    pub open spec fn before(self, s: KvState) -> bool {
        holds_positions(s, self.b, self.kv, self.d, self.held, self.top)
    }

    /// Whether a cache is as behind the run.
    pub open spec fn behind(self, s: Option<KvState>) -> bool {
        s matches Some(z) && holds_positions(
            z,
            self.b,
            self.kv,
            self.d,
            (self.held + self.l) as i32,
            self.top,
        )
    }
}

/// Whether a layer gives back what it takes and leaves the positions of the run in its cache.
pub open spec fn layer_keeps<L: DecoderLayer<ConcatKeyValueCache>>(layer: L, z: Sizes) -> bool {
    forall|x: Term, mask: Option<Term>, s: KvState|
        x.shape == z.rows() && z.takes(mask) && z.before(s) ==> keeps(
            #[trigger] layer.apply(x, mask, Some(s), None),
            z,
        )
}

/// Whether an outcome has the shape of hidden states, with the positions of the run in the cache.
pub open spec fn keeps(r: (Tn, Option<KvState>), z: Sizes) -> bool {
    has_shape(r.0, z.rows()) && z.behind(r.1)
}

/// Heads attend on the positions held and on their own, are joined and projected.
proof fn lemma_attended(
    rope: RopeVariant,
    scale: Scalar,
    q: Tn,
    k: Tn,
    v: Tn,
    out: LinearTerm,
    mask: Option<Term>,
    s: KvState,
    n: i32,
    z: Sizes,
)
    requires
        z.fit(),
        z.takes(mask),
        z.before(s),
        n > 0,
        n % z.kv == 0,
        n * z.d <= i32::MAX,
        has_shape(q, seq![z.b, n, z.l, z.d]),
        has_shape(k, seq![z.b, z.kv, z.l, z.d]),
        has_shape(v, seq![z.b, z.kv, z.l, z.d]),
        goes(out, (n * z.d) as i32, z.dim),
        turns_heads(rope),
    ensures
        ({
            let (attn, after) = attended::<ConcatKeyValueCache>(
                rope,
                q,
                k,
                v,
                scale,
                array_mask(mask),
                None,
                Some(s),
                None,
            );
            keeps((t_linear(out, join_heads(attn, z.b, z.l)), after), z)
        }),
{
    let (b, l, m, d) = (z.b, z.l, z.kv, z.d);
    let all = (z.held + l) as i32;
    let q2 = rotated::<ConcatKeyValueCache>(rope, q, Some(s), None);
    let k2 = rotated::<ConcatKeyValueCache>(rope, k, Some(s), None);
    assert(has_shape(q2, seq![b, n, l, d]) && has_shape(k2, seq![b, m, l, d])) by {
        turning_keeps_shape(rope, q->Ok_0, s.offset);
        turning_keeps_shape(rope, k->Ok_0, s.offset);
    }
    update_reads_back(s, k2->Ok_0, v->Ok_0, b, m, d, d, l);
    buffers_stay_in_bounds(s, k2->Ok_0, v->Ok_0, b, m, d, d, l, z.top as int);
    let (attn, after) = attended::<ConcatKeyValueCache>(
        rope,
        q,
        k,
        v,
        scale,
        array_mask(mask),
        None,
        Some(s),
        None,
    );
    assert(has_shape(attn, seq![b, n, l, d])) by {
        reveal(raw_attention);
        let scores = seq![b, n, l, all];
        assert(broadcast_shape(seq![l, all], scores) =~= scores);
    }
    joining_gives_rows(attn, b, l, n, d);
    a_linear_layer_keeps_rows(out, join_heads(attn, b, l), b, l, (n * d) as i32, z.dim);
}

/// A gated feed-forward part on normalized states, added to what came in.
proof fn lemma_fed(
    h: Tn,
    norm: RmsNorm,
    gate: LinearTerm,
    up: LinearTerm,
    down: LinearTerm,
    hidden: i32,
    z: Sizes,
)
    requires
        has_shape(h, z.rows()),
        norm.weight@.shape == seq![z.dim],
        goes(gate, z.dim, hidden),
        goes(up, z.dim, hidden),
        goes(down, hidden, z.dim),
    ensures
        ({
            let x = norm.apply(h);
            let fed = t_linear(down, t_multiply(t_silu(t_linear(gate, x)), t_linear(up, x)));
            has_shape(t_add(h, fed), z.rows())
        }),
{
    let (b, l, dim) = (z.b, z.l, z.dim);
    lemma_norm(norm, h, b, l, dim);
    let x = norm.apply(h);
    a_linear_layer_keeps_rows(gate, x, b, l, dim, hidden);
    a_linear_layer_keeps_rows(up, x, b, l, dim, hidden);
    let (g, u) = (t_linear(gate, x), t_linear(up, x));
    lemma_same_sum(g, u, b, l, hidden);
    lemma_same_sum(t_silu(g), u, b, l, hidden);
    a_linear_layer_keeps_rows(down, t_multiply(t_silu(g), u), b, l, hidden, dim);
    lemma_same_sum(h, t_linear(down, t_multiply(t_silu(g), u)), b, l, dim);
}

/// Layers that keep rows keep them one behind the other.
proof fn lemma_layers<L: DecoderLayer<ConcatKeyValueCache>>(
    layers: Seq<L>,
    x: Term,
    mask: Option<Term>,
    slots: Seq<Option<KvState>>,
    z: Sizes,
    n: nat,
)
    requires
        n <= layers.len(),
        forall|i: int| 0 <= i < layers.len() ==> layer_keeps(#[trigger] layers[i], z),
        slots_hold(slots, layers.len(), z.b, z.kv, z.d, z.held, z.top),
        x.shape == z.rows(),
        z.takes(mask),
    ensures
        ({
            let (y, after) = run_layers::<L, ConcatKeyValueCache>(
                layers,
                x,
                Masks { full: mask, window: mask },
                slots,
                None,
                n,
            );
            &&& has_shape(y, z.rows())
            &&& after.len() == slots.len()
            &&& forall|i: int| 0 <= i < n ==> z.behind(#[trigger] after[i])
            &&& forall|i: int| n <= i < slots.len() ==> #[trigger] after[i] == slots[i]
        }),
    decreases n,
{
    if n > 0 {
        let k = (n - 1) as nat;
        lemma_layers(layers, x, mask, slots, z, k);
        let (y, s) = run_layers::<L, ConcatKeyValueCache>(
            layers,
            x,
            Masks { full: mask, window: mask },
            slots,
            None,
            k,
        );
        assert(s[k as int] == slots[k as int]);
        assert(slots[k as int] is Some);
        assert(layer_keeps(layers[k as int], z));
        let r = layers[k as int].apply(y->Ok_0, mask, Some(slots[k as int]->Some_0), None);
        assert(keeps(r, z));
    }
}

/// A model of layers that keep rows gives the logits of every position, and leaves the positions of
/// the run in every cache.
proof fn lemma_decoder<L: DecoderLayer<ConcatKeyValueCache>>(
    table: AnyEmbedding,
    layers: Seq<L>,
    norm: RmsNorm,
    head: Option<AnyLinear>,
    ids: Term,
    slots: Seq<Option<KvState>>,
    v: i32,
    z: Sizes,
)
    requires
        z.fit(),
        z.held >= 0,
        layers.len() > 0,
        table_goes(table@, v, z.dim),
        forall|i: int| 0 <= i < layers.len() ==> layer_keeps(#[trigger] layers[i], z),
        norm.weight@.shape == seq![z.dim],
        head matches Some(h) ==> goes(h@, z.dim, v),
        ids.shape == seq![z.b, z.l],
        slots_hold(slots, layers.len(), z.b, z.kv, z.d, z.held, z.top) || (slots.len() == 0
            && z.held == 0),
    ensures
        ({
            let (h, after) = run_decoder::<L, ConcatKeyValueCache>(
                layers,
                t_embed(table@, ids),
                None,
                slots,
                None,
            );
            &&& has_shape(logits_of(head, table, norm.apply(h)), seq![z.b, z.l, v])
            &&& slots_hold(
                after,
                layers.len(),
                z.b,
                z.kv,
                z.d,
                (z.held + z.l) as i32,
                z.top,
            )
        }),
{
    let (b, l, dim, held) = (z.b, z.l, z.dim, z.held);
    a_table_gives_a_row_a_token(table@, ids, b, l, v, dim);
    let h = t_embed(table@, ids);
    let filled = model_slots::<ConcatKeyValueCache>(slots, layers.len());
    assert(slots_hold(filled, layers.len(), b, z.kv, z.d, held, z.top));
    if slots.len() > 0 {
        assert(slots[0] is Some);
        assert(z.before(slots[0]->Some_0));
    }
    let mask = model_mask::<ConcatKeyValueCache>(None, h->Ok_0, slots);
    assert(mask matches Ok(k) && z.takes(k)) by {
        if l > 1 {
            causal_mask_shows(l, held, None);
        }
    }
    lemma_layers(layers, h->Ok_0, mask->Ok_0, filled, z, layers.len());
    let (x, after) = run_decoder::<L, ConcatKeyValueCache>(layers, h, None, slots, None);
    lemma_norm(norm, x, b, l, dim);
    let out = norm.apply(x);
    match head {
        Some(w) => {
            a_linear_layer_keeps_rows(w@, out, b, l, dim, v);
        },
        None => {
            a_table_serves_as_head(table@, out, b, l, v, dim);
        },
    }
}

/// Whether a layer of Qwen3 has `dim` features outside, `hidden` inside, and `kv` key heads of `d`
/// features.
pub open spec fn qwen3_block_goes(
    t: qwen3::TransformerBlock,
    dim: i32,
    hidden: i32,
    kv: i32,
    d: i32,
) -> bool {
    let a = t.self_attn;
    &&& a.n_heads > 0
    &&& a.n_kv_heads == kv
    &&& a.n_heads % kv == 0
    &&& a.n_heads * d <= i32::MAX
    &&& kv * d <= i32::MAX
    &&& goes(a.q_proj@, dim, (a.n_heads * d) as i32)
    &&& goes(a.k_proj@, dim, (kv * d) as i32)
    &&& goes(a.v_proj@, dim, (kv * d) as i32)
    &&& goes(a.o_proj@, (a.n_heads * d) as i32, dim)
    &&& a.q_norm.weight@.shape == seq![d]
    &&& a.k_norm.weight@.shape == seq![d]
    &&& turns_heads(a.rope)
    &&& goes(t.mlp.gate_proj@, dim, hidden)
    &&& goes(t.mlp.up_proj@, dim, hidden)
    &&& goes(t.mlp.down_proj@, hidden, dim)
    &&& t.input_layernorm.weight@.shape == seq![dim]
    &&& t.post_attention_layernorm.weight@.shape == seq![dim]
}

/// A layer of Qwen3 gives back what it takes and leaves the positions of the run in its cache.
pub proof fn a_qwen3_layer_keeps_rows(t: qwen3::TransformerBlock, hidden: i32, z: Sizes)
    requires
        z.fit(),
        qwen3_block_goes(t, z.dim, hidden, z.kv, z.d),
    ensures
        layer_keeps(t, z),
{
    let a = t.self_attn;
    let (b, l, dim, m, d) = (z.b, z.l, z.dim, z.kv, z.d);
    let n = a.n_heads;
    assert forall|x: Term, mask: Option<Term>, s: KvState|
        x.shape == z.rows() && z.takes(mask) && z.before(s) implies keeps(
        #[trigger] DecoderLayer::<ConcatKeyValueCache>::apply(&t, x, mask, Some(s), None),
        z,
    ) by {
        lemma_norm(t.input_layernorm, Ok(x), b, l, dim);
        let y = t.input_layernorm.apply(Ok(x))->Ok_0;
        a_linear_layer_keeps_rows(a.q_proj@, Ok(y), b, l, dim, (n * d) as i32);
        a_linear_layer_keeps_rows(a.k_proj@, Ok(y), b, l, dim, (m * d) as i32);
        a_linear_layer_keeps_rows(a.v_proj@, Ok(y), b, l, dim, (m * d) as i32);
        splitting_gives_heads(t_linear(a.q_proj@, Ok(y)), b, l, n, d);
        splitting_gives_heads(t_linear(a.k_proj@, Ok(y)), b, l, m, d);
        splitting_gives_heads(t_linear(a.v_proj@, Ok(y)), b, l, m, d);
        let (q, k, v) = (a.queries(y), a.keys(y), a.values(y));
        assert(has_shape(q, seq![b, n, l, d]) && has_shape(k, seq![b, m, l, d])) by {
            reveal(raw_rms_norm);
        }
        lemma_attended(a.rope, a.scale, q, k, v, a.o_proj@, mask, s, n, z);
        let (r, after) = DecoderLayer::<ConcatKeyValueCache>::apply(&a, y, mask, Some(s), None);
        lemma_same_sum(Ok(x), r, b, l, dim);
        lemma_fed(
            t_add(Ok(x), r),
            t.post_attention_layernorm,
            t.mlp.gate_proj@,
            t.mlp.up_proj@,
            t.mlp.down_proj@,
            hidden,
            z,
        );
    }
}

/// Whether a Qwen3 model has a vocabulary of `v` tokens and layers of these sizes.
pub open spec fn qwen3_goes(
    m: qwen3::Model,
    v: i32,
    dim: i32,
    hidden: i32,
    kv: i32,
    d: i32,
) -> bool {
    &&& m.model.layers@.len() > 0
    &&& table_goes(m.model.embed_tokens@, v, dim)
    &&& forall|i: int|
        0 <= i < m.model.layers@.len() ==> qwen3_block_goes(
            #[trigger] m.model.layers@[i],
            dim,
            hidden,
            kv,
            d,
        )
    &&& m.model.norm.weight@.shape == seq![dim]
    &&& m.lm_head matches Some(h) ==> goes(h@, dim, v)
}

/// A Qwen3 model answers: from `l` tokens in each of `b` rows it gives the logits of every token of
/// the vocabulary for every position, and every cache then holds `l` more positions, so that the
/// next step can follow. Weights may be packed. An empty list of caches counts as caches that hold
/// nothing.
pub proof fn a_qwen3_model_gives_logits(
    m: qwen3::Model,
    ids: Term,
    slots: Seq<Option<KvState>>,
    v: i32,
    hidden: i32,
    z: Sizes,
)
    requires
        z.fit(),
        z.held >= 0,
        qwen3_goes(m, v, z.dim, hidden, z.kv, z.d),
        ids.shape == seq![z.b, z.l],
        slots_hold(slots, m.model.layers@.len(), z.b, z.kv, z.d, z.held, z.top) || (slots.len()
            == 0 && z.held == 0),
    ensures
        ({
            let (y, after) = LanguageModel::<ConcatKeyValueCache>::run(
                &m,
                ids,
                None,
                slots,
                None,
            );
            &&& has_shape(y, seq![z.b, z.l, v])
            &&& slots_hold(
                after,
                m.model.layers@.len(),
                z.b,
                z.kv,
                z.d,
                (z.held + z.l) as i32,
                z.top,
            )
        }),
{
    let layers = m.model.layers@;
    assert forall|i: int| 0 <= i < layers.len() implies layer_keeps(#[trigger] layers[i], z) by {
        a_qwen3_layer_keeps_rows(layers[i], hidden, z);
    }
    lemma_decoder(m.model.embed_tokens, layers, m.model.norm, m.lm_head, ids, slots, v, z);
}

/// Generation with a Qwen3 model goes on: every step, the first as well as any later one, gives one
/// token a row and leaves its positions in every cache.
pub proof fn qwen3_generation_goes_on(
    m: qwen3::Model,
    state: StateTerm,
    slots: Seq<Option<KvState>>,
    opts: SamplerOpts,
    history: Seq<u32>,
    draw: u64,
    v: i32,
    hidden: i32,
    z: Sizes,
)
    requires
        z.fit(),
        z.held >= 0,
        v >= 0,
        qwen3_goes(m, v, z.dim, hidden, z.kv, z.d),
        match state {
            StateTerm::Prefill(p) => p.shape == seq![z.b, z.l],
            StateTerm::Decode(y) => y.shape == seq![z.b] && z.l == 1,
        },
        slots_hold(slots, m.model.layers@.len(), z.b, z.kv, z.d, z.held, z.top) || (slots.len()
            == 0 && z.held == 0),
        opts.penalizes() ==> z.b == 1,
    ensures
        ({
            let (y, after) = generated::<qwen3::Model, ConcatKeyValueCache>(
                &m,
                state,
                slots,
                opts,
                history,
                draw,
            );
            &&& has_shape(y, seq![z.b])
            &&& slots_hold(
                after,
                m.model.layers@.len(),
                z.b,
                z.kv,
                z.d,
                (z.held + z.l) as i32,
                z.top,
            )
        }),
{
    lemma_next_ids(state, z.b, z.l);
    a_qwen3_model_gives_logits(m, next_ids(state)->Ok_0, slots, v, hidden, z);
    a_step_gives_a_token_a_row::<qwen3::Model, ConcatKeyValueCache>(
        &m,
        state,
        slots,
        opts,
        history,
        draw,
        z.b,
        z.l,
        v,
    );
}

proof fn lemma_next_ids(state: StateTerm, b: i32, l: i32)
    requires
        match state {
            StateTerm::Prefill(p) => p.shape == seq![b, l],
            StateTerm::Decode(y) => y.shape == seq![b] && l == 1,
        },
    ensures
        has_shape(next_ids(state), seq![b, l]),
{
    reveal(raw_expand_dims);
    assert(seq![b].insert(1, 1i32) =~= seq![b, 1i32]);
}

/// Whether a layer of Qwen2 has `dim` features outside, `hidden` inside, and `kv` key heads of `d`
/// features.
pub open spec fn qwen2_block_goes(
    t: qwen2::TransformerBlock,
    dim: i32,
    hidden: i32,
    kv: i32,
    d: i32,
) -> bool {
    let a = t.self_attn;
    &&& a.n_heads > 0
    &&& a.n_kv_heads == kv
    &&& a.n_heads % kv == 0
    &&& a.n_heads * d <= i32::MAX
    &&& kv * d <= i32::MAX
    &&& goes(a.q_proj@, dim, (a.n_heads * d) as i32)
    &&& goes(a.k_proj@, dim, (kv * d) as i32)
    &&& goes(a.v_proj@, dim, (kv * d) as i32)
    &&& goes(a.o_proj@, (a.n_heads * d) as i32, dim)
    &&& turns_heads(a.rope)
    &&& goes(t.mlp.gate_proj@, dim, hidden)
    &&& goes(t.mlp.up_proj@, dim, hidden)
    &&& goes(t.mlp.down_proj@, hidden, dim)
    &&& t.input_layernorm.weight@.shape == seq![dim]
    &&& t.post_attention_layernorm.weight@.shape == seq![dim]
}

/// A layer of Qwen2 gives back what it takes and leaves the positions of the run in its cache.
pub proof fn a_qwen2_layer_keeps_rows(t: qwen2::TransformerBlock, hidden: i32, z: Sizes)
    requires
        z.fit(),
        qwen2_block_goes(t, z.dim, hidden, z.kv, z.d),
    ensures
        layer_keeps(t, z),
{
    let a = t.self_attn;
    let (b, l, dim, m, d) = (z.b, z.l, z.dim, z.kv, z.d);
    let n = a.n_heads;
    assert forall|x: Term, mask: Option<Term>, s: KvState|
        x.shape == z.rows() && z.takes(mask) && z.before(s) implies keeps(
        #[trigger] DecoderLayer::<ConcatKeyValueCache>::apply(&t, x, mask, Some(s), None),
        z,
    ) by {
        lemma_norm(t.input_layernorm, Ok(x), b, l, dim);
        let y = t.input_layernorm.apply(Ok(x))->Ok_0;
        a_linear_layer_keeps_rows(a.q_proj@, Ok(y), b, l, dim, (n * d) as i32);
        a_linear_layer_keeps_rows(a.k_proj@, Ok(y), b, l, dim, (m * d) as i32);
        a_linear_layer_keeps_rows(a.v_proj@, Ok(y), b, l, dim, (m * d) as i32);
        splitting_gives_heads(t_linear(a.q_proj@, Ok(y)), b, l, n, d);
        splitting_gives_heads(t_linear(a.k_proj@, Ok(y)), b, l, m, d);
        splitting_gives_heads(t_linear(a.v_proj@, Ok(y)), b, l, m, d);
        let q = a.headed(a.q_proj, y, n);
        let k = a.headed(a.k_proj, y, m);
        let v = a.headed(a.v_proj, y, m);
        lemma_attended(a.rope, a.scale, q, k, v, a.o_proj@, mask, s, n, z);
        let (r, after) = DecoderLayer::<ConcatKeyValueCache>::apply(&a, y, mask, Some(s), None);
        lemma_same_sum(Ok(x), r, b, l, dim);
        lemma_fed(
            t_add(Ok(x), r),
            t.post_attention_layernorm,
            t.mlp.gate_proj@,
            t.mlp.up_proj@,
            t.mlp.down_proj@,
            hidden,
            z,
        );
    }
}

/// Whether a Qwen2 model has a vocabulary of `v` tokens and layers of these sizes.
pub open spec fn qwen2_goes(
    m: qwen2::Model,
    v: i32,
    dim: i32,
    hidden: i32,
    kv: i32,
    d: i32,
) -> bool {
    &&& m.model.layers@.len() > 0
    &&& table_goes(m.model.embed_tokens@, v, dim)
    &&& forall|i: int|
        0 <= i < m.model.layers@.len() ==> qwen2_block_goes(
            #[trigger] m.model.layers@[i],
            dim,
            hidden,
            kv,
            d,
        )
    &&& m.model.norm.weight@.shape == seq![dim]
    &&& m.lm_head matches Some(h) ==> goes(h@, dim, v)
}

/// Generation with a Qwen2 model goes on: every step gives the logits of every position, one token
/// a row, and leaves its positions in every cache. Weights may be packed.
pub proof fn qwen2_generation_goes_on(
    m: qwen2::Model,
    state: StateTerm,
    slots: Seq<Option<KvState>>,
    opts: SamplerOpts,
    history: Seq<u32>,
    draw: u64,
    v: i32,
    hidden: i32,
    z: Sizes,
)
    requires
        z.fit(),
        z.held >= 0,
        v >= 0,
        qwen2_goes(m, v, z.dim, hidden, z.kv, z.d),
        match state {
            StateTerm::Prefill(p) => p.shape == seq![z.b, z.l],
            StateTerm::Decode(y) => y.shape == seq![z.b] && z.l == 1,
        },
        slots_hold(slots, m.model.layers@.len(), z.b, z.kv, z.d, z.held, z.top) || (slots.len()
            == 0 && z.held == 0),
        opts.penalizes() ==> z.b == 1,
    ensures
        ({
            let (y, after) = generated::<qwen2::Model, ConcatKeyValueCache>(
                &m,
                state,
                slots,
                opts,
                history,
                draw,
            );
            &&& next_ids(state) matches Ok(ids)
            &&& has_shape(
                LanguageModel::<ConcatKeyValueCache>::run(&m, ids, None, slots, None).0,
                seq![z.b, z.l, v],
            )
            &&& has_shape(y, seq![z.b])
            &&& slots_hold(
                after,
                m.model.layers@.len(),
                z.b,
                z.kv,
                z.d,
                (z.held + z.l) as i32,
                z.top,
            )
        }),
{
    lemma_next_ids(state, z.b, z.l);
    let ids = next_ids(state)->Ok_0;
    let layers = m.model.layers@;
    assert forall|i: int| 0 <= i < layers.len() implies layer_keeps(#[trigger] layers[i], z) by {
        a_qwen2_layer_keeps_rows(layers[i], hidden, z);
    }
    lemma_decoder(m.model.embed_tokens, layers, m.model.norm, m.lm_head, ids, slots, v, z);
    a_step_gives_a_token_a_row::<qwen2::Model, ConcatKeyValueCache>(
        &m,
        state,
        slots,
        opts,
        history,
        draw,
        z.b,
        z.l,
        v,
    );
}

} // verus!
