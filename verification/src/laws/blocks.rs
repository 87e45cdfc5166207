//! Layers add to what they take.
//!
//! Whatever a layer computes, it adds to the hidden states that came in: first what its attention
//! gives on the normalized states, then what its feed-forward part gives on the normalized sum.

use crate::array::{BinaryOp, Term, Tn};
use crate::cache::KeyValueCache;
use crate::laws::elements::{num, pair, pairs_go_together, Num};
use crate::laws::shapes::has_shape;
use crate::meaning::in_shape;
use crate::models::{deepseek_v2, gemma3, glm4, gpt_oss, llama, qwen2, qwen3, qwen3_moe};
use crate::models::decoder::DecoderLayer;
use crate::models::hybrid::{fed, FeedForward, HybridLayer};
use crate::models::qwen3_5::LayerState;
use crate::models::qwen3_5_vision::VisionBlock;
use crate::ops::elementwise::t_add;
use vstd::prelude::*;

verus! {

/// A number with what two parts of a layer add to it, one after the other.
pub open spec fn with_both(x: Num, a: Num, m: Num) -> Num {
    pair(BinaryOp::Add, pair(BinaryOp::Add, x, a), m)
}

proof fn lemma_two_sums(x: Term, a: Tn, m: Tn, ix: Seq<int>)
    requires
        in_shape(ix, x.shape),
        has_shape(a, x.shape),
        has_shape(m, x.shape),
    ensures
        has_shape(t_add(t_add(Ok(x), a), m), x.shape),
        num(t_add(t_add(Ok(x), a), m)->Ok_0, ix) == with_both(
            num(x, ix),
            num(a->Ok_0, ix),
            num(m->Ok_0, ix),
        ),
{
    pairs_go_together(BinaryOp::Add, x, a->Ok_0, ix);
    pairs_go_together(BinaryOp::Add, t_add(Ok(x), a)->Ok_0, m->Ok_0, ix);
}

/// Every element behind a block of the vision tower is the element that came in, plus that of the
/// attention on the normalized input, plus that of the feed-forward part on the normalized sum of
/// both.
pub proof fn a_vision_block_adds_to_its_input(
    t: VisionBlock,
    x: Term,
    cos: Term,
    sin: Term,
    ix: Seq<int>,
)
    requires
        in_shape(ix, x.shape),
        ({
            let a = t.attn.apply(t.norm1.apply(Ok(x)), cos, sin);
            has_shape(a, x.shape) && has_shape(
                t.mlp.apply(t.norm2.apply(t_add(Ok(x), a))),
                x.shape,
            )
        }),
    ensures
        ({
            let a = t.attn.apply(t.norm1.apply(Ok(x)), cos, sin);
            let m = t.mlp.apply(t.norm2.apply(t_add(Ok(x), a)));
            let r = t.apply(Ok(x), cos, sin);
            &&& has_shape(r, x.shape)
            &&& num(r->Ok_0, ix) == with_both(
                num(x, ix),
                num(a->Ok_0, ix),
                num(m->Ok_0, ix),
            )
        }),
{
    let a = t.attn.apply(t.norm1.apply(Ok(x)), cos, sin);
    lemma_two_sums(x, a, t.mlp.apply(t.norm2.apply(t_add(Ok(x), a))), ix);
}

/// Every element behind a layer is the element that came in, plus that of the attention on the
/// normalized input, plus that of the feed-forward part on the normalized sum of both; the cache is
/// that of the attention.
pub proof fn a_llama_layer_adds_to_its_input<C: KeyValueCache>(
    t: llama::TransformerBlock,
    x: Term,
    mask: Option<Term>,
    cache: Option<C::State>,
    pads: Option<Term>,
    ix: Seq<int>,
)
    requires
        in_shape(ix, x.shape),
        t.input_layernorm.apply(Ok(x)) is Ok,
        ({
            let mixed = <llama::Attention as DecoderLayer<C>>::apply(
                            &t.self_attn,
                            t.input_layernorm.apply(Ok(x))->Ok_0,
                            mask,
                            cache,
                            pads,
                        );
            let a = mixed.0;
            let m = t.mlp.apply(t.post_attention_layernorm.apply(t_add(Ok(x), a)));
            has_shape(a, x.shape) && has_shape(m, x.shape)
        }),
    ensures
        ({
            let mixed = <llama::Attention as DecoderLayer<C>>::apply(
                            &t.self_attn,
                            t.input_layernorm.apply(Ok(x))->Ok_0,
                            mask,
                            cache,
                            pads,
                        );
            let a = mixed.0;
            let m = t.mlp.apply(t.post_attention_layernorm.apply(t_add(Ok(x), a)));
            let r = <llama::TransformerBlock as DecoderLayer<C>>::apply(&t, x, mask, cache, pads);
            &&& has_shape(r.0, x.shape)
            &&& num(r.0->Ok_0, ix) == with_both(
                num(x, ix),
                num(a->Ok_0, ix),
                num(m->Ok_0, ix),
            )
            &&& r.1 == mixed.1
        }),
{
    let mixed = <llama::Attention as DecoderLayer<C>>::apply(
                    &t.self_attn,
                    t.input_layernorm.apply(Ok(x))->Ok_0,
                    mask,
                    cache,
                    pads,
                );
    let a = mixed.0;
    let m = t.mlp.apply(t.post_attention_layernorm.apply(t_add(Ok(x), a)));
    lemma_two_sums(x, a, m, ix);
}

/// The same of these layers.
pub proof fn a_qwen2_layer_adds_to_its_input<C: KeyValueCache>(
    t: qwen2::TransformerBlock,
    x: Term,
    mask: Option<Term>,
    cache: Option<C::State>,
    pads: Option<Term>,
    ix: Seq<int>,
)
    requires
        in_shape(ix, x.shape),
        t.input_layernorm.apply(Ok(x)) is Ok,
        ({
            let mixed = <qwen2::Attention as DecoderLayer<C>>::apply(
                            &t.self_attn,
                            t.input_layernorm.apply(Ok(x))->Ok_0,
                            mask,
                            cache,
                            pads,
                        );
            let a = mixed.0;
            let m = t.mlp.apply(t.post_attention_layernorm.apply(t_add(Ok(x), a)));
            has_shape(a, x.shape) && has_shape(m, x.shape)
        }),
    ensures
        ({
            let mixed = <qwen2::Attention as DecoderLayer<C>>::apply(
                            &t.self_attn,
                            t.input_layernorm.apply(Ok(x))->Ok_0,
                            mask,
                            cache,
                            pads,
                        );
            let a = mixed.0;
            let m = t.mlp.apply(t.post_attention_layernorm.apply(t_add(Ok(x), a)));
            let r = <qwen2::TransformerBlock as DecoderLayer<C>>::apply(&t, x, mask, cache, pads);
            &&& has_shape(r.0, x.shape)
            &&& num(r.0->Ok_0, ix) == with_both(
                num(x, ix),
                num(a->Ok_0, ix),
                num(m->Ok_0, ix),
            )
            &&& r.1 == mixed.1
        }),
{
    let mixed = <qwen2::Attention as DecoderLayer<C>>::apply(
                    &t.self_attn,
                    t.input_layernorm.apply(Ok(x))->Ok_0,
                    mask,
                    cache,
                    pads,
                );
    let a = mixed.0;
    let m = t.mlp.apply(t.post_attention_layernorm.apply(t_add(Ok(x), a)));
    lemma_two_sums(x, a, m, ix);
}

/// The same of these layers.
pub proof fn a_qwen3_layer_adds_to_its_input<C: KeyValueCache>(
    t: qwen3::TransformerBlock,
    x: Term,
    mask: Option<Term>,
    cache: Option<C::State>,
    pads: Option<Term>,
    ix: Seq<int>,
)
    requires
        in_shape(ix, x.shape),
        t.input_layernorm.apply(Ok(x)) is Ok,
        ({
            let mixed = <qwen3::Attention as DecoderLayer<C>>::apply(
                            &t.self_attn,
                            t.input_layernorm.apply(Ok(x))->Ok_0,
                            mask,
                            cache,
                            pads,
                        );
            let a = mixed.0;
            let m = t.mlp.apply(t.post_attention_layernorm.apply(t_add(Ok(x), a)));
            has_shape(a, x.shape) && has_shape(m, x.shape)
        }),
    ensures
        ({
            let mixed = <qwen3::Attention as DecoderLayer<C>>::apply(
                            &t.self_attn,
                            t.input_layernorm.apply(Ok(x))->Ok_0,
                            mask,
                            cache,
                            pads,
                        );
            let a = mixed.0;
            let m = t.mlp.apply(t.post_attention_layernorm.apply(t_add(Ok(x), a)));
            let r = <qwen3::TransformerBlock as DecoderLayer<C>>::apply(&t, x, mask, cache, pads);
            &&& has_shape(r.0, x.shape)
            &&& num(r.0->Ok_0, ix) == with_both(
                num(x, ix),
                num(a->Ok_0, ix),
                num(m->Ok_0, ix),
            )
            &&& r.1 == mixed.1
        }),
{
    let mixed = <qwen3::Attention as DecoderLayer<C>>::apply(
                    &t.self_attn,
                    t.input_layernorm.apply(Ok(x))->Ok_0,
                    mask,
                    cache,
                    pads,
                );
    let a = mixed.0;
    let m = t.mlp.apply(t.post_attention_layernorm.apply(t_add(Ok(x), a)));
    lemma_two_sums(x, a, m, ix);
}

/// The same of these layers.
pub proof fn a_qwen3_moe_layer_adds_to_its_input<C: KeyValueCache>(
    t: qwen3_moe::DecoderLayer,
    x: Term,
    mask: Option<Term>,
    cache: Option<C::State>,
    pads: Option<Term>,
    ix: Seq<int>,
)
    requires
        in_shape(ix, x.shape),
        t.input_layernorm.apply(Ok(x)) is Ok,
        ({
            let mixed = <qwen3::Attention as DecoderLayer<C>>::apply(
                            &t.self_attn,
                            t.input_layernorm.apply(Ok(x))->Ok_0,
                            mask,
                            cache,
                            pads,
                        );
            let a = mixed.0;
            let m = t.mlp.apply(t.post_attention_layernorm.apply(t_add(Ok(x), a)));
            has_shape(a, x.shape) && has_shape(m, x.shape)
        }),
    ensures
        ({
            let mixed = <qwen3::Attention as DecoderLayer<C>>::apply(
                            &t.self_attn,
                            t.input_layernorm.apply(Ok(x))->Ok_0,
                            mask,
                            cache,
                            pads,
                        );
            let a = mixed.0;
            let m = t.mlp.apply(t.post_attention_layernorm.apply(t_add(Ok(x), a)));
            let r = <qwen3_moe::DecoderLayer as DecoderLayer<C>>::apply(&t, x, mask, cache, pads);
            &&& has_shape(r.0, x.shape)
            &&& num(r.0->Ok_0, ix) == with_both(
                num(x, ix),
                num(a->Ok_0, ix),
                num(m->Ok_0, ix),
            )
            &&& r.1 == mixed.1
        }),
{
    let mixed = <qwen3::Attention as DecoderLayer<C>>::apply(
                    &t.self_attn,
                    t.input_layernorm.apply(Ok(x))->Ok_0,
                    mask,
                    cache,
                    pads,
                );
    let a = mixed.0;
    let m = t.mlp.apply(t.post_attention_layernorm.apply(t_add(Ok(x), a)));
    lemma_two_sums(x, a, m, ix);
}

/// The same of these layers.
pub proof fn a_gpt_oss_layer_adds_to_its_input<C: KeyValueCache>(
    t: gpt_oss::DecoderLayer,
    x: Term,
    mask: Option<Term>,
    cache: Option<C::State>,
    pads: Option<Term>,
    ix: Seq<int>,
)
    requires
        in_shape(ix, x.shape),
        t.input_layernorm.apply(Ok(x)) is Ok,
        ({
            let mixed = <gpt_oss::Attention as DecoderLayer<C>>::apply(
                            &t.self_attn,
                            t.input_layernorm.apply(Ok(x))->Ok_0,
                            mask,
                            cache,
                            pads,
                        );
            let a = mixed.0;
            let m = t.mlp.apply(t.post_attention_layernorm.apply(t_add(Ok(x), a)));
            has_shape(a, x.shape) && has_shape(m, x.shape)
        }),
    ensures
        ({
            let mixed = <gpt_oss::Attention as DecoderLayer<C>>::apply(
                            &t.self_attn,
                            t.input_layernorm.apply(Ok(x))->Ok_0,
                            mask,
                            cache,
                            pads,
                        );
            let a = mixed.0;
            let m = t.mlp.apply(t.post_attention_layernorm.apply(t_add(Ok(x), a)));
            let r = <gpt_oss::DecoderLayer as DecoderLayer<C>>::apply(&t, x, mask, cache, pads);
            &&& has_shape(r.0, x.shape)
            &&& num(r.0->Ok_0, ix) == with_both(
                num(x, ix),
                num(a->Ok_0, ix),
                num(m->Ok_0, ix),
            )
            &&& r.1 == mixed.1
        }),
{
    let mixed = <gpt_oss::Attention as DecoderLayer<C>>::apply(
                    &t.self_attn,
                    t.input_layernorm.apply(Ok(x))->Ok_0,
                    mask,
                    cache,
                    pads,
                );
    let a = mixed.0;
    let m = t.mlp.apply(t.post_attention_layernorm.apply(t_add(Ok(x), a)));
    lemma_two_sums(x, a, m, ix);
}

/// The feed-forward part of a layer: the routed experts where there are some, and the dense one
/// elsewhere.
pub open spec fn deepseek_feed(t: deepseek_v2::DecoderLayer, x: Tn) -> Tn {
    match t.mlp_moe {
        Some(m) => m.apply(x),
        None => t.mlp_dense->Some_0.apply(x),
    }
}

/// The same of these layers.
pub proof fn a_deepseek_layer_adds_to_its_input<C: KeyValueCache>(
    t: deepseek_v2::DecoderLayer,
    x: Term,
    mask: Option<Term>,
    cache: Option<C::State>,
    pads: Option<Term>,
    ix: Seq<int>,
)
    requires
        in_shape(ix, x.shape),
        t.input_layernorm.apply(Ok(x)) is Ok,
        t.mlp_moe is Some || t.mlp_dense is Some,
        t.post_attention_layernorm.apply(
            t_add(
                Ok(x),
                <deepseek_v2::MlaAttention as DecoderLayer<C>>::apply(
                    &t.self_attn,
                    t.input_layernorm.apply(Ok(x))->Ok_0,
                    mask,
                    cache,
                    pads,
                ).0,
            ),
        ) is Ok,
        ({
            let mixed = <deepseek_v2::MlaAttention as DecoderLayer<C>>::apply(
                            &t.self_attn,
                            t.input_layernorm.apply(Ok(x))->Ok_0,
                            mask,
                            cache,
                            pads,
                        );
            let a = mixed.0;
            let m = deepseek_feed(t, t.post_attention_layernorm.apply(t_add(Ok(x), a)));
            has_shape(a, x.shape) && has_shape(m, x.shape)
        }),
    ensures
        ({
            let mixed = <deepseek_v2::MlaAttention as DecoderLayer<C>>::apply(
                            &t.self_attn,
                            t.input_layernorm.apply(Ok(x))->Ok_0,
                            mask,
                            cache,
                            pads,
                        );
            let a = mixed.0;
            let m = deepseek_feed(t, t.post_attention_layernorm.apply(t_add(Ok(x), a)));
            let r = <deepseek_v2::DecoderLayer as DecoderLayer<C>>::apply(&t, x, mask, cache, pads);
            &&& has_shape(r.0, x.shape)
            &&& num(r.0->Ok_0, ix) == with_both(
                num(x, ix),
                num(a->Ok_0, ix),
                num(m->Ok_0, ix),
            )
            &&& r.1 == mixed.1
        }),
{
    let mixed = <deepseek_v2::MlaAttention as DecoderLayer<C>>::apply(
                    &t.self_attn,
                    t.input_layernorm.apply(Ok(x))->Ok_0,
                    mask,
                    cache,
                    pads,
                );
    let a = mixed.0;
    let m = deepseek_feed(t, t.post_attention_layernorm.apply(t_add(Ok(x), a)));
    lemma_two_sums(x, a, m, ix);
}

/// Here what the attention and the feed-forward part give is normalized before it is added.
pub proof fn a_glm4_layer_adds_to_its_input<C: KeyValueCache>(
    t: glm4::TransformerBlock,
    x: Term,
    mask: Option<Term>,
    cache: Option<C::State>,
    pads: Option<Term>,
    ix: Seq<int>,
)
    requires
        in_shape(ix, x.shape),
        t.input_layernorm.apply(Ok(x)) is Ok,
        ({
            let mixed = <glm4::Attention as DecoderLayer<C>>::apply(
                            &t.self_attn,
                            t.input_layernorm.apply(Ok(x))->Ok_0,
                            mask,
                            cache,
                            pads,
                        );
            let a = t.post_self_attn_layernorm.apply(mixed.0);
            let f = t.mlp.apply(t.post_attention_layernorm.apply(t_add(Ok(x), a)));
            let m = t.post_mlp_layernorm.apply(f);
            has_shape(a, x.shape) && has_shape(m, x.shape)
        }),
    ensures
        ({
            let mixed = <glm4::Attention as DecoderLayer<C>>::apply(
                            &t.self_attn,
                            t.input_layernorm.apply(Ok(x))->Ok_0,
                            mask,
                            cache,
                            pads,
                        );
            let a = t.post_self_attn_layernorm.apply(mixed.0);
            let f = t.mlp.apply(t.post_attention_layernorm.apply(t_add(Ok(x), a)));
            let m = t.post_mlp_layernorm.apply(f);
            let r = <glm4::TransformerBlock as DecoderLayer<C>>::apply(&t, x, mask, cache, pads);
            &&& has_shape(r.0, x.shape)
            &&& num(r.0->Ok_0, ix) == with_both(
                num(x, ix),
                num(a->Ok_0, ix),
                num(m->Ok_0, ix),
            )
            &&& r.1 == mixed.1
        }),
{
    let mixed = <glm4::Attention as DecoderLayer<C>>::apply(
                    &t.self_attn,
                    t.input_layernorm.apply(Ok(x))->Ok_0,
                    mask,
                    cache,
                    pads,
                );
    let a = t.post_self_attn_layernorm.apply(mixed.0);
    let f = t.mlp.apply(t.post_attention_layernorm.apply(t_add(Ok(x), a)));
    let m = t.post_mlp_layernorm.apply(f);
    lemma_two_sums(x, a, m, ix);
}

/// Here too.
pub proof fn a_gemma3_layer_adds_to_its_input<C: KeyValueCache>(
    t: gemma3::DecoderLayer,
    x: Term,
    mask: Option<Term>,
    cache: Option<C::State>,
    pads: Option<Term>,
    ix: Seq<int>,
)
    requires
        in_shape(ix, x.shape),
        t.input_layernorm.apply(Ok(x)) is Ok,
        ({
            let mixed = <gemma3::Attention as DecoderLayer<C>>::apply(
                            &t.self_attn,
                            t.input_layernorm.apply(Ok(x))->Ok_0,
                            mask,
                            cache,
                            pads,
                        );
            let a = t.post_attention_layernorm.apply(mixed.0);
            let f = t.mlp.apply(t.pre_feedforward_layernorm.apply(t_add(Ok(x), a)));
            let m = t.post_feedforward_layernorm.apply(f);
            has_shape(a, x.shape) && has_shape(m, x.shape)
        }),
    ensures
        ({
            let mixed = <gemma3::Attention as DecoderLayer<C>>::apply(
                            &t.self_attn,
                            t.input_layernorm.apply(Ok(x))->Ok_0,
                            mask,
                            cache,
                            pads,
                        );
            let a = t.post_attention_layernorm.apply(mixed.0);
            let f = t.mlp.apply(t.pre_feedforward_layernorm.apply(t_add(Ok(x), a)));
            let m = t.post_feedforward_layernorm.apply(f);
            let r = <gemma3::DecoderLayer as DecoderLayer<C>>::apply(&t, x, mask, cache, pads);
            &&& has_shape(r.0, x.shape)
            &&& num(r.0->Ok_0, ix) == with_both(
                num(x, ix),
                num(a->Ok_0, ix),
                num(m->Ok_0, ix),
            )
            &&& r.1 == mixed.1
        }),
{
    let mixed = <gemma3::Attention as DecoderLayer<C>>::apply(
                    &t.self_attn,
                    t.input_layernorm.apply(Ok(x))->Ok_0,
                    mask,
                    cache,
                    pads,
                );
    let a = t.post_attention_layernorm.apply(mixed.0);
    let f = t.mlp.apply(t.pre_feedforward_layernorm.apply(t_add(Ok(x), a)));
    let m = t.post_feedforward_layernorm.apply(f);
    lemma_two_sums(x, a, m, ix);
}

/// The attention that a hybrid layer runs: the linear one on a recurrence, or the full one on keys
/// and values.
pub open spec fn hybrid_mix<F: FeedForward>(
    t: HybridLayer<F>,
    n: Term,
    causal: bool,
    cache: LayerState,
) -> (Tn, LayerState) {
    match cache {
        LayerState::Full(kv) => {
            let r = t.self_attn->Some_0.apply(n, causal, Some(kv));
            (r.0, LayerState::Full(r.1->Some_0))
        },
        LayerState::Linear { conv, state } => {
            let r = t.linear_attn->Some_0.apply(n, conv, state);
            (r.0, LayerState::Linear { conv: r.1, state: r.2 })
        },
    }
}

/// Every element behind a hybrid layer is the element that came in, plus that of its attention on
/// the normalized input, plus that of the feed-forward part on the normalized sum of both; the
/// cache is that of the attention.
pub proof fn a_hybrid_layer_adds_to_its_input<F: FeedForward>(
    t: HybridLayer<F>,
    x: Term,
    causal: bool,
    cache: LayerState,
    ix: Seq<int>,
)
    requires
        in_shape(ix, x.shape),
        t.is_linear == cache is Linear,
        t.input_layernorm.apply(Ok(x)) is Ok,
        ({
            let a = hybrid_mix(t, t.input_layernorm.apply(Ok(x))->Ok_0, causal, cache).0;
            let n = t.post_attention_layernorm.apply(t_add(Ok(x), a));
            has_shape(a, x.shape) && n is Ok && has_shape(t.mlp.feed(n->Ok_0), x.shape)
        }),
    ensures
        ({
            let mixed = hybrid_mix(t, t.input_layernorm.apply(Ok(x))->Ok_0, causal, cache);
            let n = t.post_attention_layernorm.apply(t_add(Ok(x), mixed.0));
            let r = t.apply(x, causal, cache);
            &&& has_shape(r.0, x.shape)
            &&& num(r.0->Ok_0, ix) == with_both(
                num(x, ix),
                num(mixed.0->Ok_0, ix),
                num(t.mlp.feed(n->Ok_0)->Ok_0, ix),
            )
            &&& r.1 == mixed.1
        }),
{
    reveal(HybridLayer::apply);
    let a = hybrid_mix(t, t.input_layernorm.apply(Ok(x))->Ok_0, causal, cache).0;
    let n = t.post_attention_layernorm.apply(t_add(Ok(x), a));
    assert(fed(&t.mlp, n) == t.mlp.feed(n->Ok_0));
    lemma_two_sums(x, a, t.mlp.feed(n->Ok_0), ix);
}

} // verus!
