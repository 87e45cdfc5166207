//! gpt-oss: attention with sinks, layers that see everything beside layers that see the latest
//! positions, routed experts with a clamped activation.
//!
//! Leaves are packed one by one when a model is built, since their widths differ.

use std::sync::Arc;

use crate::array::{strings, tn, Array, Dtype, Term, Tn};
use crate::cache::{slot_states, FreshCache, KeyValueCache};
use crate::error::Exception;
use crate::fast::array_mask;
use crate::models::decoder::{
    fill_caches, forward_layers, model_slots, paired, run_layers, DecoderLayer as Layer, Masks,
};
use crate::models::gemma3::{first_offset, held_positions};
use crate::models::generate::{
    next_ids, token_outcome, GenerateState, LanguageModel, StateTerm,
};
use crate::models::hybrid::{chunk_end, readable};
use crate::models::qwen3::{
    inverse_root, inverse_root_of, layer_count, logits_of, product_fits, to_logits,
};
use crate::models::qwen3_5::{chunk_of, prefill_chunk_size};
use crate::models::qwen3_moe::{best_experts, blend, blended, pick_experts};
use crate::models::sampling::{
    following, next_draw, one, recent_tokens, sample_after, sampled, SamplerOpts,
};
use crate::nn::{
    embedding_outcome, fresh_embedding, fresh_linear, linear_outcome, packed_embedding,
    packed_linear, t_embed, t_linear, AnyEmbedding, AnyLinear, EmbeddingTerm, LinearTerm,
    Quantizable, RmsNorm,
};
use crate::ops::create::{t_scalar, t_zeros, zeros_dtype};
use crate::ops::elementwise::{t_add, t_maximum, t_minimum, t_multiply, t_sigmoid};
use crate::ops::layout::{t_expand_dims, t_flatten, t_reshape, t_squeeze};
use crate::ops::product::{gather_qmm, t_gather_qmm};
use crate::ops::reduce::{softmax_axis, t_softmax};
use crate::ops::select::{t_select, t_slice, t_take, t_take_along, take_along_axis};
use crate::params::{lemma_part, LeafFrame, Parameters};
use crate::scalar::{lit, Float, Scalar, ONE_BITS, ZERO_BITS};
use crate::text::{begins, copy_texts, same_text, strip_prefix};
use crate::utils::attention::{
    attend, attended, explicit_mask, from_heads, join_heads, split_heads, to_heads,
};
use crate::utils::mask::{causal_mask, create_causal_mask};
use crate::utils::rope::{
    initialize_rope, rope_built, FloatOrString, RopeVariant, ScalingConfig,
};
use crate::weights::{file_entries, load_files, loaded_from, Remap};
use vstd::prelude::*;

pub use crate::models::decoder::{AttentionInput, ModelInput};

verus! {

/// The bit pattern of the slope of the gating curve, `1.702`.
pub const SWIGLU_ALPHA_BITS: u32 = 0x3fd9_db23;

/// The bit pattern of the bound of the activation where none is set, `7`.
pub const SWIGLU_LIMIT_BITS: u32 = 0x40e0_0000;

/// The group size of packed leaves other than experts.
pub const AFFINE_GROUP_SIZE: i32 = 64;

/// The number of bits of packed leaves other than experts and routers.
pub const AFFINE_BITS: i32 = 4;

/// The number of bits of packed routers.
pub const ROUTER_BITS: i32 = 8;

/// A value of the scaling configuration as it stands in the file: a number, a text with the number
/// that it reads as, or something else.
pub enum ConfigValue {
    Number(Option<Float>),
    Text(String, Option<Float>),
    Other,
}

/// How experts are packed.
#[derive(Clone, Copy, PartialEq, Eq, Debug, Structural)]
pub struct GptOssQuantization {
    pub group_size: i32,
    pub bits: i32,
}

/// The configuration of a model.
pub struct ModelArgs {
    pub model_type: String,
    pub hidden_size: i32,
    pub num_hidden_layers: i32,
    pub intermediate_size: i32,
    pub num_attention_heads: i32,
    pub num_key_value_heads: i32,
    pub head_dim: i32,
    pub rms_norm_eps: Float,
    pub vocab_size: i32,
    pub rope_theta: Float,
    pub max_position_embeddings: i32,
    pub sliding_window: i32,
    pub num_local_experts: i32,
    pub num_experts_per_tok: i32,
    pub swiglu_limit: Float,
    pub tie_word_embeddings: bool,
    pub layer_types: Vec<String>,
    pub rope_scaling: Option<Vec<(String, ConfigValue)>>,
    pub quantization: Option<GptOssQuantization>,
}

/// The value that a rotary embedding can use.
pub open spec fn usable(v: ConfigValue) -> bool {
    v matches ConfigValue::Number(Some(_)) || v is Text
}

/// Whether an entry is the usable form of another.
pub open spec fn usable_form(a: (String, FloatOrString), b: (String, ConfigValue)) -> bool {
    &&& a.0@ == b.0@
    &&& match (a.1, b.1) {
        (FloatOrString::Float(f), ConfigValue::Number(Some(g))) => f == g,
        (FloatOrString::String(s, n), ConfigValue::Text(t, m)) => s@ == t@ && n == m,
        _ => false,
    }
}

/// Whether a configuration holds the usable entries of another, in their order.
pub open spec fn usable_entries(
    a: Seq<(String, FloatOrString)>,
    b: Seq<(String, ConfigValue)>,
) -> bool
    decreases b.len(),
{
    if b.len() == 0 {
        a.len() == 0
    } else if usable(b.last().1) {
        a.len() > 0 && usable_form(a.last(), b.last()) && usable_entries(
            a.drop_last(),
            b.drop_last(),
        )
    } else {
        usable_entries(a, b.drop_last())
    }
}

/// Whether a configuration is the usable part of another.
pub open spec fn usable_scaling(
    a: Option<ScalingConfig>,
    b: Option<Vec<(String, ConfigValue)>>,
) -> bool {
    match (a, b) {
        (None, None) => true,
        (Some(x), Some(y)) => usable_entries(x@, y@),
        _ => false,
    }
}

impl ModelArgs {
    /// The entries of the scaling configuration that a rotary embedding can use: numbers and
    /// texts.
    pub fn rope_scaling_map(&self) -> (r: Option<ScalingConfig>)
        ensures
            usable_scaling(r, self.rope_scaling),
    {
        match &self.rope_scaling {
            None => None,
            Some(m) => {
                let mut out: ScalingConfig = Vec::new();
                let mut i: usize = 0;
                while i < m.len()
                    invariant
                        i <= m@.len(),
                        usable_entries(out@, m@.take(i as int)),
                    decreases m@.len() - i,
                {
                    proof {
                        assert(m@.take(i + 1).drop_last() =~= m@.take(i as int));
                        assert(m@.take(i + 1).last() == m@[i as int]);
                    }
                    let ghost before = out@;
                    match &m[i].1 {
                        ConfigValue::Number(Some(f)) => {
                            out.push((m[i].0.clone(), FloatOrString::Float(*f)));
                            proof {
                                assert(out@.drop_last() =~= before);
                            }
                        },
                        ConfigValue::Text(s, n) => {
                            out.push((m[i].0.clone(), FloatOrString::String(s.clone(), *n)));
                            proof {
                                assert(out@.drop_last() =~= before);
                            }
                        },
                        _ => {},
                    }
                    i += 1;
                }
                proof {
                    assert(m@.take(i as int) =~= m@);
                }
                Some(out)
            },
        }
    }
}

/// The number of positions where none is set.
pub fn default_max_position_embeddings() -> (r: i32)
    ensures
        r == 131072,
{
    131072
}

/// The size of the window where none is set.
pub fn default_sliding_window() -> (r: i32)
    ensures
        r == 128,
{
    128
}

/// The bound of the activation where none is set.
pub fn default_swiglu_limit() -> (r: Float)
    ensures
        r == (Float { bits: SWIGLU_LIMIT_BITS }),
{
    Float { bits: SWIGLU_LIMIT_BITS }
}

/// A fresh layer that is packed at once.
pub open spec fn fresh_packed(
    input: i32,
    output: i32,
    bias: bool,
    group_size: i32,
    bits: i32,
    draws: (u64, u64),
) -> Result<LinearTerm, Exception> {
    match fresh_linear(input, output, bias, draws) {
        Ok(l) => packed_linear(l, group_size, bits),
        Err(e) => Err(e),
    }
}

/// Whether this is the outcome of building a fresh layer that is packed at once, with some draws.
pub open spec fn packed_built(
    r: Result<LinearTerm, Exception>,
    input: i32,
    output: i32,
    bias: bool,
    group_size: i32,
    bits: i32,
) -> bool {
    exists|draws: (u64, u64)|
        r == #[trigger] fresh_packed(input, output, bias, group_size, bits, draws)
}

/// A fresh embedding table that is packed at once.
pub open spec fn fresh_packed_embedding(rows: i32, dims: i32, draw: u64) -> Result<
    EmbeddingTerm,
    Exception,
> {
    match fresh_embedding(rows, dims, draw) {
        Ok(l) => packed_embedding(l, AFFINE_GROUP_SIZE, AFFINE_BITS),
        Err(e) => Err(e),
    }
}

/// Whether this is the outcome of building a fresh embedding table that is packed at once, with
/// some draw.
pub open spec fn packed_table_built(
    r: Result<EmbeddingTerm, Exception>,
    rows: i32,
    dims: i32,
) -> bool {
    exists|draw: u64| r == #[trigger] fresh_packed_embedding(rows, dims, draw)
}

/// Builds a layer and packs it, so that leaves of one model can have widths of their own.
pub fn quantized_linear(
    in_dim: i32,
    out_dim: i32,
    bias: bool,
    group_size: i32,
    bits: i32,
) -> (r: Result<AnyLinear, Exception>)
    ensures
        packed_built(linear_outcome(r), in_dim, out_dim, bias, group_size, bits),
{
    let built = AnyLinear::linear(in_dim, out_dim, bias);
    let ghost draws = choose|draws: (u64, u64)|
        linear_outcome(built) == #[trigger] fresh_linear(in_dim, out_dim, bias, draws);
    proof {
        assert(fresh_packed(in_dim, out_dim, bias, group_size, bits, draws) == match linear_outcome(
            built,
        ) {
            Ok(l) => packed_linear(l, group_size, bits),
            Err(e) => Err(e),
        });
    }
    built?.quantize(group_size, bits)
}

/// Builds an embedding table and packs it.
fn quantized_embedding(rows: i32, dims: i32) -> (r: Result<AnyEmbedding, Exception>)
    ensures
        packed_table_built(embedding_outcome(r), rows, dims),
{
    let built = AnyEmbedding::embedding(rows, dims);
    let ghost draw = choose|draw: u64|
        embedding_outcome(built) == #[trigger] fresh_embedding(rows, dims, draw);
    proof {
        assert(fresh_packed_embedding(rows, dims, draw) == match embedding_outcome(built) {
            Ok(l) => packed_embedding(l, AFFINE_GROUP_SIZE, AFFINE_BITS),
            Err(e) => Err(e),
        });
    }
    built?.quantize(AFFINE_GROUP_SIZE, AFFINE_BITS)
}

/// Attention with one extra score a head.
pub struct Attention {
    pub n_heads: i32,
    pub n_kv_heads: i32,
    pub scale: Scalar,
    pub q_proj: AnyLinear,
    pub k_proj: AnyLinear,
    pub v_proj: AnyLinear,
    pub o_proj: AnyLinear,
    /// The extra score of every head.
    pub sinks: Array,
    pub rope: RopeVariant,
}

/// Whether the layers of a model can be laid out: the widths fit.
pub open spec fn layers_ready(args: &ModelArgs) -> bool {
    &&& product_fits(args.num_attention_heads, args.head_dim)
    &&& product_fits(args.num_key_value_heads, args.head_dim)
}

impl Attention {
    /// Whether this is the attention of a fresh layer.
    pub open spec fn is_fresh(&self, args: &ModelArgs) -> bool {
        let dim = args.hidden_size;
        let q = (args.num_attention_heads * args.head_dim) as i32;
        let kv = (args.num_key_value_heads * args.head_dim) as i32;
        &&& self.n_heads == args.num_attention_heads
        &&& self.n_kv_heads == args.num_key_value_heads
        &&& self.scale == inverse_root(args.head_dim)
        &&& packed_built(Ok(self.q_proj@), dim, q, true, AFFINE_GROUP_SIZE, AFFINE_BITS)
        &&& packed_built(Ok(self.k_proj@), dim, kv, true, AFFINE_GROUP_SIZE, AFFINE_BITS)
        &&& packed_built(Ok(self.v_proj@), dim, kv, true, AFFINE_GROUP_SIZE, AFFINE_BITS)
        &&& packed_built(Ok(self.o_proj@), q, dim, true, AFFINE_GROUP_SIZE, AFFINE_BITS)
        &&& t_zeros(seq![args.num_attention_heads], Dtype::Float32) == Ok::<Term, Exception>(
            self.sinks@,
        )
        &&& exists|c: Option<ScalingConfig>| #[trigger]
            usable_scaling(c, args.rope_scaling) && rope_built(
                Ok(self.rope),
                args.head_dim,
                Scalar::Lit(args.rope_theta),
                false,
                c,
            )
    }

    /// Whether the attention of a layer cannot be built.
    pub open spec fn cannot_build(args: &ModelArgs, e: Exception) -> bool {
        let dim = args.hidden_size;
        let q = (args.num_attention_heads * args.head_dim) as i32;
        let kv = (args.num_key_value_heads * args.head_dim) as i32;
        ||| packed_built(Err(e), dim, q, true, AFFINE_GROUP_SIZE, AFFINE_BITS)
        ||| packed_built(Err(e), dim, kv, true, AFFINE_GROUP_SIZE, AFFINE_BITS)
        ||| packed_built(Err(e), q, dim, true, AFFINE_GROUP_SIZE, AFFINE_BITS)
        ||| t_zeros(seq![args.num_attention_heads], Dtype::Float32) == Err::<Term, Exception>(e)
        ||| exists|c: Option<ScalingConfig>| #[trigger]
            usable_scaling(c, args.rope_scaling) && rope_built(
                Err(e),
                args.head_dim,
                Scalar::Lit(args.rope_theta),
                false,
                c,
            )
    }

    /// Fresh attention.
    pub fn new(args: &ModelArgs) -> (r: Result<Attention, Exception>)
        requires
            layers_ready(args),
        ensures
            match r {
                Ok(a) => a.is_fresh(args),
                Err(e) => Attention::cannot_build(args, e),
            },
    {
        let dim: i32 = args.hidden_size;
        let n_heads: i32 = args.num_attention_heads;
        let n_kv_heads: i32 = args.num_key_value_heads;
        let head_dim: i32 = args.head_dim;
        let (gs, bits): (i32, i32) = (AFFINE_GROUP_SIZE, AFFINE_BITS);
        let q_proj = quantized_linear(dim, n_heads * head_dim, true, gs, bits)?;
        let k_proj = quantized_linear(dim, n_kv_heads * head_dim, true, gs, bits)?;
        let v_proj = quantized_linear(dim, n_kv_heads * head_dim, true, gs, bits)?;
        let o_proj = quantized_linear(n_heads * head_dim, dim, true, gs, bits)?;
        let shape: Vec<i32> = vec![n_heads];
        proof {
            assert(shape@ =~= seq![n_heads]);
        }
        let sinks = zeros_dtype(&shape, Dtype::Float32)?;
        let scaling = args.rope_scaling_map();
        let rope = initialize_rope(
            head_dim,
            Scalar::Lit(args.rope_theta),
            false,
            &scaling,
            args.max_position_embeddings,
        )?;
        Ok(
            Attention {
                n_heads,
                n_kv_heads,
                scale: inverse_root_of(head_dim),
                q_proj,
                k_proj,
                v_proj,
                o_proj,
                sinks,
                rope,
            },
        )
    }

    /// A projection split into `n` heads.
    pub open spec fn headed(&self, l: AnyLinear, x: Term, n: i32) -> Tn {
        split_heads(t_linear(l@, Ok(x)), x.shape[0], x.shape[1], n)
    }
}

impl<C: KeyValueCache> Layer<C> for Attention {
    open spec fn windowed(&self) -> bool {
        false
    }

    fn is_windowed(&self) -> bool {
        false
    }

    /// Pad offsets play no part here.
    open spec fn apply(
        &self,
        x: Term,
        mask: Option<Term>,
        cache: Option<C::State>,
        pads: Option<Term>,
    ) -> (Tn, Option<C::State>) {
        if x.shape.len() < 2 {
            (Err(Exception::Operands), cache)
        } else {
            match (
                self.headed(self.q_proj, x, self.n_heads),
                self.headed(self.k_proj, x, self.n_kv_heads),
                self.headed(self.v_proj, x, self.n_kv_heads),
            ) {
                (Ok(q), Ok(k), Ok(v)) => {
                    let (attn, after) = attended::<C>(
                        self.rope,
                        Ok(q),
                        Ok(k),
                        Ok(v),
                        self.scale,
                        array_mask(mask),
                        Some(self.sinks@),
                        cache,
                        None,
                    );
                    (t_linear(self.o_proj@, join_heads(attn, x.shape[0], x.shape[1])), after)
                },
                _ => (Err(Exception::Operands), cache),
            }
        }
    }

    fn forward(&self, input: AttentionInput<'_, C>) -> Result<Array, Exception> {
        let AttentionInput { x, mask, cache, pad_offsets: _ } = input;
        if x.ndim() < 2 {
            return Err(Exception::Operands);
        }
        let b: i32 = x.shape()[0];
        let l: i32 = x.shape()[1];
        let queries = to_heads(&self.q_proj.forward(x)?, b, l, self.n_heads)?;
        let keys = to_heads(&self.k_proj.forward(x)?, b, l, self.n_kv_heads)?;
        let values = to_heads(&self.v_proj.forward(x)?, b, l, self.n_kv_heads)?;
        let attn = attend(
            &self.rope,
            queries,
            keys,
            values,
            self.scale.copy(),
            explicit_mask(mask),
            Some(&self.sinks),
            cache,
            None,
        )?;
        self.o_proj.forward(&from_heads(&attn, b, l)?)
    }
}

impl Parameters for Attention {
    type Frame = (i32, i32, Scalar, LeafFrame, LeafFrame, LeafFrame, LeafFrame, RopeVariant);

    open spec fn frame(&self) -> Self::Frame {
        (
            self.n_heads,
            self.n_kv_heads,
            self.scale,
            self.q_proj.frame(),
            self.k_proj.frame(),
            self.v_proj.frame(),
            self.o_proj.frame(),
            self.rope,
        )
    }

    open spec fn param(&self, key: Seq<char>) -> Option<Term> {
        if begins(key, "q_proj."@) {
            self.q_proj.param(key.skip("q_proj."@.len() as int))
        } else if begins(key, "k_proj."@) {
            self.k_proj.param(key.skip("k_proj."@.len() as int))
        } else if begins(key, "v_proj."@) {
            self.v_proj.param(key.skip("v_proj."@.len() as int))
        } else if begins(key, "o_proj."@) {
            self.o_proj.param(key.skip("o_proj."@.len() as int))
        } else if key == "sinks"@ {
            Some(self.sinks@)
        } else {
            None
        }
    }

    fn has_param(&self, key: &str) -> bool {
        match strip_prefix(key, "q_proj.") {
            Some(rest) => {
                return self.q_proj.has_param(rest);
            },
            None => {},
        }
        match strip_prefix(key, "k_proj.") {
            Some(rest) => {
                return self.k_proj.has_param(rest);
            },
            None => {},
        }
        match strip_prefix(key, "v_proj.") {
            Some(rest) => {
                return self.v_proj.has_param(rest);
            },
            None => {},
        }
        match strip_prefix(key, "o_proj.") {
            Some(rest) => {
                return self.o_proj.has_param(rest);
            },
            None => {},
        }
        if same_text(key, "sinks") {
            return true;
        }
        false
    }

    fn set_param(&mut self, key: &str, value: Array) -> bool {
        let ghost before = *self;
        match strip_prefix(key, "q_proj.") {
            Some(rest) => {
                let ghost v = value@;
                let done = self.q_proj.set_param(rest, value);
                proof {
                    lemma_part(before.q_proj, self.q_proj, key@, "q_proj."@, v, done);
                }
                return done;
            },
            None => {},
        }
        match strip_prefix(key, "k_proj.") {
            Some(rest) => {
                let ghost v = value@;
                let done = self.k_proj.set_param(rest, value);
                proof {
                    lemma_part(before.k_proj, self.k_proj, key@, "k_proj."@, v, done);
                }
                return done;
            },
            None => {},
        }
        match strip_prefix(key, "v_proj.") {
            Some(rest) => {
                let ghost v = value@;
                let done = self.v_proj.set_param(rest, value);
                proof {
                    lemma_part(before.v_proj, self.v_proj, key@, "v_proj."@, v, done);
                }
                return done;
            },
            None => {},
        }
        match strip_prefix(key, "o_proj.") {
            Some(rest) => {
                let ghost v = value@;
                let done = self.o_proj.set_param(rest, value);
                proof {
                    lemma_part(before.o_proj, self.o_proj, key@, "o_proj."@, v, done);
                }
                return done;
            },
            None => {},
        }
        if same_text(key, "sinks") {
            self.sinks = value;
            return true;
        }
        false
    }
}

/// The clamped gated activation: with `g` the gating input cut off above the limit and `u` the
/// other input cut off on both sides, `g * sigmoid(1.702 * g) * (u + 1)`.
pub open spec fn activated(up: Tn, gate: Tn, limit: Float) -> Tn {
    let lim = t_scalar(Scalar::Lit(limit));
    let neg = t_scalar(Scalar::Negative(Arc::new(Scalar::Lit(limit))));
    let g = t_minimum(gate, lim);
    let u = t_minimum(t_maximum(up, neg), lim);
    t_multiply(
        t_multiply(g, t_sigmoid(t_multiply(g, t_scalar(lit(SWIGLU_ALPHA_BITS))))),
        t_add(u, t_scalar(lit(ONE_BITS))),
    )
}

/// Applies the clamped gated activation.
pub fn swiglu(x_up: &Array, x_gate: &Array, limit: Float) -> (r: Result<Array, Exception>)
    ensures
        tn(r) == activated(Ok(x_up@), Ok(x_gate@), limit),
{
    let lim = Array::from_scalar(Scalar::Lit(limit));
    let neg_lim = Array::from_scalar(Scalar::Negative(Arc::new(Scalar::Lit(limit))));
    let glu = x_gate.minimum(&lim)?;
    let linear = x_up.maximum(&neg_lim)?.minimum(&lim)?;
    let sig = glu.multiply(&Array::from_scalar(Scalar::lit(SWIGLU_ALPHA_BITS)))?.sigmoid()?;
    let out = glu.multiply(&sig)?;
    out.multiply(&linear.add(&Array::from_scalar(Scalar::lit(ONE_BITS)))?)
}

/// The biases of the experts that `indices` picks, on an axis behind those of `indices`.
pub open spec fn picked_bias(bias: Tn, indices: Tn) -> Tn {
    match indices {
        Ok(i) => t_reshape(t_take(bias, t_flatten(Ok(i)), 0), i.shape.push(-1i32)),
        Err(e) => Err(e),
    }
}

/// Looks up the biases (`[experts, out]`) of the experts that `indices` picks.
pub fn take_expert_bias(bias: &Array, indices: &Array) -> (r: Result<Array, Exception>)
    ensures
        tn(r) == picked_bias(Ok(bias@), Ok(indices@)),
{
    let flat = indices.flatten()?;
    let gathered = bias.take_axis(&flat, 0)?;
    let mut shape = indices.dims();
    shape.push(-1);
    gathered.reshape(&shape)
}

/// One packed matrix and one bias for every expert.
pub struct QSwitchLinear {
    pub group_size: i32,
    pub bits: i32,
    pub weight: Array,
    pub scales: Array,
    pub bias: Array,
}

impl QSwitchLinear {
    /// The products with the matrices of the experts that `indices` picks, plus their biases.
    pub open spec fn apply(&self, x: Tn, indices: Tn) -> Tn {
        t_add(
            t_gather_qmm(
                x,
                self.weight@,
                self.scales@,
                None,
                indices,
                self.group_size,
                self.bits,
            ),
            t_expand_dims(picked_bias(Ok(self.bias@), indices), -2i32),
        )
    }

    /// Whether these are matrices that are still to be loaded.
    pub open spec fn is_empty(&self, group_size: i32, bits: i32) -> bool {
        let zero = t_scalar(lit(ZERO_BITS));
        &&& self.group_size == group_size
        &&& self.bits == bits
        &&& zero == Ok::<Term, Exception>(self.weight@)
        &&& zero == Ok::<Term, Exception>(self.scales@)
        &&& zero == Ok::<Term, Exception>(self.bias@)
    }

    /// Matrices that are still to be loaded.
    pub fn new(group_size: i32, bits: i32) -> (r: QSwitchLinear)
        ensures
            r.is_empty(group_size, bits),
    {
        QSwitchLinear {
            group_size,
            bits,
            weight: Array::from_scalar(Scalar::lit(ZERO_BITS)),
            scales: Array::from_scalar(Scalar::lit(ZERO_BITS)),
            bias: Array::from_scalar(Scalar::lit(ZERO_BITS)),
        }
    }

    /// Multiplies by the matrices of the experts that `indices` picks and adds their biases.
    pub fn forward(&self, x: &Array, indices: &Array) -> (r: Result<Array, Exception>)
        ensures
            tn(r) == self.apply(Ok(x@), Ok(indices@)),
    {
        let y = gather_qmm(
            x,
            &self.weight,
            &self.scales,
            None,
            indices,
            self.group_size,
            self.bits,
        )?;
        let bias = take_expert_bias(&self.bias, indices)?.expand_dims(-2)?;
        y.add(&bias)
    }
}

impl Parameters for QSwitchLinear {
    type Frame = (i32, i32);

    open spec fn frame(&self) -> Self::Frame {
        (self.group_size, self.bits)
    }

    open spec fn param(&self, key: Seq<char>) -> Option<Term> {
        if key == "weight"@ {
            Some(self.weight@)
        } else if key == "scales"@ {
            Some(self.scales@)
        } else if key == "bias"@ {
            Some(self.bias@)
        } else {
            None
        }
    }

    fn has_param(&self, key: &str) -> bool {
        if same_text(key, "weight") {
            return true;
        }
        if same_text(key, "scales") {
            return true;
        }
        if same_text(key, "bias") {
            return true;
        }
        false
    }

    fn set_param(&mut self, key: &str, value: Array) -> bool {
        let ghost before = *self;
        if same_text(key, "weight") {
            self.weight = value;
            return true;
        }
        if same_text(key, "scales") {
            self.scales = value;
            return true;
        }
        if same_text(key, "bias") {
            self.bias = value;
            return true;
        }
        false
    }
}

/// The gated feed-forward layers of all experts.
pub struct SwitchGlu {
    pub gate_proj: QSwitchLinear,
    pub up_proj: QSwitchLinear,
    pub down_proj: QSwitchLinear,
}

impl SwitchGlu {
    /// The layers of the experts that `indices` (`[B, L, k]`) picks, applied to `x` (`[B, L, D]`).
    pub open spec fn apply(&self, x: Tn, indices: Tn, limit: Float) -> Tn {
        let wide = t_expand_dims(t_expand_dims(x, -2i32), -2i32);
        let up = self.up_proj.apply(wide, indices);
        let gate = self.gate_proj.apply(wide, indices);
        t_squeeze(self.down_proj.apply(activated(up, gate, limit), indices), -2i32)
    }

    /// Whether these are layers that are still to be loaded.
    pub open spec fn is_empty(&self, group_size: i32, bits: i32) -> bool {
        &&& self.gate_proj.is_empty(group_size, bits)
        &&& self.up_proj.is_empty(group_size, bits)
        &&& self.down_proj.is_empty(group_size, bits)
    }

    /// Layers that are still to be loaded.
    pub fn new(group_size: i32, bits: i32) -> (r: SwitchGlu)
        ensures
            r.is_empty(group_size, bits),
    {
        SwitchGlu {
            gate_proj: QSwitchLinear::new(group_size, bits),
            up_proj: QSwitchLinear::new(group_size, bits),
            down_proj: QSwitchLinear::new(group_size, bits),
        }
    }

    /// Applies the layers of the experts that `indices` picks; the result is `[B, L, k, D]`.
    pub fn forward(&self, x: &Array, indices: &Array, limit: Float) -> (r: Result<
        Array,
        Exception,
    >)
        ensures
            tn(r) == self.apply(Ok(x@), Ok(indices@), limit),
    {
        let wide = x.expand_dims(-2)?.expand_dims(-2)?;
        let up = self.up_proj.forward(&wide, indices)?;
        let gate = self.gate_proj.forward(&wide, indices)?;
        let act = swiglu(&up, &gate, limit)?;
        self.down_proj.forward(&act, indices)?.squeeze(-2)
    }
}

impl Parameters for SwitchGlu {
    type Frame = (
        <QSwitchLinear as Parameters>::Frame,
        <QSwitchLinear as Parameters>::Frame,
        <QSwitchLinear as Parameters>::Frame,
    );

    open spec fn frame(&self) -> Self::Frame {
        (self.gate_proj.frame(), self.up_proj.frame(), self.down_proj.frame())
    }

    open spec fn param(&self, key: Seq<char>) -> Option<Term> {
        if begins(key, "gate_proj."@) {
            self.gate_proj.param(key.skip("gate_proj."@.len() as int))
        } else if begins(key, "up_proj."@) {
            self.up_proj.param(key.skip("up_proj."@.len() as int))
        } else if begins(key, "down_proj."@) {
            self.down_proj.param(key.skip("down_proj."@.len() as int))
        } else {
            None
        }
    }

    fn has_param(&self, key: &str) -> bool {
        match strip_prefix(key, "gate_proj.") {
            Some(rest) => {
                return self.gate_proj.has_param(rest);
            },
            None => {},
        }
        match strip_prefix(key, "up_proj.") {
            Some(rest) => {
                return self.up_proj.has_param(rest);
            },
            None => {},
        }
        match strip_prefix(key, "down_proj.") {
            Some(rest) => {
                return self.down_proj.has_param(rest);
            },
            None => {},
        }
        false
    }

    fn set_param(&mut self, key: &str, value: Array) -> bool {
        let ghost before = *self;
        match strip_prefix(key, "gate_proj.") {
            Some(rest) => {
                let ghost v = value@;
                let done = self.gate_proj.set_param(rest, value);
                proof {
                    lemma_part(before.gate_proj, self.gate_proj, key@, "gate_proj."@, v, done);
                }
                return done;
            },
            None => {},
        }
        match strip_prefix(key, "up_proj.") {
            Some(rest) => {
                let ghost v = value@;
                let done = self.up_proj.set_param(rest, value);
                proof {
                    lemma_part(before.up_proj, self.up_proj, key@, "up_proj."@, v, done);
                }
                return done;
            },
            None => {},
        }
        match strip_prefix(key, "down_proj.") {
            Some(rest) => {
                let ghost v = value@;
                let done = self.down_proj.set_param(rest, value);
                proof {
                    lemma_part(before.down_proj, self.down_proj, key@, "down_proj."@, v, done);
                }
                return done;
            },
            None => {},
        }
        false
    }
}

/// A feed-forward layer of routed experts.
pub struct MlpBlock {
    pub top_k: i32,
    pub num_experts: i32,
    pub swiglu_limit: Float,
    pub router: AnyLinear,
    pub experts: SwitchGlu,
}

/// The group size and width of packed experts: those of the configuration, or 32 and 4.
pub open spec fn expert_packing(q: Option<GptOssQuantization>) -> (i32, i32) {
    match q {
        Some(q) => (q.group_size, q.bits),
        None => (32i32, 4i32),
    }
}

impl MlpBlock {
    /// The layer applied to `x`: the best experts by their raw scores, weighted by the softmax of
    /// these scores alone.
    pub open spec fn apply(&self, x: Tn) -> Tn {
        let scores = t_linear(self.router@, x);
        let picked = best_experts(scores, self.top_k, self.num_experts);
        let weights = t_softmax(t_take_along(scores, picked, -1i32), -1i32, true);
        blended(self.experts.apply(x, picked, self.swiglu_limit), weights)
    }

    /// Whether this is a fresh layer.
    pub open spec fn is_fresh(&self, args: &ModelArgs) -> bool {
        let (group_size, bits) = expert_packing(args.quantization);
        &&& self.top_k == args.num_experts_per_tok
        &&& self.num_experts == args.num_local_experts
        &&& self.swiglu_limit == args.swiglu_limit
        &&& packed_built(
            Ok(self.router@),
            args.hidden_size,
            args.num_local_experts,
            true,
            AFFINE_GROUP_SIZE,
            ROUTER_BITS,
        )
        &&& self.experts.is_empty(group_size, bits)
    }

    /// Whether a layer cannot be built.
    pub open spec fn cannot_build(args: &ModelArgs, e: Exception) -> bool {
        packed_built(
            Err(e),
            args.hidden_size,
            args.num_local_experts,
            true,
            AFFINE_GROUP_SIZE,
            ROUTER_BITS,
        )
    }

    /// A fresh layer.
    pub fn new(args: &ModelArgs) -> (r: Result<MlpBlock, Exception>)
        ensures
            match r {
                Ok(m) => m.is_fresh(args),
                Err(e) => MlpBlock::cannot_build(args, e),
            },
    {
        let router = quantized_linear(
            args.hidden_size,
            args.num_local_experts,
            true,
            AFFINE_GROUP_SIZE,
            ROUTER_BITS,
        )?;
        let (group_size, bits): (i32, i32) = match args.quantization {
            Some(q) => (q.group_size, q.bits),
            None => (32, 4),
        };
        Ok(
            MlpBlock {
                top_k: args.num_experts_per_tok,
                num_experts: args.num_local_experts,
                swiglu_limit: args.swiglu_limit,
                router,
                experts: SwitchGlu::new(group_size, bits),
            },
        )
    }

    /// Applies the layer.
    pub fn forward(&self, x: &Array) -> (r: Result<Array, Exception>)
        ensures
            tn(r) == self.apply(Ok(x@)),
    {
        let scores = self.router.forward(x)?;
        let picked = pick_experts(&scores, self.top_k, self.num_experts)?;
        let weights = softmax_axis(&take_along_axis(&scores, &picked, -1)?, -1, true)?;
        let y = self.experts.forward(x, &picked, self.swiglu_limit)?;
        blend(&y, &weights)
    }
}

impl Parameters for MlpBlock {
    type Frame = (i32, i32, Float, LeafFrame, <SwitchGlu as Parameters>::Frame);

    open spec fn frame(&self) -> Self::Frame {
        (
            self.top_k,
            self.num_experts,
            self.swiglu_limit,
            self.router.frame(),
            self.experts.frame(),
        )
    }

    open spec fn param(&self, key: Seq<char>) -> Option<Term> {
        if begins(key, "router."@) {
            self.router.param(key.skip("router."@.len() as int))
        } else if begins(key, "experts."@) {
            self.experts.param(key.skip("experts."@.len() as int))
        } else {
            None
        }
    }

    fn has_param(&self, key: &str) -> bool {
        match strip_prefix(key, "router.") {
            Some(rest) => {
                return self.router.has_param(rest);
            },
            None => {},
        }
        match strip_prefix(key, "experts.") {
            Some(rest) => {
                return self.experts.has_param(rest);
            },
            None => {},
        }
        false
    }

    fn set_param(&mut self, key: &str, value: Array) -> bool {
        let ghost before = *self;
        match strip_prefix(key, "router.") {
            Some(rest) => {
                let ghost v = value@;
                let done = self.router.set_param(rest, value);
                proof {
                    lemma_part(before.router, self.router, key@, "router."@, v, done);
                }
                return done;
            },
            None => {},
        }
        match strip_prefix(key, "experts.") {
            Some(rest) => {
                let ghost v = value@;
                let done = self.experts.set_param(rest, value);
                proof {
                    lemma_part(before.experts, self.experts, key@, "experts."@, v, done);
                }
                return done;
            },
            None => {},
        }
        false
    }
}

/// A layer: attention and routed experts, each on normalized states and added to what came in.
pub struct DecoderLayer {
    /// Whether the layer sees only the latest positions.
    pub is_sliding: bool,
    pub self_attn: Attention,
    pub mlp: MlpBlock,
    pub input_layernorm: RmsNorm,
    pub post_attention_layernorm: RmsNorm,
}

/// Whether a layer of this type sees only the latest positions.
pub open spec fn sliding_type(name: Seq<char>) -> bool {
    name == "sliding_attention"@
}

impl DecoderLayer {
    /// Whether this is a fresh layer `i`.
    pub open spec fn is_fresh(&self, args: &ModelArgs, i: int) -> bool {
        let eps = Scalar::Lit(args.rms_norm_eps);
        &&& self.is_sliding == (i < args.layer_types@.len() && sliding_type(
            args.layer_types@[i]@,
        ))
        &&& self.self_attn.is_fresh(args)
        &&& self.mlp.is_fresh(args)
        &&& self.input_layernorm.is_fresh(args.hidden_size, eps)
        &&& self.post_attention_layernorm.is_fresh(args.hidden_size, eps)
    }

    /// Whether a layer cannot be built.
    pub open spec fn cannot_build(args: &ModelArgs, e: Exception) -> bool {
        ||| Attention::cannot_build(args, e)
        ||| MlpBlock::cannot_build(args, e)
        ||| RmsNorm::cannot_build(args.hidden_size, e)
    }

    /// A fresh layer.
    pub fn new(args: &ModelArgs, layer_idx: usize) -> (r: Result<DecoderLayer, Exception>)
        requires
            layers_ready(args),
        ensures
            match r {
                Ok(l) => l.is_fresh(args, layer_idx as int),
                Err(e) => DecoderLayer::cannot_build(args, e),
            },
    {
        let self_attn = Attention::new(args)?;
        let mlp = MlpBlock::new(args)?;
        let eps = Scalar::Lit(args.rms_norm_eps);
        let input_layernorm = RmsNorm::new(args.hidden_size, eps.copy())?;
        let post_attention_layernorm = RmsNorm::new(args.hidden_size, eps)?;
        let is_sliding = layer_idx < args.layer_types.len() && same_text(
            args.layer_types[layer_idx].as_str(),
            "sliding_attention",
        );
        Ok(DecoderLayer { is_sliding, self_attn, mlp, input_layernorm, post_attention_layernorm })
    }
}

impl<C: KeyValueCache> Layer<C> for DecoderLayer {
    open spec fn windowed(&self) -> bool {
        self.is_sliding
    }

    fn is_windowed(&self) -> bool {
        self.is_sliding
    }

    open spec fn apply(
        &self,
        x: Term,
        mask: Option<Term>,
        cache: Option<C::State>,
        pads: Option<Term>,
    ) -> (Tn, Option<C::State>) {
        match self.input_layernorm.apply(Ok(x)) {
            Ok(n) => {
                let (r, after) = <Attention as Layer<C>>::apply(
                    &self.self_attn,
                    n,
                    mask,
                    cache,
                    pads,
                );
                let h = t_add(Ok(x), r);
                (t_add(h, self.mlp.apply(self.post_attention_layernorm.apply(h))), after)
            },
            Err(e) => (Err(e), cache),
        }
    }

    fn forward(&self, input: AttentionInput<'_, C>) -> Result<Array, Exception> {
        let AttentionInput { x, mask, cache, pad_offsets } = input;
        let n = self.input_layernorm.forward(x)?;
        let r = self.self_attn.forward(AttentionInput { x: &n, mask, cache, pad_offsets })?;
        let h = x.add(&r)?;
        let r = self.mlp.forward(&self.post_attention_layernorm.forward(&h)?)?;
        h.add(&r)
    }
}

impl Parameters for DecoderLayer {
    type Frame = (
        bool,
        <Attention as Parameters>::Frame,
        <MlpBlock as Parameters>::Frame,
        <RmsNorm as Parameters>::Frame,
        <RmsNorm as Parameters>::Frame,
    );

    open spec fn frame(&self) -> Self::Frame {
        (
            self.is_sliding,
            self.self_attn.frame(),
            self.mlp.frame(),
            self.input_layernorm.frame(),
            self.post_attention_layernorm.frame(),
        )
    }

    open spec fn param(&self, key: Seq<char>) -> Option<Term> {
        if begins(key, "self_attn."@) {
            self.self_attn.param(key.skip("self_attn."@.len() as int))
        } else if begins(key, "mlp."@) {
            self.mlp.param(key.skip("mlp."@.len() as int))
        } else if begins(key, "input_layernorm."@) {
            self.input_layernorm.param(key.skip("input_layernorm."@.len() as int))
        } else if begins(key, "post_attention_layernorm."@) {
            self.post_attention_layernorm.param(key.skip("post_attention_layernorm."@.len() as int))
        } else {
            None
        }
    }

    fn has_param(&self, key: &str) -> bool {
        match strip_prefix(key, "self_attn.") {
            Some(rest) => {
                return self.self_attn.has_param(rest);
            },
            None => {},
        }
        match strip_prefix(key, "mlp.") {
            Some(rest) => {
                return self.mlp.has_param(rest);
            },
            None => {},
        }
        match strip_prefix(key, "input_layernorm.") {
            Some(rest) => {
                return self.input_layernorm.has_param(rest);
            },
            None => {},
        }
        match strip_prefix(key, "post_attention_layernorm.") {
            Some(rest) => {
                return self.post_attention_layernorm.has_param(rest);
            },
            None => {},
        }
        false
    }

    fn set_param(&mut self, key: &str, value: Array) -> bool {
        let ghost before = *self;
        match strip_prefix(key, "self_attn.") {
            Some(rest) => {
                let ghost v = value@;
                let done = self.self_attn.set_param(rest, value);
                proof {
                    lemma_part(before.self_attn, self.self_attn, key@, "self_attn."@, v, done);
                }
                return done;
            },
            None => {},
        }
        match strip_prefix(key, "mlp.") {
            Some(rest) => {
                let ghost v = value@;
                let done = self.mlp.set_param(rest, value);
                proof {
                    lemma_part(before.mlp, self.mlp, key@, "mlp."@, v, done);
                }
                return done;
            },
            None => {},
        }
        match strip_prefix(key, "input_layernorm.") {
            Some(rest) => {
                let ghost v = value@;
                let done = self.input_layernorm.set_param(rest, value);
                proof {
                    lemma_part(
                        before.input_layernorm,
                        self.input_layernorm,
                        key@,
                        "input_layernorm."@,
                        v,
                        done,
                    );
                }
                return done;
            },
            None => {},
        }
        match strip_prefix(key, "post_attention_layernorm.") {
            Some(rest) => {
                let ghost v = value@;
                let done = self.post_attention_layernorm.set_param(rest, value);
                proof {
                    lemma_part(
                        before.post_attention_layernorm,
                        self.post_attention_layernorm,
                        key@,
                        "post_attention_layernorm."@,
                        v,
                        done,
                    );
                }
                return done;
            },
            None => {},
        }
        false
    }
}

/// The layers of a model, between its embedding table and its last normalization.
pub struct GptOssModel {
    pub num_hidden_layers: i32,
    pub sliding_window: i32,
    pub layer_types: Vec<String>,
    pub embed_tokens: AnyEmbedding,
    pub layers: Vec<DecoderLayer>,
    pub norm: RmsNorm,
}

/// A mask that may not be needed.
pub open spec fn optional_mask(needed: bool, mask: Tn) -> Result<Option<Term>, Exception> {
    if needed {
        match mask {
            Ok(m) => Ok(Some(m)),
            Err(e) => Err(e),
        }
    } else {
        Ok(None)
    }
}

/// The masks of `t` queries behind `offset` positions: one query sees everything, and needs a
/// mask in windowed layers only once the positions fill the window.
pub open spec fn step_masks(t: i32, offset: i32, window: i32) -> Result<Masks, Exception> {
    match (
        optional_mask(t > 1, causal_mask(t, offset, None)),
        optional_mask(t > 1 || offset >= window, causal_mask(t, offset, Some(window))),
    ) {
        (Ok(full), Ok(near)) => Ok(Masks { full, window: near }),
        (Err(e), _) => Err(e),
        (Ok(_), Err(e)) => Err(e),
    }
}

fn build_step_masks(t: i32, offset: i32, window: i32) -> (r: Result<
    (Option<Array>, Option<Array>),
    Exception,
>)
    ensures
        step_masks(t, offset, window) == match r {
            Ok((f, w)) => Ok::<Masks, Exception>(
                Masks {
                    full: crate::array::opt_term(f),
                    window: crate::array::opt_term(w),
                },
            ),
            Err(e) => Err(e),
        },
{
    let full = if t > 1 {
        Some(create_causal_mask(t, Some(offset), None)?)
    } else {
        None
    };
    let near = if t > 1 || offset >= window {
        Some(create_causal_mask(t, Some(offset), Some(window))?)
    } else {
        None
    };
    Ok((full, near))
}

impl GptOssModel {
    /// Whether these are the fresh layers of a model.
    pub open spec fn is_fresh(&self, args: &ModelArgs) -> bool {
        &&& self.num_hidden_layers == args.num_hidden_layers
        &&& self.sliding_window == args.sliding_window
        &&& strings(self.layer_types@) == strings(args.layer_types@)
        &&& packed_table_built(Ok(self.embed_tokens@), args.vocab_size, args.hidden_size)
        &&& self.layers@.len() == layer_count(args.num_hidden_layers)
        &&& forall|i: int|
            0 <= i < self.layers@.len() ==> (#[trigger] self.layers@[i]).is_fresh(args, i)
        &&& self.norm.is_fresh(args.hidden_size, Scalar::Lit(args.rms_norm_eps))
    }

    /// Whether the layers cannot be built.
    pub open spec fn cannot_build(args: &ModelArgs, e: Exception) -> bool {
        ||| packed_table_built(Err(e), args.vocab_size, args.hidden_size)
        ||| args.num_hidden_layers > 0 && DecoderLayer::cannot_build(args, e)
        ||| RmsNorm::cannot_build(args.hidden_size, e)
    }

    /// The hidden states behind all layers, and the caches. All caches hold the same number of
    /// positions, so that of the first counts for all masks; a given mask plays no part. Every
    /// layer that is run needs a type.
    pub open spec fn run<C: FreshCache>(
        &self,
        ids: Term,
        slots: Seq<Option<C::State>>,
    ) -> (Tn, Seq<Option<C::State>>) {
        match t_embed(self.embed_tokens@, ids) {
            Err(e) => (Err(e), slots),
            Ok(h) => {
                let filled = model_slots::<C>(slots, self.layers@.len());
                if h.shape.len() < 2 || self.layer_types@.len() < paired(
                    self.layers@.len(),
                    filled.len(),
                ) {
                    (Err(Exception::Operands), filled)
                } else {
                    match step_masks(h.shape[1], first_offset::<C>(filled), self.sliding_window) {
                        Err(e) => (Err(e), filled),
                        Ok(masks) => {
                            let (x, after) = run_layers::<DecoderLayer, C>(
                                self.layers@,
                                h,
                                masks,
                                filled,
                                None,
                                paired(self.layers@.len(), filled.len()),
                            );
                            (self.norm.apply(x), after)
                        },
                    }
                }
            },
        }
    }

    /// Fresh layers.
    pub fn new(args: &ModelArgs) -> (r: Result<GptOssModel, Exception>)
        requires
            layers_ready(args),
        ensures
            match r {
                Ok(m) => m.is_fresh(args),
                Err(e) => GptOssModel::cannot_build(args, e),
            },
    {
        let embed_tokens = quantized_embedding(args.vocab_size, args.hidden_size)?;
        let mut layers: Vec<DecoderLayer> = Vec::new();
        let mut i: i32 = 0;
        while i < args.num_hidden_layers
            invariant
                0 <= i,
                i <= args.num_hidden_layers || i == 0,
                layers_ready(args),
                layers@.len() == i,
                forall|j: int| 0 <= j < i ==> (#[trigger] layers@[j]).is_fresh(args, j),
            decreases args.num_hidden_layers - i,
        {
            layers.push(DecoderLayer::new(args, i as usize)?);
            i += 1;
        }
        let norm = RmsNorm::new(args.hidden_size, Scalar::Lit(args.rms_norm_eps))?;
        Ok(
            GptOssModel {
                num_hidden_layers: args.num_hidden_layers,
                sliding_window: args.sliding_window,
                layer_types: copy_texts(&args.layer_types),
                embed_tokens,
                layers,
                norm,
            },
        )
    }

    /// Runs token ids through all layers.
    pub fn forward<C: FreshCache>(&self, input: ModelInput<'_, C>) -> (r: Result<Array, Exception>)
        ensures
            (tn(r), slot_states((*final(input.cache))@)) == self.run::<C>(
                input.inputs@,
                slot_states(old(input.cache)@),
            ),
    {
        let ModelInput { inputs, mask: _, cache, pad_offsets: _ } = input;
        let h = self.embed_tokens.forward(inputs)?;
        fill_caches(cache, self.layers.len());
        proof {
            assert(slot_states(cache@).len() == cache@.len());
        }
        let pairs: usize = if self.layers.len() < cache.len() {
            self.layers.len()
        } else {
            cache.len()
        };
        if h.ndim() < 2 || self.layer_types.len() < pairs {
            return Err(Exception::Operands);
        }
        let (full, near) = build_step_masks(
            h.shape()[1],
            held_positions(cache),
            self.sliding_window,
        )?;
        let full = match &full {
            Some(m) => Some(m),
            None => None,
        };
        let near = match &near {
            Some(m) => Some(m),
            None => None,
        };
        let x = forward_layers(&self.layers, h, full, near, cache, None)?;
        self.norm.forward(&x)
    }
}

impl Parameters for GptOssModel {
    type Frame = (
        i32,
        i32,
        Vec<String>,
        LeafFrame,
        <Vec<DecoderLayer> as Parameters>::Frame,
        <RmsNorm as Parameters>::Frame,
    );

    open spec fn frame(&self) -> Self::Frame {
        (
            self.num_hidden_layers,
            self.sliding_window,
            self.layer_types,
            self.embed_tokens.frame(),
            self.layers.frame(),
            self.norm.frame(),
        )
    }

    open spec fn param(&self, key: Seq<char>) -> Option<Term> {
        if begins(key, "embed_tokens."@) {
            self.embed_tokens.param(key.skip("embed_tokens."@.len() as int))
        } else if begins(key, "layers."@) {
            self.layers.param(key.skip("layers."@.len() as int))
        } else if begins(key, "norm."@) {
            self.norm.param(key.skip("norm."@.len() as int))
        } else {
            None
        }
    }

    fn has_param(&self, key: &str) -> bool {
        match strip_prefix(key, "embed_tokens.") {
            Some(rest) => {
                return self.embed_tokens.has_param(rest);
            },
            None => {},
        }
        match strip_prefix(key, "layers.") {
            Some(rest) => {
                return self.layers.has_param(rest);
            },
            None => {},
        }
        match strip_prefix(key, "norm.") {
            Some(rest) => {
                return self.norm.has_param(rest);
            },
            None => {},
        }
        false
    }

    fn set_param(&mut self, key: &str, value: Array) -> bool {
        let ghost before = *self;
        match strip_prefix(key, "embed_tokens.") {
            Some(rest) => {
                let ghost v = value@;
                let done = self.embed_tokens.set_param(rest, value);
                proof {
                    lemma_part(
                        before.embed_tokens,
                        self.embed_tokens,
                        key@,
                        "embed_tokens."@,
                        v,
                        done,
                    );
                }
                return done;
            },
            None => {},
        }
        match strip_prefix(key, "layers.") {
            Some(rest) => {
                let ghost v = value@;
                let done = self.layers.set_param(rest, value);
                proof {
                    lemma_part(before.layers, self.layers, key@, "layers."@, v, done);
                }
                return done;
            },
            None => {},
        }
        match strip_prefix(key, "norm.") {
            Some(rest) => {
                let ghost v = value@;
                let done = self.norm.set_param(rest, value);
                proof {
                    lemma_part(before.norm, self.norm, key@, "norm."@, v, done);
                }
                return done;
            },
            None => {},
        }
        false
    }
}

/// A language model.
pub struct Model {
    pub args: ModelArgs,
    pub model: GptOssModel,
    pub lm_head: Option<AnyLinear>,
}

/// Whether this is the outcome of building the head of a fresh model.
pub open spec fn head_built(r: Result<LinearTerm, Exception>, args: &ModelArgs) -> bool {
    packed_built(r, args.hidden_size, args.vocab_size, false, AFFINE_GROUP_SIZE, AFFINE_BITS)
}

impl Model {
    /// Whether this is a fresh model.
    pub open spec fn is_fresh(&self) -> bool {
        &&& self.model.is_fresh(&self.args)
        &&& self.lm_head is None == self.args.tie_word_embeddings
        &&& self.lm_head matches Some(l) ==> head_built(Ok(l@), &self.args)
    }

    /// Whether a model cannot be built.
    pub open spec fn cannot_build(args: &ModelArgs, e: Exception) -> bool {
        ||| GptOssModel::cannot_build(args, e)
        ||| !args.tie_word_embeddings && head_built(Err(e), args)
    }

    /// A fresh model, packed leaf by leaf.
    pub fn new(args: ModelArgs) -> (r: Result<Model, Exception>)
        requires
            layers_ready(&args),
        ensures
            match r {
                Ok(m) => m.args == args && m.is_fresh(),
                Err(e) => Model::cannot_build(&args, e),
            },
    {
        let model = GptOssModel::new(&args)?;
        let lm_head = if args.tie_word_embeddings {
            None
        } else {
            Some(
                quantized_linear(
                    args.hidden_size,
                    args.vocab_size,
                    false,
                    AFFINE_GROUP_SIZE,
                    AFFINE_BITS,
                )?,
            )
        };
        Ok(Model { args, model, lm_head })
    }

    /// The name of the model family.
    pub fn model_type(&self) -> (r: &str)
        ensures
            r@ == self.args.model_type@,
    {
        self.args.model_type.as_str()
    }

    /// The logits of token ids, and the caches.
    pub open spec fn logits<C: FreshCache>(&self, ids: Term, slots: Seq<Option<C::State>>) -> (
        Tn,
        Seq<Option<C::State>>,
    ) {
        let (h, after) = self.model.run::<C>(ids, slots);
        (logits_of(self.lm_head, self.model.embed_tokens, h), after)
    }
}

impl<C: FreshCache> LanguageModel<C> for Model {
    open spec fn run(
        &self,
        ids: Term,
        mask: Option<Term>,
        slots: Seq<Option<C::State>>,
        pads: Option<Term>,
    ) -> (Tn, Seq<Option<C::State>>) {
        self.logits::<C>(ids, slots)
    }

    fn forward(&self, input: ModelInput<'_, C>) -> Result<Array, Exception> {
        let out = self.model.forward(input)?;
        to_logits(&self.lm_head, &self.model.embed_tokens, &out)
    }
}

impl Parameters for Model {
    type Frame = (ModelArgs, <GptOssModel as Parameters>::Frame, Option<LeafFrame>);

    open spec fn frame(&self) -> Self::Frame {
        (self.args, self.model.frame(), self.lm_head.frame())
    }

    open spec fn param(&self, key: Seq<char>) -> Option<Term> {
        if begins(key, "model."@) {
            self.model.param(key.skip("model."@.len() as int))
        } else if begins(key, "lm_head."@) {
            self.lm_head.param(key.skip("lm_head."@.len() as int))
        } else {
            None
        }
    }

    fn has_param(&self, key: &str) -> bool {
        match strip_prefix(key, "model.") {
            Some(rest) => {
                return self.model.has_param(rest);
            },
            None => {},
        }
        match strip_prefix(key, "lm_head.") {
            Some(rest) => {
                return self.lm_head.has_param(rest);
            },
            None => {},
        }
        false
    }

    fn set_param(&mut self, key: &str, value: Array) -> bool {
        let ghost before = *self;
        match strip_prefix(key, "model.") {
            Some(rest) => {
                let ghost v = value@;
                let done = self.model.set_param(rest, value);
                proof {
                    lemma_part(before.model, self.model, key@, "model."@, v, done);
                }
                return done;
            },
            None => {},
        }
        match strip_prefix(key, "lm_head.") {
            Some(rest) => {
                let ghost v = value@;
                let done = self.lm_head.set_param(rest, value);
                proof {
                    lemma_part(before.lm_head, self.lm_head, key@, "lm_head."@, v, done);
                }
                return done;
            },
            None => {},
        }
        false
    }
}

/// Builds the model of a configuration and puts the files of a checkpoint into it, counting for
/// each file the arrays that found a place. Leaves are packed when they are built.
pub fn load_gpt_oss_model(args: ModelArgs, files: &Vec<Vec<(String, Array)>>) -> (r: Result<
    (Model, Vec<usize>),
    Exception,
>)
    requires
        layers_ready(&args),
    ensures
        match r {
            Ok((m, counts)) => exists|f: Model|
                f.args == args && #[trigger] f.is_fresh() && loaded_from(
                    Remap::InnerWeightAndBias,
                    f,
                    file_entries(files@),
                    m,
                    counts@,
                ),
            Err(e) => Model::cannot_build(&args, e),
        },
{
    let mut model = Model::new(args)?;
    let ghost fresh = model;
    let counts = load_files(&mut model, files, Remap::InnerWeightAndBias);
    proof {
        assert(fresh.is_fresh());
    }
    Ok((model, counts))
}


/// How far the reading of a prompt has come: the next position to read, the caches, and the logits
/// of the last chunk once it was read, or why it was not.
pub struct Reading<S> {
    pub start: int,
    pub slots: Seq<Option<S>>,
    pub out: Option<Tn>,
}

/// The reading of one more chunk.
pub open spec fn chunk_read<C: FreshCache>(
    model: &Model,
    ids: Term,
    chunk: i32,
    p: Reading<C::State>,
) -> Reading<C::State> {
    let t = ids.shape[1];
    let end = chunk_end(p.start, chunk, t);
    match t_slice(Ok(ids), 1, p.start as i32, end as i32) {
        Err(e) => Reading { start: p.start, slots: p.slots, out: Some(Err(e)) },
        Ok(piece) => {
            let (l, slots) = model.logits::<C>(piece, p.slots);
            if l is Err || end == t {
                Reading { start: p.start, slots, out: Some(l) }
            } else {
                Reading { start: end, slots, out: None }
            }
        },
    }
}

/// The reading of a prompt after at most `k` chunks.
pub open spec fn chunks_read<C: FreshCache>(
    model: &Model,
    ids: Term,
    slots: Seq<Option<C::State>>,
    chunk: i32,
    k: nat,
) -> Reading<C::State>
    decreases k,
{
    if k == 0 {
        Reading { start: 0, slots, out: None }
    } else {
        let p = chunks_read::<C>(model, ids, slots, chunk, (k - 1) as nat);
        if p.out is Some {
            p
        } else {
            chunk_read::<C>(model, ids, chunk, p)
        }
    }
}

/// Reading that has ended does not go on.
pub proof fn lemma_chunks_end<C: FreshCache>(
    model: &Model,
    ids: Term,
    slots: Seq<Option<C::State>>,
    chunk: i32,
    k: nat,
    n: nat,
)
    requires
        k <= n,
        chunks_read::<C>(model, ids, slots, chunk, k).out is Some,
    ensures
        chunks_read::<C>(model, ids, slots, chunk, n) == chunks_read::<C>(
            model,
            ids,
            slots,
            chunk,
            k,
        ),
    decreases n,
{
    if k < n {
        lemma_chunks_end::<C>(model, ids, slots, chunk, k, (n - 1) as nat);
    }
}

/// The logits of the last chunk of a prompt, and the caches.
pub open spec fn prompt_read<C: FreshCache>(
    model: &Model,
    ids: Term,
    slots: Seq<Option<C::State>>,
    chunk: i32,
) -> (Tn, Seq<Option<C::State>>) {
    if readable(ids) {
        let p = chunks_read::<C>(model, ids, slots, chunk, (ids.shape[1] + 1) as nat);
        (p.out->Some_0, p.slots)
    } else {
        (Err(Exception::Operands), slots)
    }
}

/// One step of generation: the next token, and the caches. The prompt is read in chunks.
pub open spec fn generated<C: FreshCache>(
    model: &Model,
    state: StateTerm,
    slots: Seq<Option<C::State>>,
    chunk: i32,
    opts: SamplerOpts,
    history: Seq<u32>,
    draw: u64,
) -> (Tn, Seq<Option<C::State>>) {
    let (logits, after) = match state {
        StateTerm::Prefill(p) => prompt_read::<C>(model, p, slots, chunk),
        StateTerm::Decode(_) => match next_ids(state) {
            Ok(ids) => model.logits::<C>(ids, slots),
            Err(e) => (Err(e), slots),
        },
    };
    (
        sampled(t_select(logits, 1, -1i32), opts, recent_tokens(opts, history), draw),
        after,
    )
}

/// A step of a generator that has read `read` tokens of its prompt: nothing where it reads a chunk
/// that is not the last, and otherwise the next token; the caches; and how many tokens of the
/// prompt it has read then.
pub open spec fn advanced<C: FreshCache>(
    model: &Model,
    state: StateTerm,
    slots: Seq<Option<C::State>>,
    chunk: i32,
    read: int,
    opts: SamplerOpts,
    history: Seq<u32>,
    draw: u64,
) -> (Option<Tn>, Seq<Option<C::State>>, int) {
    let recent = recent_tokens(opts, history);
    match state {
        StateTerm::Prefill(ids) => if readable(ids) && (read == 0 || 0 < read < ids.shape[1]) {
            let p = chunk_read::<C>(
                model,
                ids,
                chunk,
                Reading { start: read, slots, out: None },
            );
            match p.out {
                None => (None, p.slots, p.start),
                Some(l) => (Some(sampled(t_select(l, 1, -1i32), opts, recent, draw)), p.slots, 0),
            }
        } else {
            (Some(Err(Exception::Operands)), slots, 0)
        },
        StateTerm::Decode(_) => {
            let (y, after) = generated::<C>(model, state, slots, chunk, opts, history, draw);
            (Some(y), after, 0)
        },
    }
}

/// A step of a generator.
pub enum Advance {
    /// A chunk of the prompt was read.
    Reading,
    /// The next token.
    Token(Array),
}

/// The value of a step that may have failed.
pub open spec fn advance_outcome(r: Result<Advance, Exception>) -> Option<Tn> {
    match r {
        Ok(Advance::Reading) => None,
        Ok(Advance::Token(y)) => Some(Ok(y@)),
        Err(e) => Some(Err(e)),
    }
}

/// A generator that reads its prompt in chunks.
pub struct Generate<'a, C> {
    pub model: &'a Model,
    pub cache: &'a mut Vec<Option<C>>,
    pub sampler: SamplerOpts,
    pub history: Vec<u32>,
    pub state: GenerateState<'a>,
    /// The number of prompt tokens read at once.
    pub chunk: i32,
    /// The number of prompt tokens that [`Generate::advance`] has read.
    pub read: i32,
    /// The number of the next draw.
    pub draws: u64,
}

impl<'a, C: FreshCache> Generate<'a, C> {
    /// A generator that reads a prompt (`[B, L]`) and samples by temperature alone.
    pub fn new(
        model: &'a Model,
        cache: &'a mut Vec<Option<C>>,
        temp: Float,
        prompt_token: &'a Array,
    ) -> (r: Generate<'a, C>)
        ensures
            r.model == model,
            *r.cache == *old(cache),
            *final(r.cache) == *final(cache),
            r.sampler == (SamplerOpts { temp, top_p: one(), top_k: 0, repeat_penalty: one() }),
            r.history@ == Seq::<u32>::empty(),
            r.state@ == StateTerm::Prefill(prompt_token@),
            r.chunk == chunk_of(None),
            r.read == 0,
            r.draws == 0,
    {
        Generate {
            model,
            cache,
            sampler: SamplerOpts::with_temp(temp),
            history: Vec::new(),
            state: GenerateState::Prefill { prompt_token },
            chunk: prefill_chunk_size(None),
            read: 0,
            draws: 0,
        }
    }

    /// Sets the filters and the penalty; the temperature stays.
    pub fn set_sampler(&mut self, top_p: Float, top_k: i32, repeat_penalty: Float)
        ensures
            final(self).sampler == (SamplerOpts {
                temp: old(self).sampler.temp,
                top_p,
                top_k,
                repeat_penalty,
            }),
            final(self).model == old(self).model,
            final(self).cache == old(self).cache,
            final(self).history == old(self).history,
            final(self).state == old(self).state,
            final(self).chunk == old(self).chunk,
            final(self).read == old(self).read,
            final(self).draws == old(self).draws,
    {
        self.sampler.top_p = top_p;
        self.sampler.top_k = top_k;
        self.sampler.repeat_penalty = repeat_penalty;
    }

    /// Sets the number of prompt tokens read at once.
    pub fn set_prefill_chunk(&mut self, setting: Option<&str>)
        ensures
            final(self).chunk == chunk_of(
                match setting {
                    Some(s) => Some(s@),
                    None => None,
                },
            ),
            final(self).model == old(self).model,
            final(self).cache == old(self).cache,
            final(self).sampler == old(self).sampler,
            final(self).history == old(self).history,
            final(self).state == old(self).state,
            final(self).read == old(self).read,
            final(self).draws == old(self).draws,
    {
        self.chunk = prefill_chunk_size(setting);
    }

    /// Sets the number of the next draw.
    pub fn set_draws(&mut self, first: u64)
        ensures
            final(self).draws == first,
            final(self).model == old(self).model,
            final(self).cache == old(self).cache,
            final(self).sampler == old(self).sampler,
            final(self).history == old(self).history,
            final(self).state == old(self).state,
            final(self).chunk == old(self).chunk,
            final(self).read == old(self).read,
    {
        self.draws = first;
    }

    /// Goes one step: reads a chunk of the prompt or builds a token. Between two steps the caller
    /// can compute the caches, so that no graph spans the whole prompt.
    pub fn advance(&mut self) -> (r: Result<Advance, Exception>)
        requires
            old(self).chunk > 0,
        ensures
            ({
                let (y, slots, read) = advanced::<C>(
                    old(self).model,
                    old(self).state@,
                    slot_states(old(self).cache@),
                    old(self).chunk,
                    old(self).read as int,
                    old(self).sampler,
                    old(self).history@,
                    old(self).draws,
                );
                &&& advance_outcome(r) == y
                &&& slot_states(final(self).cache@) == slots
                &&& final(self).read == read
                &&& final(self).state@ == match y {
                    Some(Ok(t)) => StateTerm::Decode(t),
                    _ => old(self).state@,
                }
                &&& final(self).draws == match y {
                    Some(Ok(_)) => following(old(self).draws),
                    _ => old(self).draws,
                }
            }),
            final(self).model == old(self).model,
            final(self).sampler == old(self).sampler,
            final(self).history == old(self).history,
            final(self).chunk == old(self).chunk,
            *final(final(self).cache) == *final(old(self).cache),
    {
        let start: i32 = self.read;
        self.read = 0;
        let (ids, is_prefill) = match &self.state {
            GenerateState::Prefill { prompt_token } => (prompt_token.share(), true),
            GenerateState::Decode { y } => match y.expand_dims(1) {
                Ok(i) => (i, false),
                Err(e) => {
                    return Err(e);
                },
            },
        };
        let logits = if is_prefill {
            if ids.ndim() < 2 || ids.shape()[1] < 0 || ids.shape()[1] == 0x7fff_ffff {
                return Err(Exception::Operands);
            }
            let t: i32 = ids.shape()[1];
            if start != 0 && (start < 0 || start >= t) {
                return Err(Exception::Operands);
            }
            let end: i32 = if self.chunk < t - start {
                start + self.chunk
            } else {
                t
            };
            proof {
                assert(end == chunk_end(start as int, self.chunk, t));
            }
            let piece = ids.slice(1, start, end)?;
            let l = self.model.forward(
                ModelInput { inputs: &piece, mask: None, cache: self.cache, pad_offsets: None },
            )?;
            if end != t {
                self.read = end;
                return Ok(Advance::Reading);
            }
            l
        } else {
            self.model.forward(
                ModelInput { inputs: &ids, mask: None, cache: self.cache, pad_offsets: None },
            )?
        };
        let last = logits.select(1, -1)?;
        let y = sample_after(&last, &self.sampler, &self.history, self.draws)?;
        self.state = GenerateState::Decode { y: y.share() };
        self.draws = next_draw(self.draws);
        Ok(Advance::Token(y))
    }

    /// Builds the next token, with the whole prompt read where it was not. A failure leaves the
    /// generator where it stands.
    pub fn next(&mut self) -> (r: Option<Result<Array, Exception>>)
        requires
            old(self).chunk > 0,
            old(self).read == 0,
        ensures
            ({
                let (y, slots) = generated::<C>(
                    old(self).model,
                    old(self).state@,
                    slot_states(old(self).cache@),
                    old(self).chunk,
                    old(self).sampler,
                    old(self).history@,
                    old(self).draws,
                );
                &&& token_outcome(r) == Some(y)
                &&& slot_states(final(self).cache@) == slots
                &&& final(self).state@ == match y {
                    Ok(t) => StateTerm::Decode(t),
                    Err(_) => old(self).state@,
                }
                &&& final(self).draws == match y {
                    Ok(_) => following(old(self).draws),
                    Err(_) => old(self).draws,
                }
            }),
            final(self).model == old(self).model,
            final(self).sampler == old(self).sampler,
            final(self).history == old(self).history,
            final(self).chunk == old(self).chunk,
            final(self).read == 0,
            *final(final(self).cache) == *final(old(self).cache),
    {
        let ghost state = self.state@;
        let ghost first = slot_states(self.cache@);
        let ghost ids = state->Prefill_0;
        let ghost mut k: nat = 0;
        loop
            invariant
                self.chunk > 0,
                state == old(self).state@,
                first == slot_states(old(self).cache@),
                ids == state->Prefill_0,
                self.state@ == state,
                self.model == old(self).model,
                self.sampler == old(self).sampler,
                self.history == old(self).history,
                self.chunk == old(self).chunk,
                self.draws == old(self).draws,
                *final(self.cache) == *final(old(self).cache),
                k == 0 ==> self.read == 0 && slot_states(self.cache@) == first,
                k > 0 ==> state is Prefill && readable(ids) && 0 < self.read < ids.shape[1],
                k <= self.read,
                k > 0 ==> chunks_read::<C>(self.model, ids, first, self.chunk, k) == (Reading::<
                    C::State,
                > { start: self.read as int, slots: slot_states(self.cache@), out: None }),
            decreases
                    (if state is Prefill && readable(ids) {
                        ids.shape[1] - self.read
                    } else {
                        0
                    }),
        {
            proof {
                if state is Prefill && readable(ids) {
                    let p = chunks_read::<C>(self.model, ids, first, self.chunk, k);
                    let next = chunks_read::<C>(self.model, ids, first, self.chunk, k + 1);
                    assert(next == chunk_read::<C>(self.model, ids, self.chunk, p));
                    if next.out is Some {
                        lemma_chunks_end::<C>(
                            self.model,
                            ids,
                            first,
                            self.chunk,
                            k + 1,
                            (ids.shape[1] + 1) as nat,
                        );
                    }
                }
            }
            match self.advance() {
                Ok(Advance::Token(y)) => {
                    return Some(Ok(y));
                },
                Ok(Advance::Reading) => {},
                Err(e) => {
                    return Some(Err(e));
                },
            }
            proof {
                k = k + 1;
            }
        }
    }

    /// Hands back the token that the last step drew. It is remembered where the sampler penalizes
    /// repetition.
    pub fn record(&mut self, token: u32)
        ensures
            final(self).history@ == (if old(self).sampler.penalizes() {
                old(self).history@.push(token)
            } else {
                old(self).history@
            }),
            final(self).model == old(self).model,
            final(self).cache == old(self).cache,
            final(self).sampler == old(self).sampler,
            final(self).state == old(self).state,
            final(self).chunk == old(self).chunk,
            final(self).read == old(self).read,
            final(self).draws == old(self).draws,
    {
        if self.sampler.keeps_history() {
            self.history.push(token);
        }
    }
}

} // verus!
