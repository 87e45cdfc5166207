//! Gemma 3: layers that see everything alternate with layers that see the latest positions.
//!
//! Normalization weights are stored as their distance from one, embeddings are scaled by the root
//! of the hidden size, queries and keys are normalized head by head, and every layer normalizes
//! before and after both of its parts.

use std::sync::Arc;

use crate::array::{opt_ref_term, tn, Array, Dtype, Kind, Term, Tn};
use crate::cache::{pair_outcome, slot_state, slot_states, FreshCache, KeyValueCache};
use crate::error::Exception;
use crate::fast::array_mask;
use crate::models::decoder::{
    fill_caches, forward_layers, model_slots, paired, run_layers, DecoderLayer as Layer, Masks,
};
use crate::models::generate::LanguageModel;
use crate::models::qwen3::{
    layer_count, logits_of, product_fits, to_logits, QuantizationConfig,
};
use crate::models::qwen3_5::{heads_first, MINUS_HALF_BITS};
use crate::nn::{table_built, linear_built, t_embed, t_linear, AnyEmbedding, AnyLinear, Quantizable};
use crate::ops::create::{arange, t_arange, t_int, t_scalar, t_zeros};
use crate::ops::elementwise::{
    t_add, t_cast, t_ge, t_gelu_approximate, t_gt, t_le, t_logical_and, t_multiply, t_rsqrt,
    t_square, t_subtract, t_where, which,
};
use crate::ops::layout::{t_reshape, t_transpose};
use crate::ops::reduce::t_mean;
use crate::params::{lemma_part, LeafFrame, Parameters};
use crate::scalar::{lit, Float, Scalar, NEG_INFINITY_BITS, ONE_BITS, ZERO_BITS};
use crate::text::{begins, same_text, starts_with, strip_prefix};
use crate::utils::attention::{attend, attended, explicit_mask, from_heads, join_heads};
use crate::utils::rope::{initialize_rope, rope_built, RopeVariant, ScalingConfig};
use crate::weights::{entries, load_weights_remapped, loaded_param, match_count, Remap};
use vstd::prelude::*;

pub use crate::models::decoder::{AttentionInput, ModelInput};
pub use crate::models::generate::GenerateState;

verus! {

/// The value of a switch that is on unless it is set otherwise.
pub fn default_true() -> (r: bool)
    ensures
        r,
{
    true
}

/// Keeps the pad offsets of a batch whose rows have different lengths, for the next runs of a
/// model; `None` goes back to one offset for all rows.
pub fn set_batch_pad_offsets(slot: &mut Option<Array>, offsets: Option<Array>)
    ensures
        *final(slot) == offsets,
{
    *slot = offsets;
}

/// The configuration of a model.
pub struct ModelArgs {
    pub model_type: String,
    pub hidden_size: i32,
    pub num_hidden_layers: i32,
    pub intermediate_size: i32,
    pub num_attention_heads: i32,
    pub num_key_value_heads: i32,
    pub head_dim: i32,
    pub rms_norm_eps: Float,
    pub vocab_size: i32,
    pub max_position_embeddings: i32,
    pub rope_theta: Float,
    pub rope_local_base_freq: Float,
    pub sliding_window: i32,
    pub sliding_window_pattern: i32,
    pub query_pre_attn_scalar: Float,
    pub tie_word_embeddings: bool,
    pub quantization: Option<QuantizationConfig>,
}

/// Root-mean-square normalization, times one plus a weight, in single precision.
pub struct GemmaRmsNorm {
    pub eps: Scalar,
    pub weight: Array,
}

impl GemmaRmsNorm {
    /// The normalization of `x`.
    pub open spec fn apply(&self, x: Tn) -> Tn {
        match x {
            Ok(t) => {
                let xf = t_cast(x, Dtype::Float32);
                let variance = t_mean(t_square(xf), -1i32, true);
                let normed = t_multiply(xf, t_rsqrt(t_add(variance, t_scalar(self.eps))));
                t_cast(
                    t_multiply(
                        normed,
                        t_add(
                            t_cast(Ok(self.weight@), Dtype::Float32),
                            t_scalar(lit(ONE_BITS)),
                        ),
                    ),
                    t.dtype,
                )
            },
            Err(e) => Err(e),
        }
    }

    /// Whether this is a fresh normalization of `dims` features.
    pub open spec fn is_fresh(&self, dims: i32, eps: Scalar) -> bool {
        &&& t_zeros(seq![dims], Dtype::Float32) == Ok::<Term, Exception>(self.weight@)
        &&& self.eps == eps
    }

    /// A normalization of `dims` features with unit factor.
    pub fn new(dims: i32, eps: Scalar) -> (r: GemmaRmsNorm)
        requires
            dims >= 0,
        ensures
            r.is_fresh(dims, eps),
    {
        let shape: Vec<i32> = vec![dims];
        proof {
            assert(shape@ =~= seq![dims]);
        }
        GemmaRmsNorm { eps, weight: Array::nullary(Kind::Zeros, shape, Dtype::Float32) }
    }

    /// Normalizes the last axis.
    pub fn forward(&self, x: &Array) -> (r: Result<Array, Exception>)
        ensures
            tn(r) == self.apply(Ok(x@)),
    {
        let xf = x.as_dtype(Dtype::Float32)?;
        let variance = xf.square()?.mean_axis(-1, true)?;
        let root = variance.add(&Array::from_scalar(self.eps.copy()))?.rsqrt()?;
        let normed = xf.multiply(&root)?;
        let factor = self.weight.as_dtype(Dtype::Float32)?;
        let factor = factor.add(&Array::from_scalar(Scalar::lit(ONE_BITS)))?;
        normed.multiply(&factor)?.as_dtype(x.dtype())
    }
}

impl Parameters for GemmaRmsNorm {
    type Frame = Scalar;

    open spec fn frame(&self) -> Scalar {
        self.eps
    }

    open spec fn param(&self, key: Seq<char>) -> Option<Term> {
        if key == "weight"@ {
            Some(self.weight@)
        } else {
            None
        }
    }

    fn has_param(&self, key: &str) -> bool {
        if same_text(key, "weight") {
            return true;
        }
        false
    }

    fn set_param(&mut self, key: &str, value: Array) -> bool {
        let ghost before = *self;
        if same_text(key, "weight") {
            self.weight = value;
            return true;
        }
        false
    }
}

/// Attention with queries and keys normalized head by head.
pub struct Attention {
    pub n_heads: i32,
    pub n_kv_heads: i32,
    pub head_dim: i32,
    pub scale: Scalar,
    pub q_proj: AnyLinear,
    pub k_proj: AnyLinear,
    pub v_proj: AnyLinear,
    pub o_proj: AnyLinear,
    pub q_norm: GemmaRmsNorm,
    pub k_norm: GemmaRmsNorm,
    pub rope: RopeVariant,
}

/// The scale of the scores: `query_pre_attn_scalar ^ -0.5`.
pub open spec fn score_scale(args: &ModelArgs) -> Scalar {
    Scalar::Power(
        Arc::new(Scalar::Lit(args.query_pre_attn_scalar)),
        Arc::new(lit(MINUS_HALF_BITS)),
    )
}

/// Whether the layers of a model can be laid out.
pub open spec fn layers_ready(args: &ModelArgs) -> bool {
    &&& product_fits(args.num_attention_heads, args.head_dim)
    &&& product_fits(args.num_key_value_heads, args.head_dim)
    &&& args.head_dim >= 0
    &&& args.hidden_size >= 0
    &&& args.sliding_window_pattern != 0
}

impl Attention {
    /// Whether this is the attention of a fresh layer.
    pub open spec fn is_fresh(&self, args: &ModelArgs, theta: Float) -> bool {
        let d = args.hidden_size;
        let q = (args.num_attention_heads * args.head_dim) as i32;
        let kv = (args.num_key_value_heads * args.head_dim) as i32;
        let eps = Scalar::Lit(args.rms_norm_eps);
        &&& self.n_heads == args.num_attention_heads
        &&& self.n_kv_heads == args.num_key_value_heads
        &&& self.head_dim == args.head_dim
        &&& self.scale == score_scale(args)
        &&& linear_built(Ok(self.q_proj@), d, q, false)
        &&& linear_built(Ok(self.k_proj@), d, kv, false)
        &&& linear_built(Ok(self.v_proj@), d, kv, false)
        &&& linear_built(Ok(self.o_proj@), q, d, false)
        &&& self.q_norm.is_fresh(args.head_dim, eps)
        &&& self.k_norm.is_fresh(args.head_dim, eps)
        &&& rope_built(
            Ok(self.rope),
            args.head_dim,
            Scalar::Lit(theta),
            false,
            None,
        )
    }

    /// Whether the attention of a layer cannot be built.
    pub open spec fn cannot_build(args: &ModelArgs, e: Exception) -> bool {
        let d = args.hidden_size;
        let q = (args.num_attention_heads * args.head_dim) as i32;
        let kv = (args.num_key_value_heads * args.head_dim) as i32;
        ||| linear_built(Err(e), d, q, false)
        ||| linear_built(Err(e), d, kv, false)
        ||| linear_built(Err(e), q, d, false)
    }

    /// Fresh attention whose positions turn by the base `theta`.
    pub fn new(args: &ModelArgs, theta: Float) -> (r: Result<Attention, Exception>)
        requires
            layers_ready(args),
        ensures
            match r {
                Ok(a) => a.is_fresh(args, theta),
                Err(e) => Attention::cannot_build(args, e),
            },
    {
        let d: i32 = args.hidden_size;
        let nh: i32 = args.num_attention_heads;
        let nkv: i32 = args.num_key_value_heads;
        let hd: i32 = args.head_dim;
        let q_proj = AnyLinear::linear(d, nh * hd, false)?;
        let k_proj = AnyLinear::linear(d, nkv * hd, false)?;
        let v_proj = AnyLinear::linear(d, nkv * hd, false)?;
        let o_proj = AnyLinear::linear(nh * hd, d, false)?;
        let eps = Scalar::Lit(args.rms_norm_eps);
        let q_norm = GemmaRmsNorm::new(hd, eps.copy());
        let k_norm = GemmaRmsNorm::new(hd, eps);
        let none: Option<ScalingConfig> = None;
        proof {
            reveal_strlit("default");
            reveal_strlit("yarn");
            reveal_strlit("longrope");
            assert("default"@.len() == 7);
            assert("yarn"@.len() == 4);
            assert("longrope"@.len() == 8);
        }
        let rope = initialize_rope(
            hd,
            Scalar::Lit(theta),
            false,
            &none,
            args.max_position_embeddings,
        )?;
        let scale = Scalar::Power(
            Arc::new(Scalar::Lit(args.query_pre_attn_scalar)),
            Arc::new(Scalar::lit(MINUS_HALF_BITS)),
        );
        Ok(
            Attention {
                n_heads: nh,
                n_kv_heads: nkv,
                head_dim: hd,
                scale,
                q_proj,
                k_proj,
                v_proj,
                o_proj,
                q_norm,
                k_norm,
                rope,
            },
        )
    }

    /// A projection split into `n` heads.
    pub open spec fn headed(&self, l: AnyLinear, x: Term, n: i32) -> Tn {
        t_reshape(t_linear(l@, Ok(x)), seq![x.shape[0], x.shape[1], n, self.head_dim])
    }

    /// The queries of every head.
    pub open spec fn queries(&self, x: Term) -> Tn {
        t_transpose(self.q_norm.apply(self.headed(self.q_proj, x, self.n_heads)), heads_first())
    }

    /// The keys of every head.
    pub open spec fn keys(&self, x: Term) -> Tn {
        t_transpose(
            self.k_norm.apply(self.headed(self.k_proj, x, self.n_kv_heads)),
            heads_first(),
        )
    }

    /// The values of every head.
    pub open spec fn values(&self, x: Term) -> Tn {
        t_transpose(self.headed(self.v_proj, x, self.n_kv_heads), heads_first())
    }

    fn project_heads(&self, l: &AnyLinear, x: &Array, n: i32) -> (r: Result<Array, Exception>)
        requires
            x@.shape.len() >= 2,
        ensures
            tn(r) == self.headed(*l, x@, n),
    {
        let shape: Vec<i32> = vec![x.shape()[0], x.shape()[1], n, self.head_dim];
        proof {
            assert(shape@ =~= seq![x@.shape[0], x@.shape[1], n, self.head_dim]);
        }
        l.forward(x)?.reshape(&shape)
    }
}

/// Puts heads before positions.
fn put_heads_first(x: &Array) -> (r: Result<Array, Exception>)
    ensures
        tn(r) == t_transpose(Ok(x@), heads_first()),
{
    let axes: Vec<i32> = vec![0, 2, 1, 3];
    proof {
        assert(axes@ =~= heads_first());
    }
    x.transpose_axes(axes)
}

impl<C: KeyValueCache> Layer<C> for Attention {
    open spec fn windowed(&self) -> bool {
        false
    }

    fn is_windowed(&self) -> bool {
        false
    }

    open spec fn apply(
        &self,
        x: Term,
        mask: Option<Term>,
        cache: Option<C::State>,
        pads: Option<Term>,
    ) -> (Tn, Option<C::State>) {
        if x.shape.len() < 2 {
            (Err(Exception::Operands), cache)
        } else {
            match (self.queries(x), self.keys(x), self.values(x)) {
                (Ok(q), Ok(k), Ok(v)) => {
                    let (attn, after) = attended::<C>(
                        self.rope,
                        Ok(q),
                        Ok(k),
                        Ok(v),
                        self.scale,
                        array_mask(mask),
                        None,
                        cache,
                        pads,
                    );
                    (t_linear(self.o_proj@, join_heads(attn, x.shape[0], x.shape[1])), after)
                },
                _ => (Err(Exception::Operands), cache),
            }
        }
    }

    fn forward(&self, input: AttentionInput<'_, C>) -> Result<Array, Exception> {
        let AttentionInput { x, mask, cache, pad_offsets } = input;
        if x.ndim() < 2 {
            return Err(Exception::Operands);
        }
        let b: i32 = x.shape()[0];
        let l: i32 = x.shape()[1];
        let queries = self.project_heads(&self.q_proj, x, self.n_heads)?;
        let queries = put_heads_first(&self.q_norm.forward(&queries)?)?;
        let keys = self.project_heads(&self.k_proj, x, self.n_kv_heads)?;
        let keys = put_heads_first(&self.k_norm.forward(&keys)?)?;
        let values = put_heads_first(&self.project_heads(&self.v_proj, x, self.n_kv_heads)?)?;
        let attn = attend(
            &self.rope,
            queries,
            keys,
            values,
            self.scale.copy(),
            explicit_mask(mask),
            None,
            cache,
            pad_offsets,
        )?;
        self.o_proj.forward(&from_heads(&attn, b, l)?)
    }
}

impl Quantizable for Attention {
    open spec fn packs_to(
        self,
        group_size: i32,
        bits: i32,
        out: Result<Attention, Exception>,
    ) -> bool {
        match out {
            Ok(a) => {
                &&& self.q_proj.packs_to(group_size, bits, Ok(a.q_proj))
                &&& self.k_proj.packs_to(group_size, bits, Ok(a.k_proj))
                &&& self.v_proj.packs_to(group_size, bits, Ok(a.v_proj))
                &&& self.o_proj.packs_to(group_size, bits, Ok(a.o_proj))
                &&& a == (Attention {
                    q_proj: a.q_proj,
                    k_proj: a.k_proj,
                    v_proj: a.v_proj,
                    o_proj: a.o_proj,
                    ..self
                })
            },
            Err(e) => {
                ||| self.q_proj.packs_to(group_size, bits, Err(e))
                ||| self.k_proj.packs_to(group_size, bits, Err(e))
                ||| self.v_proj.packs_to(group_size, bits, Err(e))
                ||| self.o_proj.packs_to(group_size, bits, Err(e))
            },
        }
    }

    fn quantize(self, group_size: i32, bits: i32) -> Result<Attention, Exception> {
        let q_proj = self.q_proj.quantize(group_size, bits)?;
        let k_proj = self.k_proj.quantize(group_size, bits)?;
        let v_proj = self.v_proj.quantize(group_size, bits)?;
        let o_proj = self.o_proj.quantize(group_size, bits)?;
        Ok(
            Attention {
                q_proj,
                k_proj,
                v_proj,
                o_proj,
                n_heads: self.n_heads,
                n_kv_heads: self.n_kv_heads,
                head_dim: self.head_dim,
                scale: self.scale,
                q_norm: self.q_norm,
                k_norm: self.k_norm,
                rope: self.rope,
            },
        )
    }
}

impl Parameters for Attention {
    type Frame = (
        i32,
        i32,
        i32,
        Scalar,
        LeafFrame,
        LeafFrame,
        LeafFrame,
        LeafFrame,
        <GemmaRmsNorm as Parameters>::Frame,
        <GemmaRmsNorm as Parameters>::Frame,
        RopeVariant,
    );

    open spec fn frame(&self) -> Self::Frame {
        (
            self.n_heads,
            self.n_kv_heads,
            self.head_dim,
            self.scale,
            self.q_proj.frame(),
            self.k_proj.frame(),
            self.v_proj.frame(),
            self.o_proj.frame(),
            self.q_norm.frame(),
            self.k_norm.frame(),
            self.rope,
        )
    }

    open spec fn param(&self, key: Seq<char>) -> Option<Term> {
        if begins(key, "q_proj."@) {
            self.q_proj.param(key.skip("q_proj."@.len() as int))
        } else if begins(key, "k_proj."@) {
            self.k_proj.param(key.skip("k_proj."@.len() as int))
        } else if begins(key, "v_proj."@) {
            self.v_proj.param(key.skip("v_proj."@.len() as int))
        } else if begins(key, "o_proj."@) {
            self.o_proj.param(key.skip("o_proj."@.len() as int))
        } else if begins(key, "q_norm."@) {
            self.q_norm.param(key.skip("q_norm."@.len() as int))
        } else if begins(key, "k_norm."@) {
            self.k_norm.param(key.skip("k_norm."@.len() as int))
        } else {
            None
        }
    }

    fn has_param(&self, key: &str) -> bool {
        match strip_prefix(key, "q_proj.") {
            Some(rest) => {
                return self.q_proj.has_param(rest);
            },
            None => {},
        }
        match strip_prefix(key, "k_proj.") {
            Some(rest) => {
                return self.k_proj.has_param(rest);
            },
            None => {},
        }
        match strip_prefix(key, "v_proj.") {
            Some(rest) => {
                return self.v_proj.has_param(rest);
            },
            None => {},
        }
        match strip_prefix(key, "o_proj.") {
            Some(rest) => {
                return self.o_proj.has_param(rest);
            },
            None => {},
        }
        match strip_prefix(key, "q_norm.") {
            Some(rest) => {
                return self.q_norm.has_param(rest);
            },
            None => {},
        }
        match strip_prefix(key, "k_norm.") {
            Some(rest) => {
                return self.k_norm.has_param(rest);
            },
            None => {},
        }
        false
    }

    fn set_param(&mut self, key: &str, value: Array) -> bool {
        let ghost before = *self;
        match strip_prefix(key, "q_proj.") {
            Some(rest) => {
                let ghost v = value@;
                let done = self.q_proj.set_param(rest, value);
                proof {
                    lemma_part(before.q_proj, self.q_proj, key@, "q_proj."@, v, done);
                }
                return done;
            },
            None => {},
        }
        match strip_prefix(key, "k_proj.") {
            Some(rest) => {
                let ghost v = value@;
                let done = self.k_proj.set_param(rest, value);
                proof {
                    lemma_part(before.k_proj, self.k_proj, key@, "k_proj."@, v, done);
                }
                return done;
            },
            None => {},
        }
        match strip_prefix(key, "v_proj.") {
            Some(rest) => {
                let ghost v = value@;
                let done = self.v_proj.set_param(rest, value);
                proof {
                    lemma_part(before.v_proj, self.v_proj, key@, "v_proj."@, v, done);
                }
                return done;
            },
            None => {},
        }
        match strip_prefix(key, "o_proj.") {
            Some(rest) => {
                let ghost v = value@;
                let done = self.o_proj.set_param(rest, value);
                proof {
                    lemma_part(before.o_proj, self.o_proj, key@, "o_proj."@, v, done);
                }
                return done;
            },
            None => {},
        }
        match strip_prefix(key, "q_norm.") {
            Some(rest) => {
                let ghost v = value@;
                let done = self.q_norm.set_param(rest, value);
                proof {
                    lemma_part(before.q_norm, self.q_norm, key@, "q_norm."@, v, done);
                }
                return done;
            },
            None => {},
        }
        match strip_prefix(key, "k_norm.") {
            Some(rest) => {
                let ghost v = value@;
                let done = self.k_norm.set_param(rest, value);
                proof {
                    lemma_part(before.k_norm, self.k_norm, key@, "k_norm."@, v, done);
                }
                return done;
            },
            None => {},
        }
        false
    }
}

/// A gated feed-forward layer: `down(gelu(gate(x)) * up(x))`.
pub struct Mlp {
    pub gate_proj: AnyLinear,
    pub up_proj: AnyLinear,
    pub down_proj: AnyLinear,
}

impl Mlp {
    /// The layer applied to `x`.
    pub open spec fn apply(&self, x: Tn) -> Tn {
        t_linear(
            self.down_proj@,
            t_multiply(
                t_gelu_approximate(t_linear(self.gate_proj@, x)),
                t_linear(self.up_proj@, x),
            ),
        )
    }

    /// Whether this is a fresh layer.
    pub open spec fn is_fresh(&self, dim: i32, hidden: i32) -> bool {
        &&& linear_built(Ok(self.gate_proj@), dim, hidden, false)
        &&& linear_built(Ok(self.up_proj@), dim, hidden, false)
        &&& linear_built(Ok(self.down_proj@), hidden, dim, false)
    }

    /// Whether a layer cannot be built.
    pub open spec fn cannot_build(dim: i32, hidden: i32, e: Exception) -> bool {
        ||| linear_built(Err(e), dim, hidden, false)
        ||| linear_built(Err(e), hidden, dim, false)
    }

    /// A fresh layer from `dim` features through `hidden` and back.
    pub fn new(dim: i32, hidden: i32) -> (r: Result<Mlp, Exception>)
        ensures
            match r {
                Ok(m) => m.is_fresh(dim, hidden),
                Err(e) => Mlp::cannot_build(dim, hidden, e),
            },
    {
        let gate_proj = AnyLinear::linear(dim, hidden, false)?;
        let up_proj = AnyLinear::linear(dim, hidden, false)?;
        let down_proj = AnyLinear::linear(hidden, dim, false)?;
        Ok(Mlp { gate_proj, up_proj, down_proj })
    }

    /// Applies the layer.
    pub fn forward(&self, x: &Array) -> (r: Result<Array, Exception>)
        ensures
            tn(r) == self.apply(Ok(x@)),
    {
        let gated = self.gate_proj.forward(x)?.gelu_approximate()?;
        let up = self.up_proj.forward(x)?;
        self.down_proj.forward(&gated.multiply(&up)?)
    }
}

impl Quantizable for Mlp {
    open spec fn packs_to(self, group_size: i32, bits: i32, out: Result<Mlp, Exception>) -> bool {
        match out {
            Ok(a) => {
                &&& self.gate_proj.packs_to(group_size, bits, Ok(a.gate_proj))
                &&& self.up_proj.packs_to(group_size, bits, Ok(a.up_proj))
                &&& self.down_proj.packs_to(group_size, bits, Ok(a.down_proj))
            },
            Err(e) => {
                ||| self.gate_proj.packs_to(group_size, bits, Err(e))
                ||| self.up_proj.packs_to(group_size, bits, Err(e))
                ||| self.down_proj.packs_to(group_size, bits, Err(e))
            },
        }
    }

    fn quantize(self, group_size: i32, bits: i32) -> Result<Mlp, Exception> {
        let gate_proj = self.gate_proj.quantize(group_size, bits)?;
        let up_proj = self.up_proj.quantize(group_size, bits)?;
        let down_proj = self.down_proj.quantize(group_size, bits)?;
        Ok(Mlp { gate_proj, up_proj, down_proj })
    }
}

impl Parameters for Mlp {
    type Frame = (LeafFrame, LeafFrame, LeafFrame);

    open spec fn frame(&self) -> Self::Frame {
        (self.gate_proj.frame(), self.up_proj.frame(), self.down_proj.frame())
    }

    open spec fn param(&self, key: Seq<char>) -> Option<Term> {
        if begins(key, "gate_proj."@) {
            self.gate_proj.param(key.skip("gate_proj."@.len() as int))
        } else if begins(key, "up_proj."@) {
            self.up_proj.param(key.skip("up_proj."@.len() as int))
        } else if begins(key, "down_proj."@) {
            self.down_proj.param(key.skip("down_proj."@.len() as int))
        } else {
            None
        }
    }

    fn has_param(&self, key: &str) -> bool {
        match strip_prefix(key, "gate_proj.") {
            Some(rest) => {
                return self.gate_proj.has_param(rest);
            },
            None => {},
        }
        match strip_prefix(key, "up_proj.") {
            Some(rest) => {
                return self.up_proj.has_param(rest);
            },
            None => {},
        }
        match strip_prefix(key, "down_proj.") {
            Some(rest) => {
                return self.down_proj.has_param(rest);
            },
            None => {},
        }
        false
    }

    fn set_param(&mut self, key: &str, value: Array) -> bool {
        let ghost before = *self;
        match strip_prefix(key, "gate_proj.") {
            Some(rest) => {
                let ghost v = value@;
                let done = self.gate_proj.set_param(rest, value);
                proof {
                    lemma_part(before.gate_proj, self.gate_proj, key@, "gate_proj."@, v, done);
                }
                return done;
            },
            None => {},
        }
        match strip_prefix(key, "up_proj.") {
            Some(rest) => {
                let ghost v = value@;
                let done = self.up_proj.set_param(rest, value);
                proof {
                    lemma_part(before.up_proj, self.up_proj, key@, "up_proj."@, v, done);
                }
                return done;
            },
            None => {},
        }
        match strip_prefix(key, "down_proj.") {
            Some(rest) => {
                let ghost v = value@;
                let done = self.down_proj.set_param(rest, value);
                proof {
                    lemma_part(before.down_proj, self.down_proj, key@, "down_proj."@, v, done);
                }
                return done;
            },
            None => {},
        }
        false
    }
}

/// A layer: attention and feed-forward, normalized before and after.
pub struct DecoderLayer {
    /// Whether the layer sees only the latest positions.
    pub is_local: bool,
    pub self_attn: Attention,
    pub mlp: Mlp,
    pub input_layernorm: GemmaRmsNorm,
    pub post_attention_layernorm: GemmaRmsNorm,
    pub pre_feedforward_layernorm: GemmaRmsNorm,
    pub post_feedforward_layernorm: GemmaRmsNorm,
}

/// Whether layer `i` sees everything: every `pattern`-th does.
pub open spec fn global_layer(i: int, pattern: i32) -> bool {
    (i + 1) % (pattern as int) == 0
}

impl DecoderLayer {
    /// Whether this is a fresh layer `i`.
    pub open spec fn is_fresh(&self, args: &ModelArgs, i: int) -> bool {
        let global = global_layer(i, args.sliding_window_pattern);
        let theta = if global {
            args.rope_theta
        } else {
            args.rope_local_base_freq
        };
        let eps = Scalar::Lit(args.rms_norm_eps);
        &&& self.is_local == !global
        &&& self.self_attn.is_fresh(args, theta)
        &&& self.mlp.is_fresh(args.hidden_size, args.intermediate_size)
        &&& self.input_layernorm.is_fresh(args.hidden_size, eps)
        &&& self.post_attention_layernorm.is_fresh(args.hidden_size, eps)
        &&& self.pre_feedforward_layernorm.is_fresh(args.hidden_size, eps)
        &&& self.post_feedforward_layernorm.is_fresh(args.hidden_size, eps)
    }

    /// Whether a layer cannot be built.
    pub open spec fn cannot_build(args: &ModelArgs, e: Exception) -> bool {
        ||| Attention::cannot_build(args, e)
        ||| Mlp::cannot_build(args.hidden_size, args.intermediate_size, e)
    }

    /// A fresh layer.
    pub fn new(args: &ModelArgs, layer_idx: i32) -> (r: Result<DecoderLayer, Exception>)
        requires
            layers_ready(args),
            0 <= layer_idx < i32::MAX,
        ensures
            match r {
                Ok(l) => l.is_fresh(args, layer_idx as int),
                Err(e) => DecoderLayer::cannot_build(args, e),
            },
    {
        let is_global = (layer_idx + 1) % args.sliding_window_pattern == 0;
        let theta = if is_global {
            args.rope_theta
        } else {
            args.rope_local_base_freq
        };
        let self_attn = Attention::new(args, theta)?;
        let mlp = Mlp::new(args.hidden_size, args.intermediate_size)?;
        let eps = Scalar::Lit(args.rms_norm_eps);
        Ok(
            DecoderLayer {
                is_local: !is_global,
                self_attn,
                mlp,
                input_layernorm: GemmaRmsNorm::new(args.hidden_size, eps.copy()),
                post_attention_layernorm: GemmaRmsNorm::new(args.hidden_size, eps.copy()),
                pre_feedforward_layernorm: GemmaRmsNorm::new(args.hidden_size, eps.copy()),
                post_feedforward_layernorm: GemmaRmsNorm::new(args.hidden_size, eps),
            },
        )
    }
}

impl<C: KeyValueCache> Layer<C> for DecoderLayer {
    open spec fn windowed(&self) -> bool {
        self.is_local
    }

    fn is_windowed(&self) -> bool {
        self.is_local
    }

    open spec fn apply(
        &self,
        x: Term,
        mask: Option<Term>,
        cache: Option<C::State>,
        pads: Option<Term>,
    ) -> (Tn, Option<C::State>) {
        match self.input_layernorm.apply(Ok(x)) {
            Ok(n) => {
                let (attn, after) = <Attention as Layer<C>>::apply(
                    &self.self_attn,
                    n,
                    mask,
                    cache,
                    pads,
                );
                let h = t_add(Ok(x), self.post_attention_layernorm.apply(attn));
                let ff = self.mlp.apply(self.pre_feedforward_layernorm.apply(h));
                (t_add(h, self.post_feedforward_layernorm.apply(ff)), after)
            },
            Err(e) => (Err(e), cache),
        }
    }

    fn forward(&self, input: AttentionInput<'_, C>) -> Result<Array, Exception> {
        let AttentionInput { x, mask, cache, pad_offsets } = input;
        let n = self.input_layernorm.forward(x)?;
        let attn = self.self_attn.forward(AttentionInput { x: &n, mask, cache, pad_offsets })?;
        let h = x.add(&self.post_attention_layernorm.forward(&attn)?)?;
        let ff = self.mlp.forward(&self.pre_feedforward_layernorm.forward(&h)?)?;
        h.add(&self.post_feedforward_layernorm.forward(&ff)?)
    }
}

impl Quantizable for DecoderLayer {
    open spec fn packs_to(
        self,
        group_size: i32,
        bits: i32,
        out: Result<DecoderLayer, Exception>,
    ) -> bool {
        match out {
            Ok(a) => {
                &&& self.self_attn.packs_to(group_size, bits, Ok(a.self_attn))
                &&& self.mlp.packs_to(group_size, bits, Ok(a.mlp))
                &&& a == (DecoderLayer { self_attn: a.self_attn, mlp: a.mlp, ..self })
            },
            Err(e) => {
                ||| self.self_attn.packs_to(group_size, bits, Err(e))
                ||| self.mlp.packs_to(group_size, bits, Err(e))
            },
        }
    }

    fn quantize(self, group_size: i32, bits: i32) -> Result<DecoderLayer, Exception> {
        let self_attn = self.self_attn.quantize(group_size, bits)?;
        let mlp = self.mlp.quantize(group_size, bits)?;
        Ok(
            DecoderLayer {
                self_attn,
                mlp,
                is_local: self.is_local,
                input_layernorm: self.input_layernorm,
                post_attention_layernorm: self.post_attention_layernorm,
                pre_feedforward_layernorm: self.pre_feedforward_layernorm,
                post_feedforward_layernorm: self.post_feedforward_layernorm,
            },
        )
    }
}

impl Parameters for DecoderLayer {
    type Frame = (
        bool,
        <Attention as Parameters>::Frame,
        <Mlp as Parameters>::Frame,
        <GemmaRmsNorm as Parameters>::Frame,
        <GemmaRmsNorm as Parameters>::Frame,
        <GemmaRmsNorm as Parameters>::Frame,
        <GemmaRmsNorm as Parameters>::Frame,
    );

    open spec fn frame(&self) -> Self::Frame {
        (
            self.is_local,
            self.self_attn.frame(),
            self.mlp.frame(),
            self.input_layernorm.frame(),
            self.post_attention_layernorm.frame(),
            self.pre_feedforward_layernorm.frame(),
            self.post_feedforward_layernorm.frame(),
        )
    }

    open spec fn param(&self, key: Seq<char>) -> Option<Term> {
        if begins(key, "self_attn."@) {
            self.self_attn.param(key.skip("self_attn."@.len() as int))
        } else if begins(key, "mlp."@) {
            self.mlp.param(key.skip("mlp."@.len() as int))
        } else if begins(key, "input_layernorm."@) {
            self.input_layernorm.param(key.skip("input_layernorm."@.len() as int))
        } else if begins(key, "post_attention_layernorm."@) {
            self.post_attention_layernorm.param(key.skip("post_attention_layernorm."@.len() as int))
        } else if begins(key, "pre_feedforward_layernorm."@) {
            self.pre_feedforward_layernorm.param(key.skip("pre_feedforward_layernorm."@.len() as int))
        } else if begins(key, "post_feedforward_layernorm."@) {
            self.post_feedforward_layernorm.param(key.skip("post_feedforward_layernorm."@.len() as int))
        } else {
            None
        }
    }

    fn has_param(&self, key: &str) -> bool {
        match strip_prefix(key, "self_attn.") {
            Some(rest) => {
                return self.self_attn.has_param(rest);
            },
            None => {},
        }
        match strip_prefix(key, "mlp.") {
            Some(rest) => {
                return self.mlp.has_param(rest);
            },
            None => {},
        }
        match strip_prefix(key, "input_layernorm.") {
            Some(rest) => {
                return self.input_layernorm.has_param(rest);
            },
            None => {},
        }
        match strip_prefix(key, "post_attention_layernorm.") {
            Some(rest) => {
                return self.post_attention_layernorm.has_param(rest);
            },
            None => {},
        }
        match strip_prefix(key, "pre_feedforward_layernorm.") {
            Some(rest) => {
                return self.pre_feedforward_layernorm.has_param(rest);
            },
            None => {},
        }
        match strip_prefix(key, "post_feedforward_layernorm.") {
            Some(rest) => {
                return self.post_feedforward_layernorm.has_param(rest);
            },
            None => {},
        }
        false
    }

    fn set_param(&mut self, key: &str, value: Array) -> bool {
        let ghost before = *self;
        match strip_prefix(key, "self_attn.") {
            Some(rest) => {
                let ghost v = value@;
                let done = self.self_attn.set_param(rest, value);
                proof {
                    lemma_part(before.self_attn, self.self_attn, key@, "self_attn."@, v, done);
                }
                return done;
            },
            None => {},
        }
        match strip_prefix(key, "mlp.") {
            Some(rest) => {
                let ghost v = value@;
                let done = self.mlp.set_param(rest, value);
                proof {
                    lemma_part(before.mlp, self.mlp, key@, "mlp."@, v, done);
                }
                return done;
            },
            None => {},
        }
        match strip_prefix(key, "input_layernorm.") {
            Some(rest) => {
                let ghost v = value@;
                let done = self.input_layernorm.set_param(rest, value);
                proof {
                    lemma_part(
                        before.input_layernorm,
                        self.input_layernorm,
                        key@,
                        "input_layernorm."@,
                        v,
                        done,
                    );
                }
                return done;
            },
            None => {},
        }
        match strip_prefix(key, "post_attention_layernorm.") {
            Some(rest) => {
                let ghost v = value@;
                let done = self.post_attention_layernorm.set_param(rest, value);
                proof {
                    lemma_part(
                        before.post_attention_layernorm,
                        self.post_attention_layernorm,
                        key@,
                        "post_attention_layernorm."@,
                        v,
                        done,
                    );
                }
                return done;
            },
            None => {},
        }
        match strip_prefix(key, "pre_feedforward_layernorm.") {
            Some(rest) => {
                let ghost v = value@;
                let done = self.pre_feedforward_layernorm.set_param(rest, value);
                proof {
                    lemma_part(
                        before.pre_feedforward_layernorm,
                        self.pre_feedforward_layernorm,
                        key@,
                        "pre_feedforward_layernorm."@,
                        v,
                        done,
                    );
                }
                return done;
            },
            None => {},
        }
        match strip_prefix(key, "post_feedforward_layernorm.") {
            Some(rest) => {
                let ghost v = value@;
                let done = self.post_feedforward_layernorm.set_param(rest, value);
                proof {
                    lemma_part(
                        before.post_feedforward_layernorm,
                        self.post_feedforward_layernorm,
                        key@,
                        "post_feedforward_layernorm."@,
                        v,
                        done,
                    );
                }
                return done;
            },
            None => {},
        }
        false
    }
}

/// The layers of a model, between its embedding table and its last normalization.
pub struct Gemma3Model {
    pub hidden_size: i32,
    pub sliding_window: i32,
    pub embed_tokens: AnyEmbedding,
    pub layers: Vec<DecoderLayer>,
    pub norm: GemmaRmsNorm,
}

/// The positions of the queries, as a column.
pub open spec fn query_positions(offset: i32, l: i32) -> Tn {
    t_reshape(t_arange(offset, (offset + l) as i32, Dtype::Int32), seq![l, 1i32])
}

/// The positions of the keys, as a row.
pub open spec fn key_positions(total: i32) -> Tn {
    t_reshape(t_arange(0, total, Dtype::Int32), seq![1i32, total])
}

/// Zero where `keep` holds and negative infinity elsewhere.
pub open spec fn additive(keep: Tn) -> Tn {
    t_where(keep, t_scalar(lit(ZERO_BITS)), t_scalar(lit(NEG_INFINITY_BITS)))
}

/// The masks of `l` queries behind `offset` positions. The first hides the keys behind each query;
/// the second hides as well those that are `window` or more positions back.
pub open spec fn gemma_masks(offset: i32, l: i32, window: i32, dtype: Dtype) -> Result<
    (Term, Term),
    Exception,
> {
    if !(i32::MIN <= offset + l <= i32::MAX) {
        Err(Exception::Operands)
    } else {
        let q = query_positions(offset, l);
        let k = key_positions((offset + l) as i32);
        let causal = additive(t_le(k, q));
        let near = additive(t_gt(k, t_subtract(q, t_int(window))));
        match (t_cast(causal, dtype), t_cast(t_add(causal, near), dtype)) {
            (Ok(g), Ok(n)) => Ok((g, n)),
            _ => Err(Exception::Operands),
        }
    }
}

/// Builds the masks of both sorts of layers, `[l, offset + l]`, over absolute positions.
pub fn build_gemma_masks(offset: i32, l: i32, window: i32, dt: Dtype) -> (r: Result<
    (Array, Array),
    Exception,
>)
    ensures
        pair_outcome(r) == gemma_masks(offset, l, window, dt),
{
    let total: i64 = offset as i64 + l as i64;
    if total > 0x7fff_ffff || total < -0x8000_0000 {
        return Err(Exception::Operands);
    }
    let total: i32 = total as i32;
    let column: Vec<i32> = vec![l, 1];
    let row: Vec<i32> = vec![1, total];
    proof {
        assert(column@ =~= seq![l, 1i32]);
        assert(row@ =~= seq![1i32, total]);
    }
    let qpos = arange(offset, total, Dtype::Int32)?.reshape(&column)?;
    let kpos = arange(0, total, Dtype::Int32)?.reshape(&row)?;
    let zero = Array::from_scalar(Scalar::lit(ZERO_BITS));
    let neg_inf = Array::from_scalar(Scalar::lit(NEG_INFINITY_BITS));
    let causal = which(&kpos.le(&qpos)?, &zero, &neg_inf)?;
    let global = causal.as_dtype(dt)?;
    let reach = qpos.subtract(&Array::from_int(window))?;
    let near = which(&kpos.gt(&reach)?, &zero, &neg_inf)?;
    let local = causal.add(&near)?.as_dtype(dt)?;
    Ok((global, local))
}

/// Which of `total` keys are among the last `window`.
pub open spec fn window_kept(total: i32, window: i32) -> Tn {
    if i32::MIN <= total - window <= i32::MAX {
        t_ge(t_arange(0, total, Dtype::Int32), t_int((total - window) as i32))
    } else {
        Err(Exception::Operands)
    }
}

/// Finds the last `window` of `total` keys.
pub fn build_window_keep(total: i32, window: i32) -> (r: Result<Array, Exception>)
    ensures
        tn(r) == window_kept(total, window),
{
    let first: i64 = total as i64 - window as i64;
    if first > 0x7fff_ffff || first < -0x8000_0000 {
        return Err(Exception::Operands);
    }
    let kpos = arange(0, total, Dtype::Int32)?;
    kpos.ge(&Array::from_int(first as i32))
}

/// The number of positions held by the first cache.
pub open spec fn first_offset<C: KeyValueCache>(slots: Seq<Option<C::State>>) -> i32 {
    if slots.len() > 0 && slots[0] is Some {
        C::offset_of(slots[0]->Some_0)
    } else {
        0
    }
}

/// Reads the number of positions held by the first cache.
pub fn held_positions<C: KeyValueCache>(cache: &Vec<Option<C>>) -> (r: i32)
    ensures
        r == first_offset::<C>(slot_states(cache@)),
{
    if cache.len() == 0 {
        return 0;
    }
    proof {
        assert(slot_states(cache@)[0] == slot_state(cache@[0]));
    }
    match &cache[0] {
        Some(c) => c.offset(),
        None => 0,
    }
}

/// The masks of a run: a given mask, cut to the window for local layers, or those of the positions.
pub open spec fn run_masks<C: KeyValueCache>(
    mask: Option<Term>,
    h: Term,
    slots: Seq<Option<C::State>>,
    window: i32,
) -> Result<(Term, Term), Exception> {
    match mask {
        Some(m) => if m.shape.len() == 0 {
            Err(Exception::Operands)
        } else {
            match t_logical_and(Ok(m), window_kept(m.shape.last(), window)) {
                Ok(local) => Ok((m, local)),
                Err(e) => Err(e),
            }
        },
        None => if h.shape.len() < 2 {
            Err(Exception::Operands)
        } else {
            gemma_masks(first_offset::<C>(slots), h.shape[1], window, h.dtype)
        },
    }
}

fn choose_masks<C: KeyValueCache>(
    mask: Option<&Array>,
    h: &Array,
    cache: &Vec<Option<C>>,
    window: i32,
) -> (r: Result<(Array, Array), Exception>)
    ensures
        pair_outcome(r) == run_masks::<C>(opt_ref_term(mask), h@, slot_states(cache@), window),
{
    match mask {
        Some(m) => {
            let n: usize = m.ndim();
            if n == 0 {
                return Err(Exception::Operands);
            }
            let near = build_window_keep(m.shape()[n - 1], window)?;
            let local = m.logical_and(&near)?;
            Ok((m.share(), local))
        },
        None => {
            if h.ndim() < 2 {
                return Err(Exception::Operands);
            }
            build_gemma_masks(held_positions(cache), h.shape()[1], window, h.dtype())
        },
    }
}

impl Gemma3Model {
    /// Whether these are the fresh layers of a model.
    pub open spec fn is_fresh(&self, args: &ModelArgs) -> bool {
        &&& self.hidden_size == args.hidden_size
        &&& self.sliding_window == args.sliding_window
        &&& table_built(Ok(self.embed_tokens@), args.vocab_size, args.hidden_size)
        &&& self.layers@.len() == layer_count(args.num_hidden_layers)
        &&& forall|i: int|
            0 <= i < self.layers@.len() ==> (#[trigger] self.layers@[i]).is_fresh(args, i)
        &&& self.norm.is_fresh(args.hidden_size, Scalar::Lit(args.rms_norm_eps))
    }

    /// Whether the layers cannot be built.
    pub open spec fn cannot_build(args: &ModelArgs, e: Exception) -> bool {
        ||| args.num_hidden_layers > 0 && DecoderLayer::cannot_build(args, e)
        ||| table_built(Err(e), args.vocab_size, args.hidden_size)
    }

    /// The embeddings of token ids, times the root of the hidden size.
    pub open spec fn embedded(&self, ids: Term) -> Tn {
        match t_embed(self.embed_tokens@, ids) {
            Ok(h) => t_multiply(
                Ok(h),
                t_cast(
                    t_scalar(Scalar::SquareRoot(Arc::new(Scalar::Int(self.hidden_size)))),
                    h.dtype,
                ),
            ),
            Err(e) => Err(e),
        }
    }

    /// The hidden states behind all layers, and the caches.
    pub open spec fn run<C: FreshCache>(
        &self,
        ids: Term,
        mask: Option<Term>,
        slots: Seq<Option<C::State>>,
        pads: Option<Term>,
    ) -> (Tn, Seq<Option<C::State>>) {
        match self.embedded(ids) {
            Err(e) => (Err(e), slots),
            Ok(h) => {
                let filled = model_slots::<C>(slots, self.layers@.len());
                match run_masks::<C>(mask, h, filled, self.sliding_window) {
                    Err(e) => (Err(e), filled),
                    Ok((full, window)) => {
                        let (x, after) = run_layers::<DecoderLayer, C>(
                            self.layers@,
                            h,
                            Masks { full: Some(full), window: Some(window) },
                            filled,
                            pads,
                            paired(self.layers@.len(), filled.len()),
                        );
                        (self.norm.apply(x), after)
                    },
                }
            },
        }
    }

    /// Fresh layers.
    pub fn new(args: &ModelArgs) -> (r: Result<Gemma3Model, Exception>)
        requires
            layers_ready(args),
        ensures
            match r {
                Ok(m) => m.is_fresh(args),
                Err(e) => Gemma3Model::cannot_build(args, e),
            },
    {
        let mut layers: Vec<DecoderLayer> = Vec::new();
        let mut i: i32 = 0;
        while i < args.num_hidden_layers
            invariant
                0 <= i,
                i <= args.num_hidden_layers || i == 0,
                layers_ready(args),
                layers@.len() == i,
                forall|j: int| 0 <= j < i ==> (#[trigger] layers@[j]).is_fresh(args, j),
            decreases args.num_hidden_layers - i,
        {
            layers.push(DecoderLayer::new(args, i)?);
            i += 1;
        }
        let embed_tokens = AnyEmbedding::embedding(args.vocab_size, args.hidden_size)?;
        Ok(
            Gemma3Model {
                hidden_size: args.hidden_size,
                sliding_window: args.sliding_window,
                embed_tokens,
                layers,
                norm: GemmaRmsNorm::new(args.hidden_size, Scalar::Lit(args.rms_norm_eps)),
            },
        )
    }

    fn embed(&self, ids: &Array) -> (r: Result<Array, Exception>)
        ensures
            tn(r) == self.embedded(ids@),
    {
        let h = self.embed_tokens.forward(ids)?;
        let root = Scalar::SquareRoot(Arc::new(Scalar::Int(self.hidden_size)));
        let normalizer = Array::from_scalar(root).as_dtype(h.dtype())?;
        h.multiply(&normalizer)
    }

    /// Runs token ids through all layers.
    pub fn forward<C: FreshCache>(&self, input: ModelInput<'_, C>) -> (r: Result<Array, Exception>)
        ensures
            (tn(r), slot_states((*final(input.cache))@)) == self.run::<C>(
                input.inputs@,
                opt_ref_term(input.mask),
                slot_states(old(input.cache)@),
                opt_ref_term(input.pad_offsets),
            ),
    {
        let ModelInput { inputs, mask, cache, pad_offsets } = input;
        let h = self.embed(inputs)?;
        fill_caches(cache, self.layers.len());
        proof {
            assert(slot_states(cache@).len() == cache@.len());
        }
        let (full, window) = choose_masks(mask, &h, cache, self.sliding_window)?;
        let x = forward_layers(&self.layers, h, Some(&full), Some(&window), cache, pad_offsets)?;
        self.norm.forward(&x)
    }
}

impl Quantizable for Gemma3Model {
    open spec fn packs_to(
        self,
        group_size: i32,
        bits: i32,
        out: Result<Gemma3Model, Exception>,
    ) -> bool {
        match out {
            Ok(a) => {
                &&& self.embed_tokens.packs_to(group_size, bits, Ok(a.embed_tokens))
                &&& self.layers.packs_to(group_size, bits, Ok(a.layers))
                &&& a == (Gemma3Model { embed_tokens: a.embed_tokens, layers: a.layers, ..self })
            },
            Err(e) => {
                ||| self.embed_tokens.packs_to(group_size, bits, Err(e))
                ||| self.layers.packs_to(group_size, bits, Err(e))
            },
        }
    }

    fn quantize(self, group_size: i32, bits: i32) -> Result<Gemma3Model, Exception> {
        let embed_tokens = self.embed_tokens.quantize(group_size, bits)?;
        let layers = self.layers.quantize(group_size, bits)?;
        Ok(
            Gemma3Model {
                embed_tokens,
                layers,
                hidden_size: self.hidden_size,
                sliding_window: self.sliding_window,
                norm: self.norm,
            },
        )
    }
}

impl Parameters for Gemma3Model {
    type Frame = (
        i32,
        i32,
        LeafFrame,
        <Vec<DecoderLayer> as Parameters>::Frame,
        <GemmaRmsNorm as Parameters>::Frame,
    );

    open spec fn frame(&self) -> Self::Frame {
        (
            self.hidden_size,
            self.sliding_window,
            self.embed_tokens.frame(),
            self.layers.frame(),
            self.norm.frame(),
        )
    }

    open spec fn param(&self, key: Seq<char>) -> Option<Term> {
        if begins(key, "embed_tokens."@) {
            self.embed_tokens.param(key.skip("embed_tokens."@.len() as int))
        } else if begins(key, "layers."@) {
            self.layers.param(key.skip("layers."@.len() as int))
        } else if begins(key, "norm."@) {
            self.norm.param(key.skip("norm."@.len() as int))
        } else {
            None
        }
    }

    fn has_param(&self, key: &str) -> bool {
        match strip_prefix(key, "embed_tokens.") {
            Some(rest) => {
                return self.embed_tokens.has_param(rest);
            },
            None => {},
        }
        match strip_prefix(key, "layers.") {
            Some(rest) => {
                return self.layers.has_param(rest);
            },
            None => {},
        }
        match strip_prefix(key, "norm.") {
            Some(rest) => {
                return self.norm.has_param(rest);
            },
            None => {},
        }
        false
    }

    fn set_param(&mut self, key: &str, value: Array) -> bool {
        let ghost before = *self;
        match strip_prefix(key, "embed_tokens.") {
            Some(rest) => {
                let ghost v = value@;
                let done = self.embed_tokens.set_param(rest, value);
                proof {
                    lemma_part(
                        before.embed_tokens,
                        self.embed_tokens,
                        key@,
                        "embed_tokens."@,
                        v,
                        done,
                    );
                }
                return done;
            },
            None => {},
        }
        match strip_prefix(key, "layers.") {
            Some(rest) => {
                let ghost v = value@;
                let done = self.layers.set_param(rest, value);
                proof {
                    lemma_part(before.layers, self.layers, key@, "layers."@, v, done);
                }
                return done;
            },
            None => {},
        }
        match strip_prefix(key, "norm.") {
            Some(rest) => {
                let ghost v = value@;
                let done = self.norm.set_param(rest, value);
                proof {
                    lemma_part(before.norm, self.norm, key@, "norm."@, v, done);
                }
                return done;
            },
            None => {},
        }
        false
    }
}

/// A language model. A checkpoint that has a head of its own brings it along; otherwise the
/// embedding table serves as the head.
pub struct Model {
    pub args: ModelArgs,
    pub model: Gemma3Model,
    pub lm_head: Option<AnyLinear>,
}

impl Model {
    /// Whether this is a fresh model.
    pub open spec fn is_fresh(&self, has_lm_head: bool) -> bool {
        &&& self.model.is_fresh(&self.args)
        &&& self.lm_head is Some == has_lm_head
        &&& self.lm_head matches Some(l) ==> linear_built(
            Ok(l@),
            self.args.hidden_size,
            self.args.vocab_size,
            false,
        )
    }

    /// Whether a model cannot be built.
    pub open spec fn cannot_build(args: &ModelArgs, has_lm_head: bool, e: Exception) -> bool {
        ||| Gemma3Model::cannot_build(args, e)
        ||| has_lm_head && linear_built(Err(e), args.hidden_size, args.vocab_size, false)
    }

    /// A fresh model.
    pub fn new(args: ModelArgs, has_lm_head: bool) -> (r: Result<Model, Exception>)
        requires
            layers_ready(&args),
        ensures
            match r {
                Ok(m) => m.args == args && m.is_fresh(has_lm_head),
                Err(e) => Model::cannot_build(&args, has_lm_head, e),
            },
    {
        let model = Gemma3Model::new(&args)?;
        let lm_head = if has_lm_head {
            Some(AnyLinear::linear(args.hidden_size, args.vocab_size, false)?)
        } else {
            None
        };
        Ok(Model { args, model, lm_head })
    }

    /// The name of the model family.
    pub fn model_type(&self) -> (r: &str)
        ensures
            r@ == self.args.model_type@,
    {
        self.args.model_type.as_str()
    }
}

impl<C: FreshCache> LanguageModel<C> for Model {
    open spec fn run(
        &self,
        ids: Term,
        mask: Option<Term>,
        slots: Seq<Option<C::State>>,
        pads: Option<Term>,
    ) -> (Tn, Seq<Option<C::State>>) {
        let (h, after) = self.model.run::<C>(ids, mask, slots, pads);
        (logits_of(self.lm_head, self.model.embed_tokens, h), after)
    }

    fn forward(&self, input: ModelInput<'_, C>) -> Result<Array, Exception> {
        let out = self.model.forward(input)?;
        to_logits(&self.lm_head, &self.model.embed_tokens, &out)
    }
}

impl Quantizable for Model {
    open spec fn packs_to(self, group_size: i32, bits: i32, out: Result<Model, Exception>) -> bool {
        match out {
            Ok(a) => {
                &&& self.model.packs_to(group_size, bits, Ok(a.model))
                &&& self.lm_head.packs_to(group_size, bits, Ok(a.lm_head))
                &&& a == (Model { model: a.model, lm_head: a.lm_head, ..self })
            },
            Err(e) => {
                ||| self.model.packs_to(group_size, bits, Err(e))
                ||| self.lm_head.packs_to(group_size, bits, Err(e))
            },
        }
    }

    fn quantize(self, group_size: i32, bits: i32) -> Result<Model, Exception> {
        let model = self.model.quantize(group_size, bits)?;
        let lm_head = self.lm_head.quantize(group_size, bits)?;
        Ok(Model { model, lm_head, args: self.args })
    }
}

impl Parameters for Model {
    type Frame = (ModelArgs, <Gemma3Model as Parameters>::Frame, Option<LeafFrame>);

    open spec fn frame(&self) -> Self::Frame {
        (self.args, self.model.frame(), self.lm_head.frame())
    }

    open spec fn param(&self, key: Seq<char>) -> Option<Term> {
        if begins(key, "model."@) {
            self.model.param(key.skip("model."@.len() as int))
        } else if begins(key, "lm_head."@) {
            self.lm_head.param(key.skip("lm_head."@.len() as int))
        } else {
            None
        }
    }

    fn has_param(&self, key: &str) -> bool {
        match strip_prefix(key, "model.") {
            Some(rest) => {
                return self.model.has_param(rest);
            },
            None => {},
        }
        match strip_prefix(key, "lm_head.") {
            Some(rest) => {
                return self.lm_head.has_param(rest);
            },
            None => {},
        }
        false
    }

    fn set_param(&mut self, key: &str, value: Array) -> bool {
        let ghost before = *self;
        match strip_prefix(key, "model.") {
            Some(rest) => {
                let ghost v = value@;
                let done = self.model.set_param(rest, value);
                proof {
                    lemma_part(before.model, self.model, key@, "model."@, v, done);
                }
                return done;
            },
            None => {},
        }
        match strip_prefix(key, "lm_head.") {
            Some(rest) => {
                let ghost v = value@;
                let done = self.lm_head.set_param(rest, value);
                proof {
                    lemma_part(before.lm_head, self.lm_head, key@, "lm_head."@, v, done);
                }
                return done;
            },
            None => {},
        }
        false
    }
}

/// Whether a checkpoint has a head of its own.
pub open spec fn brings_head(loaded: Seq<(String, Array)>) -> bool {
    exists|i: int| 0 <= i < loaded.len() && begins((#[trigger] loaded[i]).0@, "lm_head."@)
}

/// Looks for a head in a checkpoint.
pub fn has_lm_head(loaded: &Vec<(String, Array)>) -> (r: bool)
    ensures
        r == brings_head(loaded@),
{
    let mut i: usize = 0;
    while i < loaded.len()
        invariant
            i <= loaded@.len(),
            forall|j: int| 0 <= j < i ==> !begins((#[trigger] loaded@[j]).0@, "lm_head."@),
        decreases loaded@.len() - i,
    {
        if starts_with(loaded[i].0.as_str(), "lm_head.") {
            return true;
        }
        i += 1;
    }
    false
}

/// Whether `r` is the model that a checkpoint of this configuration is put into.
pub open spec fn built(args: ModelArgs, head: bool, r: Result<Model, Exception>) -> bool {
    match r {
        Ok(m) => exists|f: Model|
            f.args == args && #[trigger] f.is_fresh(head) && match args.quantization {
                Some(q) => f.packs_to(q.group_size, q.bits, Ok(m)),
                None => m == f,
            },
        Err(e) => Model::cannot_build(&args, head, e) || exists|f: Model|
            f.args == args && #[trigger] f.is_fresh(head) && match args.quantization {
                Some(q) => f.packs_to(q.group_size, q.bits, Err(e)),
                None => false,
            },
    }
}

/// Builds the model that a checkpoint of this configuration is put into, with a head where the
/// checkpoint brings one.
pub fn build_gemma3_model(args: ModelArgs, loaded: &Vec<(String, Array)>) -> (r: Result<
    Model,
    Exception,
>)
    requires
        layers_ready(&args),
    ensures
        built(args, brings_head(loaded@), r),
{
    let quantization = args.quantization;
    let head = has_lm_head(loaded);
    let model = Model::new(args, head)?;
    proof {
        assert(model.is_fresh(head));
    }
    match quantization {
        Some(q) => model.quantize(q.group_size, q.bits),
        None => Ok(model),
    }
}

/// Builds the model of a configuration and puts all arrays of a checkpoint into it, counting those
/// that found a place. The model has a head of its own exactly where the checkpoint brings one.
pub fn load_gemma3_model(args: ModelArgs, loaded: &Vec<(String, Array)>) -> (r: Result<
    (Model, usize),
    Exception,
>)
    requires
        layers_ready(&args),
    ensures
        match r {
            Ok((m, n)) => exists|f: Model| #[trigger]
                built(args, brings_head(loaded@), Ok(f)) && m.frame() == f.frame() && n
                    == match_count(Remap::ScaledWeight, f, entries(loaded@), entries(loaded@))
                    && forall|k: Seq<char>| #[trigger]
                    m.param(k) == loaded_param(
                        Remap::ScaledWeight,
                        f,
                        entries(loaded@),
                        entries(loaded@),
                        k,
                    ),
            Err(e) => built(args, brings_head(loaded@), Err(e)),
        },
{
    let mut model = build_gemma3_model(args, loaded)?;
    let ghost fresh = model;
    let n: usize = load_weights_remapped(&mut model, loaded, Remap::ScaledWeight);
    proof {
        assert(built(args, brings_head(loaded@), Ok(fresh)));
    }
    Ok((model, n))
}

/// A generator of this model.
pub type Generate<'a, C> = crate::models::generate::Generate<'a, Model, C>;

} // verus!
