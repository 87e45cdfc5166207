//! Qwen2: the projections of queries, keys and values have biases.

use crate::array::{opt_ref_term, tn, Array, Term, Tn};
use crate::cache::{slot_states, FreshCache, KeyValueCache};
use crate::error::Exception;
use crate::fast::array_mask;
use crate::models::decoder::{forward_decoder, run_decoder, DecoderLayer};
use crate::models::generate::LanguageModel;
use crate::models::qwen3::{
    inverse_root, inverse_root_of, layer_count, logits_of, product_fits, to_logits,
    QuantizationConfig,
};
use crate::models::sampling::{plain_sampled, sample_plain};
use crate::nn::{
    table_built, linear_built, t_embed, t_linear, AnyEmbedding, AnyLinear, Quantizable, RmsNorm,
};
use crate::ops::elementwise::{t_add, t_multiply, t_silu};
use crate::params::{lemma_part, LeafFrame, Parameters};
use crate::scalar::{Float, Scalar};
use crate::text::{begins, strip_prefix};
use crate::utils::attention::{
    attend, attended, explicit_mask, from_heads, join_heads, split_heads, to_heads,
};
use crate::utils::rope::{
    initialize_rope, rope_built, RopeVariant, ScalingConfig,
};
use crate::weights::{file_entries, load_files, loaded_from, Remap};
use vstd::prelude::*;

pub use crate::models::decoder::{AttentionInput, ModelInput};
pub use crate::models::generate::GenerateState;

verus! {

/// Keeps the pad offsets of a batch whose rows have different lengths, for the next runs of a
/// model; `None` goes back to one offset for all rows.
pub fn set_batch_pad_offsets(slot: &mut Option<Array>, offsets: Option<Array>)
    ensures
        *final(slot) == offsets,
{
    *slot = offsets;
}

/// The value of a switch that is on unless it is set otherwise.
pub fn default_true() -> (r: bool)
    ensures
        r,
{
    true
}

/// Picks a token for every row by temperature alone.
pub fn sample(logits: &Array, temp: Float, draw: u64) -> (r: Result<Array, Exception>)
    ensures
        tn(r) == plain_sampled(Ok(logits@), temp, draw),
{
    sample_plain(logits, temp, draw)
}

/// The configuration of a model.
pub struct ModelArgs {
    pub model_type: String,
    pub hidden_size: i32,
    pub num_hidden_layers: i32,
    pub intermediate_size: i32,
    pub num_attention_heads: i32,
    pub rms_norm_eps: Float,
    pub vocab_size: i32,
    pub num_key_value_heads: i32,
    pub max_position_embeddings: i32,
    pub rope_theta: Float,
    /// The size of a head; zero where it is still to be filled in.
    pub head_dim: i32,
    pub tie_word_embeddings: bool,
    pub attention_bias: bool,
    pub mlp_bias: bool,
    pub rope_scaling: Option<ScalingConfig>,
    pub quantization: Option<QuantizationConfig>,
}

/// The configuration with its head size filled in, where it came as zero: the hidden size divided
/// among the heads.
pub fn with_head_dim(args: ModelArgs) -> (r: ModelArgs)
    requires
        args.head_dim == 0 ==> args.num_attention_heads > 0 && args.hidden_size >= 0,
    ensures
        r == (ModelArgs {
            head_dim: if args.head_dim == 0 {
                (args.hidden_size / args.num_attention_heads) as i32
            } else {
                args.head_dim
            },
            ..args
        }),
{
    let mut args = args;
    if args.head_dim == 0 {
        args.head_dim = args.hidden_size / args.num_attention_heads;
    }
    args
}

/// Attention in which several query heads share a key head.
pub struct Attention {
    pub n_heads: i32,
    pub n_kv_heads: i32,
    pub scale: Scalar,
    pub q_proj: AnyLinear,
    pub k_proj: AnyLinear,
    pub v_proj: AnyLinear,
    pub o_proj: AnyLinear,
    pub rope: RopeVariant,
}

/// Whether attention layers can be laid out: the widths fit, and the rotary embedding exists.
pub open spec fn attention_ready(args: &ModelArgs) -> bool {
    &&& product_fits(args.num_attention_heads, args.head_dim)
    &&& product_fits(args.num_key_value_heads, args.head_dim)
}

impl Attention {
    /// Whether this is the attention of a fresh layer.
    pub open spec fn is_fresh(&self, args: &ModelArgs) -> bool {
        let dim = args.hidden_size;
        let head_dim = args.head_dim;
        let q = (args.num_attention_heads * head_dim) as i32;
        let kv = (args.num_key_value_heads * head_dim) as i32;
        &&& self.n_heads == args.num_attention_heads
        &&& self.n_kv_heads == args.num_key_value_heads
        &&& self.scale == inverse_root(head_dim)
        &&& linear_built(Ok(self.q_proj@), dim, q, true)
        &&& linear_built(Ok(self.k_proj@), dim, kv, true)
        &&& linear_built(Ok(self.v_proj@), dim, kv, true)
        &&& linear_built(Ok(self.o_proj@), q, dim, false)
        &&& rope_built(
            Ok(self.rope),
            args.head_dim,
            Scalar::Lit(args.rope_theta),
            false,
            args.rope_scaling,
        )
    }

    /// Whether the attention of a layer cannot be built.
    pub open spec fn cannot_build(args: &ModelArgs, e: Exception) -> bool {
        let dim = args.hidden_size;
        let head_dim = args.head_dim;
        let q = (args.num_attention_heads * head_dim) as i32;
        let kv = (args.num_key_value_heads * head_dim) as i32;
        ||| linear_built(Err(e), dim, q, true)
        ||| linear_built(Err(e), dim, kv, true)
        ||| linear_built(Err(e), q, dim, false)
        ||| rope_built(
            Err(e),
            args.head_dim,
            Scalar::Lit(args.rope_theta),
            false,
            args.rope_scaling,
        )
    }

    /// Fresh attention.
    pub fn new(args: &ModelArgs) -> (r: Result<Attention, Exception>)
        requires
            attention_ready(args),
        ensures
            match r {
                Ok(a) => a.is_fresh(args),
                Err(e) => Attention::cannot_build(args, e),
            },
    {
        let dim: i32 = args.hidden_size;
        let n_heads: i32 = args.num_attention_heads;
        let n_kv_heads: i32 = args.num_key_value_heads;
        let head_dim: i32 = args.head_dim;
        let q_proj = AnyLinear::linear(dim, n_heads * head_dim, true)?;
        let k_proj = AnyLinear::linear(dim, n_kv_heads * head_dim, true)?;
        let v_proj = AnyLinear::linear(dim, n_kv_heads * head_dim, true)?;
        let o_proj = AnyLinear::linear(n_heads * head_dim, dim, false)?;
        let rope = initialize_rope(
            head_dim,
            Scalar::Lit(args.rope_theta),
            false,
            &args.rope_scaling,
            args.max_position_embeddings,
        )?;
        Ok(
            Attention {
                n_heads,
                n_kv_heads,
                scale: inverse_root_of(head_dim),
                q_proj,
                k_proj,
                v_proj,
                o_proj,
                rope,
            },
        )
    }

    /// A projection split into `n` heads.
    pub open spec fn headed(&self, l: AnyLinear, x: Term, n: i32) -> Tn {
        split_heads(t_linear(l@, Ok(x)), x.shape[0], x.shape[1], n)
    }
}

impl<C: KeyValueCache> DecoderLayer<C> for Attention {
    open spec fn windowed(&self) -> bool {
        false
    }

    fn is_windowed(&self) -> bool {
        false
    }

    open spec fn apply(
        &self,
        x: Term,
        mask: Option<Term>,
        cache: Option<C::State>,
        pads: Option<Term>,
    ) -> (Tn, Option<C::State>) {
        if x.shape.len() < 2 {
            (Err(Exception::Operands), cache)
        } else {
            match (
                self.headed(self.q_proj, x, self.n_heads),
                self.headed(self.k_proj, x, self.n_kv_heads),
                self.headed(self.v_proj, x, self.n_kv_heads),
            ) {
                (Ok(q), Ok(k), Ok(v)) => {
                    let (attn, after) = attended::<C>(
                        self.rope,
                        Ok(q),
                        Ok(k),
                        Ok(v),
                        self.scale,
                        array_mask(mask),
                        None,
                        cache,
                        pads,
                    );
                    (t_linear(self.o_proj@, join_heads(attn, x.shape[0], x.shape[1])), after)
                },
                _ => (Err(Exception::Operands), cache),
            }
        }
    }

    fn forward(&self, input: AttentionInput<'_, C>) -> Result<Array, Exception> {
        let AttentionInput { x, mask, cache, pad_offsets } = input;
        if x.ndim() < 2 {
            return Err(Exception::Operands);
        }
        let b: i32 = x.shape()[0];
        let l: i32 = x.shape()[1];
        let queries = to_heads(&self.q_proj.forward(x)?, b, l, self.n_heads)?;
        let keys = to_heads(&self.k_proj.forward(x)?, b, l, self.n_kv_heads)?;
        let values = to_heads(&self.v_proj.forward(x)?, b, l, self.n_kv_heads)?;
        let attn = attend(
            &self.rope,
            queries,
            keys,
            values,
            self.scale.copy(),
            explicit_mask(mask),
            None,
            cache,
            pad_offsets,
        )?;
        self.o_proj.forward(&from_heads(&attn, b, l)?)
    }
}

impl Quantizable for Attention {
    open spec fn packs_to(
        self,
        group_size: i32,
        bits: i32,
        out: Result<Attention, Exception>,
    ) -> bool {
        match out {
            Ok(a) => {
                &&& self.q_proj.packs_to(group_size, bits, Ok(a.q_proj))
                &&& self.k_proj.packs_to(group_size, bits, Ok(a.k_proj))
                &&& self.v_proj.packs_to(group_size, bits, Ok(a.v_proj))
                &&& self.o_proj.packs_to(group_size, bits, Ok(a.o_proj))
                &&& a == (Attention {
                    q_proj: a.q_proj,
                    k_proj: a.k_proj,
                    v_proj: a.v_proj,
                    o_proj: a.o_proj,
                    ..self
                })
            },
            Err(e) => {
                ||| self.q_proj.packs_to(group_size, bits, Err(e))
                ||| self.k_proj.packs_to(group_size, bits, Err(e))
                ||| self.v_proj.packs_to(group_size, bits, Err(e))
                ||| self.o_proj.packs_to(group_size, bits, Err(e))
            },
        }
    }

    fn quantize(self, group_size: i32, bits: i32) -> Result<Attention, Exception> {
        let q_proj = self.q_proj.quantize(group_size, bits)?;
        let k_proj = self.k_proj.quantize(group_size, bits)?;
        let v_proj = self.v_proj.quantize(group_size, bits)?;
        let o_proj = self.o_proj.quantize(group_size, bits)?;
        Ok(
            Attention {
                q_proj,
                k_proj,
                v_proj,
                o_proj,
                n_heads: self.n_heads,
                n_kv_heads: self.n_kv_heads,
                scale: self.scale,
                rope: self.rope,
            },
        )
    }
}

impl Parameters for Attention {
    type Frame = (i32, i32, Scalar, LeafFrame, LeafFrame, LeafFrame, LeafFrame, RopeVariant);

    open spec fn frame(&self) -> Self::Frame {
        (
            self.n_heads,
            self.n_kv_heads,
            self.scale,
            self.q_proj.frame(),
            self.k_proj.frame(),
            self.v_proj.frame(),
            self.o_proj.frame(),
            self.rope,
        )
    }

    open spec fn param(&self, key: Seq<char>) -> Option<Term> {
        if begins(key, "q_proj."@) {
            self.q_proj.param(key.skip("q_proj."@.len() as int))
        } else if begins(key, "k_proj."@) {
            self.k_proj.param(key.skip("k_proj."@.len() as int))
        } else if begins(key, "v_proj."@) {
            self.v_proj.param(key.skip("v_proj."@.len() as int))
        } else if begins(key, "o_proj."@) {
            self.o_proj.param(key.skip("o_proj."@.len() as int))
        } else {
            None
        }
    }

    fn has_param(&self, key: &str) -> bool {
        match strip_prefix(key, "q_proj.") {
            Some(rest) => {
                return self.q_proj.has_param(rest);
            },
            None => {},
        }
        match strip_prefix(key, "k_proj.") {
            Some(rest) => {
                return self.k_proj.has_param(rest);
            },
            None => {},
        }
        match strip_prefix(key, "v_proj.") {
            Some(rest) => {
                return self.v_proj.has_param(rest);
            },
            None => {},
        }
        match strip_prefix(key, "o_proj.") {
            Some(rest) => {
                return self.o_proj.has_param(rest);
            },
            None => {},
        }
        false
    }

    fn set_param(&mut self, key: &str, value: Array) -> bool {
        let ghost before = *self;
        match strip_prefix(key, "q_proj.") {
            Some(rest) => {
                let ghost v = value@;
                let done = self.q_proj.set_param(rest, value);
                proof {
                    lemma_part(before.q_proj, self.q_proj, key@, "q_proj."@, v, done);
                }
                return done;
            },
            None => {},
        }
        match strip_prefix(key, "k_proj.") {
            Some(rest) => {
                let ghost v = value@;
                let done = self.k_proj.set_param(rest, value);
                proof {
                    lemma_part(before.k_proj, self.k_proj, key@, "k_proj."@, v, done);
                }
                return done;
            },
            None => {},
        }
        match strip_prefix(key, "v_proj.") {
            Some(rest) => {
                let ghost v = value@;
                let done = self.v_proj.set_param(rest, value);
                proof {
                    lemma_part(before.v_proj, self.v_proj, key@, "v_proj."@, v, done);
                }
                return done;
            },
            None => {},
        }
        match strip_prefix(key, "o_proj.") {
            Some(rest) => {
                let ghost v = value@;
                let done = self.o_proj.set_param(rest, value);
                proof {
                    lemma_part(before.o_proj, self.o_proj, key@, "o_proj."@, v, done);
                }
                return done;
            },
            None => {},
        }
        false
    }
}

/// A gated feed-forward layer: `down(silu(gate(x)) * up(x))`.
pub struct Mlp {
    pub gate_proj: AnyLinear,
    pub down_proj: AnyLinear,
    pub up_proj: AnyLinear,
}

impl Mlp {
    /// The layer applied to `x`.
    pub open spec fn apply(&self, x: Tn) -> Tn {
        t_linear(
            self.down_proj@,
            t_multiply(t_silu(t_linear(self.gate_proj@, x)), t_linear(self.up_proj@, x)),
        )
    }

    /// Whether this is a fresh layer.
    pub open spec fn is_fresh(&self, dim: i32, hidden_dim: i32, bias: bool) -> bool {
        &&& linear_built(Ok(self.gate_proj@), dim, hidden_dim, bias)
        &&& linear_built(Ok(self.down_proj@), hidden_dim, dim, bias)
        &&& linear_built(Ok(self.up_proj@), dim, hidden_dim, bias)
    }

    /// Whether a layer cannot be built.
    pub open spec fn cannot_build(dim: i32, hidden_dim: i32, bias: bool, e: Exception) -> bool {
        ||| linear_built(Err(e), dim, hidden_dim, bias)
        ||| linear_built(Err(e), hidden_dim, dim, bias)
    }

    /// A fresh layer from `dim` features through `hidden_dim` and back.
    pub fn new(dim: i32, hidden_dim: i32, mlp_bias: bool) -> (r: Result<Mlp, Exception>)
        ensures
            match r {
                Ok(m) => m.is_fresh(dim, hidden_dim, mlp_bias),
                Err(e) => Mlp::cannot_build(dim, hidden_dim, mlp_bias, e),
            },
    {
        let gate_proj = AnyLinear::linear(dim, hidden_dim, mlp_bias)?;
        let down_proj = AnyLinear::linear(hidden_dim, dim, mlp_bias)?;
        let up_proj = AnyLinear::linear(dim, hidden_dim, mlp_bias)?;
        Ok(Mlp { gate_proj, down_proj, up_proj })
    }

    /// Applies the layer.
    pub fn forward(&self, input: &Array) -> (r: Result<Array, Exception>)
        ensures
            tn(r) == self.apply(Ok(input@)),
    {
        let gate = self.gate_proj.forward(input)?.silu()?;
        let up = self.up_proj.forward(input)?;
        self.down_proj.forward(&gate.multiply(&up)?)
    }
}

impl Quantizable for Mlp {
    open spec fn packs_to(self, group_size: i32, bits: i32, out: Result<Mlp, Exception>) -> bool {
        match out {
            Ok(a) => {
                &&& self.gate_proj.packs_to(group_size, bits, Ok(a.gate_proj))
                &&& self.down_proj.packs_to(group_size, bits, Ok(a.down_proj))
                &&& self.up_proj.packs_to(group_size, bits, Ok(a.up_proj))
            },
            Err(e) => {
                ||| self.gate_proj.packs_to(group_size, bits, Err(e))
                ||| self.down_proj.packs_to(group_size, bits, Err(e))
                ||| self.up_proj.packs_to(group_size, bits, Err(e))
            },
        }
    }

    fn quantize(self, group_size: i32, bits: i32) -> Result<Mlp, Exception> {
        let gate_proj = self.gate_proj.quantize(group_size, bits)?;
        let down_proj = self.down_proj.quantize(group_size, bits)?;
        let up_proj = self.up_proj.quantize(group_size, bits)?;
        Ok(Mlp { gate_proj, down_proj, up_proj })
    }
}

impl Parameters for Mlp {
    type Frame = (LeafFrame, LeafFrame, LeafFrame);

    open spec fn frame(&self) -> Self::Frame {
        (self.gate_proj.frame(), self.down_proj.frame(), self.up_proj.frame())
    }

    open spec fn param(&self, key: Seq<char>) -> Option<Term> {
        if begins(key, "gate_proj."@) {
            self.gate_proj.param(key.skip("gate_proj."@.len() as int))
        } else if begins(key, "down_proj."@) {
            self.down_proj.param(key.skip("down_proj."@.len() as int))
        } else if begins(key, "up_proj."@) {
            self.up_proj.param(key.skip("up_proj."@.len() as int))
        } else {
            None
        }
    }

    fn has_param(&self, key: &str) -> bool {
        match strip_prefix(key, "gate_proj.") {
            Some(rest) => {
                return self.gate_proj.has_param(rest);
            },
            None => {},
        }
        match strip_prefix(key, "down_proj.") {
            Some(rest) => {
                return self.down_proj.has_param(rest);
            },
            None => {},
        }
        match strip_prefix(key, "up_proj.") {
            Some(rest) => {
                return self.up_proj.has_param(rest);
            },
            None => {},
        }
        false
    }

    fn set_param(&mut self, key: &str, value: Array) -> bool {
        let ghost before = *self;
        match strip_prefix(key, "gate_proj.") {
            Some(rest) => {
                let ghost v = value@;
                let done = self.gate_proj.set_param(rest, value);
                proof {
                    lemma_part(before.gate_proj, self.gate_proj, key@, "gate_proj."@, v, done);
                }
                return done;
            },
            None => {},
        }
        match strip_prefix(key, "down_proj.") {
            Some(rest) => {
                let ghost v = value@;
                let done = self.down_proj.set_param(rest, value);
                proof {
                    lemma_part(before.down_proj, self.down_proj, key@, "down_proj."@, v, done);
                }
                return done;
            },
            None => {},
        }
        match strip_prefix(key, "up_proj.") {
            Some(rest) => {
                let ghost v = value@;
                let done = self.up_proj.set_param(rest, value);
                proof {
                    lemma_part(before.up_proj, self.up_proj, key@, "up_proj."@, v, done);
                }
                return done;
            },
            None => {},
        }
        false
    }
}

/// A layer: attention and feed-forward, each on normalized states and added to what came in.
pub struct TransformerBlock {
    pub num_attention_heads: i32,
    pub hidden_size: i32,
    pub self_attn: Attention,
    pub mlp: Mlp,
    pub input_layernorm: RmsNorm,
    pub post_attention_layernorm: RmsNorm,
}

impl TransformerBlock {
    /// Whether this is a fresh layer.
    pub open spec fn is_fresh(&self, args: &ModelArgs) -> bool {
        &&& self.num_attention_heads == args.num_attention_heads
        &&& self.hidden_size == args.hidden_size
        &&& self.self_attn.is_fresh(args)
        &&& self.mlp.is_fresh(args.hidden_size, args.intermediate_size, args.mlp_bias)
        &&& self.input_layernorm.is_fresh(args.hidden_size, Scalar::Lit(args.rms_norm_eps))
        &&& self.post_attention_layernorm.is_fresh(
            args.hidden_size,
            Scalar::Lit(args.rms_norm_eps),
        )
    }

    /// Whether a layer cannot be built.
    pub open spec fn cannot_build(args: &ModelArgs, e: Exception) -> bool {
        ||| Attention::cannot_build(args, e)
        ||| Mlp::cannot_build(args.hidden_size, args.intermediate_size, args.mlp_bias, e)
        ||| RmsNorm::cannot_build(args.hidden_size, e)
    }

    /// A fresh layer.
    pub fn new(args: &ModelArgs) -> (r: Result<TransformerBlock, Exception>)
        requires
            attention_ready(args),
        ensures
            match r {
                Ok(b) => b.is_fresh(args),
                Err(e) => TransformerBlock::cannot_build(args, e),
            },
    {
        let self_attn = Attention::new(args)?;
        let mlp = Mlp::new(args.hidden_size, args.intermediate_size, args.mlp_bias)?;
        let eps = Scalar::Lit(args.rms_norm_eps);
        let input_layernorm = RmsNorm::new(args.hidden_size, eps.copy())?;
        let post_attention_layernorm = RmsNorm::new(args.hidden_size, eps)?;
        Ok(
            TransformerBlock {
                num_attention_heads: args.num_attention_heads,
                hidden_size: args.hidden_size,
                self_attn,
                mlp,
                input_layernorm,
                post_attention_layernorm,
            },
        )
    }
}

impl<C: KeyValueCache> DecoderLayer<C> for TransformerBlock {
    open spec fn windowed(&self) -> bool {
        false
    }

    fn is_windowed(&self) -> bool {
        false
    }

    open spec fn apply(
        &self,
        x: Term,
        mask: Option<Term>,
        cache: Option<C::State>,
        pads: Option<Term>,
    ) -> (Tn, Option<C::State>) {
        match self.input_layernorm.apply(Ok(x)) {
            Ok(n) => {
                let (r, after) = <Attention as DecoderLayer<C>>::apply(
                    &self.self_attn,
                    n,
                    mask,
                    cache,
                    pads,
                );
                let h = t_add(Ok(x), r);
                (t_add(h, self.mlp.apply(self.post_attention_layernorm.apply(h))), after)
            },
            Err(e) => (Err(e), cache),
        }
    }

    fn forward(&self, input: AttentionInput<'_, C>) -> Result<Array, Exception> {
        let AttentionInput { x, mask, cache, pad_offsets } = input;
        let n = self.input_layernorm.forward(x)?;
        let r = self.self_attn.forward(AttentionInput { x: &n, mask, cache, pad_offsets })?;
        let h = x.add(&r)?;
        let r = self.mlp.forward(&self.post_attention_layernorm.forward(&h)?)?;
        h.add(&r)
    }
}

impl Quantizable for TransformerBlock {
    open spec fn packs_to(
        self,
        group_size: i32,
        bits: i32,
        out: Result<TransformerBlock, Exception>,
    ) -> bool {
        match out {
            Ok(a) => {
                &&& self.self_attn.packs_to(group_size, bits, Ok(a.self_attn))
                &&& self.mlp.packs_to(group_size, bits, Ok(a.mlp))
                &&& a == (TransformerBlock { self_attn: a.self_attn, mlp: a.mlp, ..self })
            },
            Err(e) => {
                ||| self.self_attn.packs_to(group_size, bits, Err(e))
                ||| self.mlp.packs_to(group_size, bits, Err(e))
            },
        }
    }

    fn quantize(self, group_size: i32, bits: i32) -> Result<TransformerBlock, Exception> {
        let self_attn = self.self_attn.quantize(group_size, bits)?;
        let mlp = self.mlp.quantize(group_size, bits)?;
        Ok(
            TransformerBlock {
                self_attn,
                mlp,
                num_attention_heads: self.num_attention_heads,
                hidden_size: self.hidden_size,
                input_layernorm: self.input_layernorm,
                post_attention_layernorm: self.post_attention_layernorm,
            },
        )
    }
}

impl Parameters for TransformerBlock {
    type Frame = (
        i32,
        i32,
        <Attention as Parameters>::Frame,
        <Mlp as Parameters>::Frame,
        <RmsNorm as Parameters>::Frame,
        <RmsNorm as Parameters>::Frame,
    );

    open spec fn frame(&self) -> Self::Frame {
        (
            self.num_attention_heads,
            self.hidden_size,
            self.self_attn.frame(),
            self.mlp.frame(),
            self.input_layernorm.frame(),
            self.post_attention_layernorm.frame(),
        )
    }

    open spec fn param(&self, key: Seq<char>) -> Option<Term> {
        if begins(key, "self_attn."@) {
            self.self_attn.param(key.skip("self_attn."@.len() as int))
        } else if begins(key, "mlp."@) {
            self.mlp.param(key.skip("mlp."@.len() as int))
        } else if begins(key, "input_layernorm."@) {
            self.input_layernorm.param(key.skip("input_layernorm."@.len() as int))
        } else if begins(key, "post_attention_layernorm."@) {
            self.post_attention_layernorm.param(key.skip("post_attention_layernorm."@.len() as int))
        } else {
            None
        }
    }

    fn has_param(&self, key: &str) -> bool {
        match strip_prefix(key, "self_attn.") {
            Some(rest) => {
                return self.self_attn.has_param(rest);
            },
            None => {},
        }
        match strip_prefix(key, "mlp.") {
            Some(rest) => {
                return self.mlp.has_param(rest);
            },
            None => {},
        }
        match strip_prefix(key, "input_layernorm.") {
            Some(rest) => {
                return self.input_layernorm.has_param(rest);
            },
            None => {},
        }
        match strip_prefix(key, "post_attention_layernorm.") {
            Some(rest) => {
                return self.post_attention_layernorm.has_param(rest);
            },
            None => {},
        }
        false
    }

    fn set_param(&mut self, key: &str, value: Array) -> bool {
        let ghost before = *self;
        match strip_prefix(key, "self_attn.") {
            Some(rest) => {
                let ghost v = value@;
                let done = self.self_attn.set_param(rest, value);
                proof {
                    lemma_part(before.self_attn, self.self_attn, key@, "self_attn."@, v, done);
                }
                return done;
            },
            None => {},
        }
        match strip_prefix(key, "mlp.") {
            Some(rest) => {
                let ghost v = value@;
                let done = self.mlp.set_param(rest, value);
                proof {
                    lemma_part(before.mlp, self.mlp, key@, "mlp."@, v, done);
                }
                return done;
            },
            None => {},
        }
        match strip_prefix(key, "input_layernorm.") {
            Some(rest) => {
                let ghost v = value@;
                let done = self.input_layernorm.set_param(rest, value);
                proof {
                    lemma_part(
                        before.input_layernorm,
                        self.input_layernorm,
                        key@,
                        "input_layernorm."@,
                        v,
                        done,
                    );
                }
                return done;
            },
            None => {},
        }
        match strip_prefix(key, "post_attention_layernorm.") {
            Some(rest) => {
                let ghost v = value@;
                let done = self.post_attention_layernorm.set_param(rest, value);
                proof {
                    lemma_part(
                        before.post_attention_layernorm,
                        self.post_attention_layernorm,
                        key@,
                        "post_attention_layernorm."@,
                        v,
                        done,
                    );
                }
                return done;
            },
            None => {},
        }
        false
    }
}

/// The layers of a model, between its embedding table and its last normalization.
pub struct LlamaModel {
    pub vocab_size: i32,
    pub num_hidden_layers: i32,
    pub embed_tokens: AnyEmbedding,
    pub layers: Vec<TransformerBlock>,
    pub norm: RmsNorm,
}

impl LlamaModel {
    /// Whether these are the fresh layers of a model.
    pub open spec fn is_fresh(&self, args: &ModelArgs) -> bool {
        &&& self.vocab_size == args.vocab_size
        &&& self.num_hidden_layers == args.num_hidden_layers
        &&& table_built(Ok(self.embed_tokens@), args.vocab_size, args.hidden_size)
        &&& self.layers@.len() == layer_count(args.num_hidden_layers)
        &&& forall|i: int|
            0 <= i < self.layers@.len() ==> (#[trigger] self.layers@[i]).is_fresh(args)
        &&& self.norm.is_fresh(args.hidden_size, Scalar::Lit(args.rms_norm_eps))
    }

    /// Whether the layers cannot be built.
    pub open spec fn cannot_build(args: &ModelArgs, e: Exception) -> bool {
        ||| table_built(Err(e), args.vocab_size, args.hidden_size)
        ||| args.num_hidden_layers > 0 && TransformerBlock::cannot_build(args, e)
        ||| RmsNorm::cannot_build(args.hidden_size, e)
    }

    /// The hidden states behind all layers, and the caches.
    pub open spec fn run<C: FreshCache>(
        &self,
        ids: Term,
        mask: Option<Term>,
        slots: Seq<Option<C::State>>,
        pads: Option<Term>,
    ) -> (Tn, Seq<Option<C::State>>) {
        let (h, after) = run_decoder::<TransformerBlock, C>(
            self.layers@,
            t_embed(self.embed_tokens@, ids),
            mask,
            slots,
            pads,
        );
        (self.norm.apply(h), after)
    }

    /// Fresh layers.
    pub fn new(args: &ModelArgs) -> (r: Result<LlamaModel, Exception>)
        requires
            args.vocab_size > 0,
            attention_ready(args),
        ensures
            match r {
                Ok(m) => m.is_fresh(args),
                Err(e) => LlamaModel::cannot_build(args, e),
            },
    {
        let embed_tokens = AnyEmbedding::embedding(args.vocab_size, args.hidden_size)?;
        let mut layers: Vec<TransformerBlock> = Vec::new();
        let mut i: i32 = 0;
        while i < args.num_hidden_layers
            invariant
                0 <= i,
                i <= args.num_hidden_layers || i == 0,
                attention_ready(args),
                layers@.len() == i,
                forall|j: int| 0 <= j < i ==> (#[trigger] layers@[j]).is_fresh(args),
            decreases args.num_hidden_layers - i,
        {
            layers.push(TransformerBlock::new(args)?);
            i += 1;
        }
        let norm = RmsNorm::new(args.hidden_size, Scalar::Lit(args.rms_norm_eps))?;
        Ok(
            LlamaModel {
                vocab_size: args.vocab_size,
                num_hidden_layers: args.num_hidden_layers,
                embed_tokens,
                layers,
                norm,
            },
        )
    }

    /// Runs token ids through all layers.
    pub fn forward<C: FreshCache>(&self, input: ModelInput<'_, C>) -> (r: Result<Array, Exception>)
        ensures
            (tn(r), slot_states((*final(input.cache))@)) == self.run::<C>(
                input.inputs@,
                opt_ref_term(input.mask),
                slot_states(old(input.cache)@),
                opt_ref_term(input.pad_offsets),
            ),
    {
        let ModelInput { inputs, mask, cache, pad_offsets } = input;
        let h = self.embed_tokens.forward(inputs)?;
        let h = forward_decoder(&self.layers, h, mask, cache, pad_offsets)?;
        self.norm.forward(&h)
    }
}

impl Quantizable for LlamaModel {
    open spec fn packs_to(
        self,
        group_size: i32,
        bits: i32,
        out: Result<LlamaModel, Exception>,
    ) -> bool {
        match out {
            Ok(a) => {
                &&& self.embed_tokens.packs_to(group_size, bits, Ok(a.embed_tokens))
                &&& self.layers.packs_to(group_size, bits, Ok(a.layers))
                &&& a == (LlamaModel { embed_tokens: a.embed_tokens, layers: a.layers, ..self })
            },
            Err(e) => {
                ||| self.embed_tokens.packs_to(group_size, bits, Err(e))
                ||| self.layers.packs_to(group_size, bits, Err(e))
            },
        }
    }

    fn quantize(self, group_size: i32, bits: i32) -> Result<LlamaModel, Exception> {
        let embed_tokens = self.embed_tokens.quantize(group_size, bits)?;
        let layers = self.layers.quantize(group_size, bits)?;
        Ok(
            LlamaModel {
                embed_tokens,
                layers,
                vocab_size: self.vocab_size,
                num_hidden_layers: self.num_hidden_layers,
                norm: self.norm,
            },
        )
    }
}

impl Parameters for LlamaModel {
    type Frame = (
        i32,
        i32,
        LeafFrame,
        <Vec<TransformerBlock> as Parameters>::Frame,
        <RmsNorm as Parameters>::Frame,
    );

    open spec fn frame(&self) -> Self::Frame {
        (
            self.vocab_size,
            self.num_hidden_layers,
            self.embed_tokens.frame(),
            self.layers.frame(),
            self.norm.frame(),
        )
    }

    open spec fn param(&self, key: Seq<char>) -> Option<Term> {
        if begins(key, "embed_tokens."@) {
            self.embed_tokens.param(key.skip("embed_tokens."@.len() as int))
        } else if begins(key, "layers."@) {
            self.layers.param(key.skip("layers."@.len() as int))
        } else if begins(key, "norm."@) {
            self.norm.param(key.skip("norm."@.len() as int))
        } else {
            None
        }
    }

    fn has_param(&self, key: &str) -> bool {
        match strip_prefix(key, "embed_tokens.") {
            Some(rest) => {
                return self.embed_tokens.has_param(rest);
            },
            None => {},
        }
        match strip_prefix(key, "layers.") {
            Some(rest) => {
                return self.layers.has_param(rest);
            },
            None => {},
        }
        match strip_prefix(key, "norm.") {
            Some(rest) => {
                return self.norm.has_param(rest);
            },
            None => {},
        }
        false
    }

    fn set_param(&mut self, key: &str, value: Array) -> bool {
        let ghost before = *self;
        match strip_prefix(key, "embed_tokens.") {
            Some(rest) => {
                let ghost v = value@;
                let done = self.embed_tokens.set_param(rest, value);
                proof {
                    lemma_part(
                        before.embed_tokens,
                        self.embed_tokens,
                        key@,
                        "embed_tokens."@,
                        v,
                        done,
                    );
                }
                return done;
            },
            None => {},
        }
        match strip_prefix(key, "layers.") {
            Some(rest) => {
                let ghost v = value@;
                let done = self.layers.set_param(rest, value);
                proof {
                    lemma_part(before.layers, self.layers, key@, "layers."@, v, done);
                }
                return done;
            },
            None => {},
        }
        match strip_prefix(key, "norm.") {
            Some(rest) => {
                let ghost v = value@;
                let done = self.norm.set_param(rest, value);
                proof {
                    lemma_part(before.norm, self.norm, key@, "norm."@, v, done);
                }
                return done;
            },
            None => {},
        }
        false
    }
}

/// A language model.
pub struct Model {
    pub args: ModelArgs,
    pub model: LlamaModel,
    pub lm_head: Option<AnyLinear>,
}

impl Model {
    /// Whether this is a fresh model.
    pub open spec fn is_fresh(&self) -> bool {
        &&& self.model.is_fresh(&self.args)
        &&& self.lm_head is None == self.args.tie_word_embeddings
        &&& self.lm_head matches Some(l) ==> linear_built(
            Ok(l@),
            self.args.hidden_size,
            self.args.vocab_size,
            false,
        )
    }

    /// Whether a model cannot be built.
    pub open spec fn cannot_build(args: &ModelArgs, e: Exception) -> bool {
        ||| LlamaModel::cannot_build(args, e)
        ||| !args.tie_word_embeddings && linear_built(
            Err(e),
            args.hidden_size,
            args.vocab_size,
            false,
        )
    }

    /// A fresh model.
    pub fn new(args: ModelArgs) -> (r: Result<Model, Exception>)
        requires
            args.vocab_size > 0,
            attention_ready(&args),
        ensures
            match r {
                Ok(m) => m.args == args && m.is_fresh(),
                Err(e) => Model::cannot_build(&args, e),
            },
    {
        let model = LlamaModel::new(&args)?;
        let lm_head = if !args.tie_word_embeddings {
            Some(AnyLinear::linear(args.hidden_size, args.vocab_size, false)?)
        } else {
            None
        };
        Ok(Model { args, model, lm_head })
    }

    /// The name of the model family.
    pub fn model_type(&self) -> (r: &str)
        ensures
            r@ == self.args.model_type@,
    {
        self.args.model_type.as_str()
    }
}

impl<C: FreshCache> LanguageModel<C> for Model {
    open spec fn run(
        &self,
        ids: Term,
        mask: Option<Term>,
        slots: Seq<Option<C::State>>,
        pads: Option<Term>,
    ) -> (Tn, Seq<Option<C::State>>) {
        let (h, after) = self.model.run::<C>(ids, mask, slots, pads);
        (logits_of(self.lm_head, self.model.embed_tokens, h), after)
    }

    fn forward(&self, input: ModelInput<'_, C>) -> Result<Array, Exception> {
        let out = self.model.forward(input)?;
        to_logits(&self.lm_head, &self.model.embed_tokens, &out)
    }
}

impl Quantizable for Model {
    open spec fn packs_to(self, group_size: i32, bits: i32, out: Result<Model, Exception>) -> bool {
        match out {
            Ok(a) => {
                &&& self.model.packs_to(group_size, bits, Ok(a.model))
                &&& self.lm_head.packs_to(group_size, bits, Ok(a.lm_head))
                &&& a == (Model { model: a.model, lm_head: a.lm_head, ..self })
            },
            Err(e) => {
                ||| self.model.packs_to(group_size, bits, Err(e))
                ||| self.lm_head.packs_to(group_size, bits, Err(e))
            },
        }
    }

    fn quantize(self, group_size: i32, bits: i32) -> Result<Model, Exception> {
        let model = self.model.quantize(group_size, bits)?;
        let lm_head = self.lm_head.quantize(group_size, bits)?;
        Ok(Model { model, lm_head, args: self.args })
    }
}

impl Parameters for Model {
    type Frame = (ModelArgs, <LlamaModel as Parameters>::Frame, Option<LeafFrame>);

    open spec fn frame(&self) -> Self::Frame {
        (self.args, self.model.frame(), self.lm_head.frame())
    }

    open spec fn param(&self, key: Seq<char>) -> Option<Term> {
        if begins(key, "model."@) {
            self.model.param(key.skip("model."@.len() as int))
        } else if begins(key, "lm_head."@) {
            self.lm_head.param(key.skip("lm_head."@.len() as int))
        } else {
            None
        }
    }

    fn has_param(&self, key: &str) -> bool {
        match strip_prefix(key, "model.") {
            Some(rest) => {
                return self.model.has_param(rest);
            },
            None => {},
        }
        match strip_prefix(key, "lm_head.") {
            Some(rest) => {
                return self.lm_head.has_param(rest);
            },
            None => {},
        }
        false
    }

    fn set_param(&mut self, key: &str, value: Array) -> bool {
        let ghost before = *self;
        match strip_prefix(key, "model.") {
            Some(rest) => {
                let ghost v = value@;
                let done = self.model.set_param(rest, value);
                proof {
                    lemma_part(before.model, self.model, key@, "model."@, v, done);
                }
                return done;
            },
            None => {},
        }
        match strip_prefix(key, "lm_head.") {
            Some(rest) => {
                let ghost v = value@;
                let done = self.lm_head.set_param(rest, value);
                proof {
                    lemma_part(before.lm_head, self.lm_head, key@, "lm_head."@, v, done);
                }
                return done;
            },
            None => {},
        }
        false
    }
}

/// Whether `r` is the model that checkpoints of this configuration are put into: a fresh model,
/// packed where the configuration says so.
pub open spec fn built(args: ModelArgs, r: Result<Model, Exception>) -> bool {
    match r {
        Ok(m) => exists|f: Model|
            f.args == args && #[trigger] f.is_fresh() && match args.quantization {
                Some(q) => f.packs_to(q.group_size, q.bits, Ok(m)),
                None => m == f,
            },
        Err(e) => Model::cannot_build(&args, e) || exists|f: Model|
            f.args == args && #[trigger] f.is_fresh() && match args.quantization {
                Some(q) => f.packs_to(q.group_size, q.bits, Err(e)),
                None => false,
            },
    }
}

/// Builds the model that checkpoints of this configuration are put into.
pub fn build_qwen2_model(args: ModelArgs) -> (r: Result<Model, Exception>)
    requires
        args.vocab_size > 0,
        attention_ready(&args),
    ensures
        built(args, r),
{
    let quantization = args.quantization;
    let model = Model::new(args)?;
    proof {
        assert(model.is_fresh());
    }
    match quantization {
        Some(q) => model.quantize(q.group_size, q.bits),
        None => Ok(model),
    }
}

/// Builds the model of a configuration and puts the files of a checkpoint into it, counting for
/// each file the arrays that found a place.
pub fn load_qwen2_model(args: ModelArgs, files: &Vec<Vec<(String, Array)>>) -> (r: Result<
    (Model, Vec<usize>),
    Exception,
>)
    requires
        args.vocab_size > 0,
        attention_ready(&args),
    ensures
        match r {
            Ok((m, counts)) => exists|f: Model| #[trigger]
                built(args, Ok(f)) && loaded_from(
                    Remap::ScaledWeightAndBias,
                    f,
                    file_entries(files@),
                    m,
                    counts@,
                ),
            Err(e) => built(args, Err(e)),
        },
{
    let mut model = build_qwen2_model(args)?;
    let ghost fresh = model;
    let counts = load_files(&mut model, files, Remap::ScaledWeightAndBias);
    proof {
        assert(built(args, Ok(fresh)));
    }
    Ok((model, counts))
}

/// A generator of this model.
pub type Generate<'a, C> = crate::models::generate::Generate<'a, Model, C>;

} // verus!
