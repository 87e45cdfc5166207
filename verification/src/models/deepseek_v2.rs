//! DeepSeek-V2: attention on compressed keys and values, routed experts beside shared ones.
//!
//! Keys and values come out of one small latent vector a position; the part of a key that is turned
//! by its position is shared by all heads.


use crate::array::{opt_ref_term, tn, Array, Term, Tn};
use crate::cache::{slot_states, FreshCache, KeyValueCache};
use crate::error::Exception;
use crate::fast::{array_mask, scaled_dot_product_attention_device, t_attention};
use crate::models::decoder::{forward_decoder, run_decoder, DecoderLayer as Layer};
use crate::models::generate::LanguageModel;
use crate::models::qwen3::{
    layer_count, logits_of, product_fits, to_logits, QuantizationConfig,
};
use crate::models::qwen3_5::{heads_first, power_minus_half, power_minus_half_of};
use crate::models::qwen3_moe::{
    best_experts, blend, blended, expert_packing, pick_experts, SwitchGlu,
};
use crate::nn::{
    table_built, linear_built, t_embed, t_linear, AnyEmbedding, AnyLinear, Quantizable, RmsNorm,
};
use crate::ops::create::t_scalar;
use crate::ops::elementwise::{t_add, t_multiply, t_silu};
use crate::ops::layout::{t_broadcast_to, t_reshape, t_transpose};
use crate::ops::reduce::{softmax_axis, t_softmax};
use crate::ops::select::{
    concatenate_axis, t_concatenate, t_slice, t_take_along, take_along_axis,
};
use crate::params::{lemma_part, LeafFrame, Parameters};
use crate::scalar::{Float, Scalar, ONE_BITS};
use crate::text::{begins, strip_prefix};
use crate::utils::attention::{all_positions, explicit_mask, from_heads, join_heads};
use crate::utils::rope::{
    initialize_rope, rope_built, RopeVariant, ScalingConfig,
};
use crate::weights::{file_entries, load_files, loaded_from, Remap};
use vstd::prelude::*;

pub use crate::models::decoder::{AttentionInput, ModelInput};
pub use crate::models::generate::GenerateState;

verus! {

/// The configuration of a model.
pub struct ModelArgs {
    pub model_type: String,
    pub hidden_size: i32,
    pub num_hidden_layers: i32,
    pub intermediate_size: i32,
    pub num_attention_heads: i32,
    pub num_key_value_heads: i32,
    pub rms_norm_eps: Float,
    pub vocab_size: i32,
    pub rope_theta: Float,
    pub max_position_embeddings: i32,
    pub tie_word_embeddings: bool,
    /// The size of the latent vector of a query; none where queries are projected at once.
    pub q_lora_rank: Option<i32>,
    pub kv_lora_rank: i32,
    pub qk_nope_head_dim: i32,
    pub qk_rope_head_dim: i32,
    pub v_head_dim: i32,
    pub attention_bias: bool,
    pub n_routed_experts: i32,
    pub num_experts_per_tok: i32,
    pub moe_intermediate_size: i32,
    pub n_shared_experts: i32,
    /// The number of leading layers without routed experts.
    pub first_k_dense_layers: i32,
    pub moe_layer_freq: i32,
    pub routed_scaling_factor: Float,
    pub rope_scaling: Option<ScalingConfig>,
    pub quantization: Option<QuantizationConfig>,
}

/// The number of positions where none is set.
pub fn d_max_pos() -> (r: i32)
    ensures
        r == 4096,
{
    4096
}

/// The value of a switch that is on unless it is set otherwise.
pub fn d_true() -> (r: bool)
    ensures
        r,
{
    true
}

/// The value of a count that is one unless it is set otherwise.
pub fn d_one_i() -> (r: i32)
    ensures
        r == 1,
{
    1
}

/// The value of a factor that is one unless it is set otherwise.
pub fn d_one_f32() -> (r: Float)
    ensures
        r == (Float { bits: ONE_BITS }),
{
    Float { bits: ONE_BITS }
}

impl ModelArgs {
    /// Whether layer `i` has routed experts: there are some, the leading layers are past, and the
    /// number of the layer is a multiple of the step.
    pub open spec fn moe(&self, i: int) -> bool {
        &&& self.n_routed_experts > 0
        &&& i >= self.first_k_dense_layers
        &&& i % (self.moe_layer_freq as int) == 0
    }

    /// Whether layer `layer_idx` has routed experts.
    pub fn is_moe(&self, layer_idx: i32) -> (r: bool)
        requires
            self.n_routed_experts > 0 && layer_idx >= self.first_k_dense_layers
                ==> self.moe_layer_freq != 0,
            0 <= layer_idx,
        ensures
            r == self.moe(layer_idx as int),
    {
        self.n_routed_experts > 0 && layer_idx >= self.first_k_dense_layers && layer_idx
            % self.moe_layer_freq == 0
    }
}

/// Attention on compressed keys and values.
pub struct MlaAttention {
    pub num_heads: i32,
    pub qk_nope_head_dim: i32,
    pub qk_rope_head_dim: i32,
    pub q_head_dim: i32,
    pub v_head_dim: i32,
    pub kv_lora_rank: i32,
    pub scale: Scalar,
    pub q_proj: Option<AnyLinear>,
    pub q_a_proj: Option<AnyLinear>,
    pub q_a_layernorm: Option<RmsNorm>,
    pub q_b_proj: Option<AnyLinear>,
    pub kv_a_proj_with_mqa: AnyLinear,
    pub kv_a_layernorm: RmsNorm,
    pub kv_b_proj: AnyLinear,
    pub o_proj: AnyLinear,
    pub rope: RopeVariant,
}

/// Whether a sum fits a dimension.
pub open spec fn sum_fits(a: i32, b: i32) -> bool {
    i32::MIN <= a + b <= i32::MAX
}

/// Whether queries go through a latent vector.
pub open spec fn low_rank(args: &ModelArgs) -> Option<i32> {
    match args.q_lora_rank {
        Some(r) if r > 0 => Some(r),
        _ => None,
    }
}

/// Whether the layers of a model can be laid out.
pub open spec fn layers_ready(args: &ModelArgs) -> bool {
    &&& sum_fits(args.qk_nope_head_dim, args.qk_rope_head_dim)
    &&& product_fits(
        args.num_attention_heads,
        (args.qk_nope_head_dim + args.qk_rope_head_dim) as i32,
    )
    &&& sum_fits(args.kv_lora_rank, args.qk_rope_head_dim)
    &&& sum_fits(args.qk_nope_head_dim, args.v_head_dim)
    &&& product_fits(
        args.num_attention_heads,
        (args.qk_nope_head_dim + args.v_head_dim) as i32,
    )
    &&& product_fits(args.num_attention_heads, args.v_head_dim)
    &&& product_fits(args.moe_intermediate_size, args.n_shared_experts)
}

/// Whether the layers with routed experts can be told from the others.
pub open spec fn experts_ready(args: &ModelArgs) -> bool {
    args.n_routed_experts > 0 && layer_count(args.num_hidden_layers) > args.first_k_dense_layers
        ==> args.moe_layer_freq != 0
}

impl MlaAttention {
    /// Whether the projection of the queries is that of a fresh layer.
    pub open spec fn fresh_queries(&self, args: &ModelArgs) -> bool {
        let d = args.hidden_size;
        let qd = (args.qk_nope_head_dim + args.qk_rope_head_dim) as i32;
        let width = (args.num_attention_heads * qd) as i32;
        match low_rank(args) {
            Some(r) => {
                &&& self.q_proj is None
                &&& self.q_a_proj matches Some(l) && linear_built(
                    Ok(l@),
                    d,
                    r,
                    args.attention_bias,
                )
                &&& self.q_a_layernorm matches Some(n) && n.is_fresh(
                    r,
                    Scalar::Lit(args.rms_norm_eps),
                )
                &&& self.q_b_proj matches Some(l) && linear_built(Ok(l@), r, width, false)
            },
            None => {
                &&& self.q_proj matches Some(l) && linear_built(Ok(l@), d, width, false)
                &&& self.q_a_proj is None
                &&& self.q_a_layernorm is None
                &&& self.q_b_proj is None
            },
        }
    }

    /// Whether this is the attention of a fresh layer.
    pub open spec fn is_fresh(&self, args: &ModelArgs) -> bool {
        let d = args.hidden_size;
        let h = args.num_attention_heads;
        let qd = (args.qk_nope_head_dim + args.qk_rope_head_dim) as i32;
        let latent = (args.kv_lora_rank + args.qk_rope_head_dim) as i32;
        let kv = (h * ((args.qk_nope_head_dim + args.v_head_dim) as i32)) as i32;
        &&& self.num_heads == h
        &&& self.qk_nope_head_dim == args.qk_nope_head_dim
        &&& self.qk_rope_head_dim == args.qk_rope_head_dim
        &&& self.q_head_dim == qd
        &&& self.v_head_dim == args.v_head_dim
        &&& self.kv_lora_rank == args.kv_lora_rank
        &&& self.scale == power_minus_half(qd)
        &&& self.fresh_queries(args)
        &&& linear_built(Ok(self.kv_a_proj_with_mqa@), d, latent, args.attention_bias)
        &&& self.kv_a_layernorm.is_fresh(args.kv_lora_rank, Scalar::Lit(args.rms_norm_eps))
        &&& linear_built(Ok(self.kv_b_proj@), args.kv_lora_rank, kv, false)
        &&& linear_built(Ok(self.o_proj@), (h * args.v_head_dim) as i32, d, false)
        &&& rope_built(
            Ok(self.rope),
            args.qk_rope_head_dim,
            Scalar::Lit(args.rope_theta),
            false,
            args.rope_scaling,
        )
    }

    /// Whether the attention of a layer cannot be built.
    pub open spec fn cannot_build(args: &ModelArgs, e: Exception) -> bool {
        let d = args.hidden_size;
        let h = args.num_attention_heads;
        let qd = (args.qk_nope_head_dim + args.qk_rope_head_dim) as i32;
        let width = (h * qd) as i32;
        let latent = (args.kv_lora_rank + args.qk_rope_head_dim) as i32;
        let kv = (h * ((args.qk_nope_head_dim + args.v_head_dim) as i32)) as i32;
        ||| match low_rank(args) {
            Some(r) => {
                ||| linear_built(Err(e), d, r, args.attention_bias)
                ||| RmsNorm::cannot_build(r, e)
                ||| linear_built(Err(e), r, width, false)
            },
            None => linear_built(Err(e), d, width, false),
        }
        ||| linear_built(Err(e), d, latent, args.attention_bias)
        ||| linear_built(Err(e), args.kv_lora_rank, kv, false)
        ||| linear_built(Err(e), (h * args.v_head_dim) as i32, d, false)
        ||| RmsNorm::cannot_build(args.kv_lora_rank, e)
        ||| rope_built(
            Err(e),
            args.qk_rope_head_dim,
            Scalar::Lit(args.rope_theta),
            false,
            args.rope_scaling,
        )
    }

    /// Fresh attention.
    pub fn new(args: &ModelArgs) -> (r: Result<MlaAttention, Exception>)
        requires
            layers_ready(args),
        ensures
            match r {
                Ok(a) => a.is_fresh(args),
                Err(e) => MlaAttention::cannot_build(args, e),
            },
    {
        let d: i32 = args.hidden_size;
        let h: i32 = args.num_attention_heads;
        let q_head_dim: i32 = args.qk_nope_head_dim + args.qk_rope_head_dim;
        let eps = Scalar::Lit(args.rms_norm_eps);
        let rank: i32 = match args.q_lora_rank {
            Some(r) => r,
            None => 0,
        };
        let q_proj: Option<AnyLinear>;
        let q_a_proj: Option<AnyLinear>;
        let q_a_layernorm: Option<RmsNorm>;
        let q_b_proj: Option<AnyLinear>;
        if rank > 0 {
            q_proj = None;
            q_a_proj = Some(AnyLinear::linear(d, rank, args.attention_bias)?);
            q_a_layernorm = Some(RmsNorm::new(rank, eps.copy())?);
            q_b_proj = Some(AnyLinear::linear(rank, h * q_head_dim, false)?);
        } else {
            q_proj = Some(AnyLinear::linear(d, h * q_head_dim, false)?);
            q_a_proj = None;
            q_a_layernorm = None;
            q_b_proj = None;
        }
        let latent: i32 = args.kv_lora_rank + args.qk_rope_head_dim;
        let kv_a_proj_with_mqa = AnyLinear::linear(d, latent, args.attention_bias)?;
        let kv_width: i32 = h * (args.qk_nope_head_dim + args.v_head_dim);
        let kv_b_proj = AnyLinear::linear(args.kv_lora_rank, kv_width, false)?;
        let o_proj = AnyLinear::linear(h * args.v_head_dim, d, false)?;
        let rope = initialize_rope(
            args.qk_rope_head_dim,
            Scalar::Lit(args.rope_theta),
            false,
            &args.rope_scaling,
            args.max_position_embeddings,
        )?;
        let kv_a_layernorm = RmsNorm::new(args.kv_lora_rank, eps)?;
        Ok(
            MlaAttention {
                num_heads: h,
                qk_nope_head_dim: args.qk_nope_head_dim,
                qk_rope_head_dim: args.qk_rope_head_dim,
                q_head_dim,
                v_head_dim: args.v_head_dim,
                kv_lora_rank: args.kv_lora_rank,
                scale: power_minus_half_of(q_head_dim),
                q_proj,
                q_a_proj,
                q_a_layernorm,
                q_b_proj,
                kv_a_proj_with_mqa,
                kv_a_layernorm,
                kv_b_proj,
                o_proj,
                rope,
            },
        )
    }

    /// Whether the parts of queries, keys and values have sizes in range.
    pub open spec fn sizes_fit(&self) -> bool {
        &&& sum_fits(self.qk_nope_head_dim, self.qk_rope_head_dim)
        &&& sum_fits(self.qk_nope_head_dim, self.v_head_dim)
        &&& sum_fits(self.kv_lora_rank, self.qk_rope_head_dim)
    }

    /// The projection of the queries: at once, or through a normalized latent vector.
    pub open spec fn projected_queries(&self, x: Term) -> Tn {
        match (self.q_proj, self.q_a_proj, self.q_a_layernorm, self.q_b_proj) {
            (Some(q), _, _, _) => t_linear(q@, Ok(x)),
            (None, Some(a), Some(n), Some(b)) => t_linear(b@, n.apply(t_linear(a@, Ok(x)))),
            _ => Err(Exception::Operands),
        }
    }

    /// `n` heads of `d` features, before the positions.
    pub open spec fn headed(y: Tn, x: Term, n: i32, d: i32) -> Tn {
        t_transpose(t_reshape(y, seq![x.shape[0], x.shape[1], n, d]), heads_first())
    }

    /// The queries of every head: the part without positions, then the turned part.
    pub open spec fn queries(&self, x: Term, offset: i32) -> Tn {
        let nope = self.qk_nope_head_dim;
        let end = (nope + self.qk_rope_head_dim) as i32;
        let q = MlaAttention::headed(
            self.projected_queries(x),
            x,
            self.num_heads,
            self.q_head_dim,
        );
        t_concatenate(
            t_slice(q, 3, 0, nope),
            self.rope.apply(t_slice(q, 3, nope, end), offset),
            -1i32,
        )
    }

    /// The latent vector of every position, with the part of the key that is turned behind it.
    pub open spec fn latent(&self, x: Term) -> Tn {
        t_linear(self.kv_a_proj_with_mqa@, Ok(x))
    }

    /// The turned part of the keys, the same for all heads.
    pub open spec fn key_positions(&self, x: Term, offset: i32) -> Tn {
        let rank = self.kv_lora_rank;
        let turned = self.qk_rope_head_dim;
        t_broadcast_to(
            self.rope.apply(
                MlaAttention::headed(
                    t_slice(self.latent(x), 2, rank, (rank + turned) as i32),
                    x,
                    1,
                    turned,
                ),
                offset,
            ),
            seq![x.shape[0], self.num_heads, x.shape[1], turned],
        )
    }

    /// Keys and values of every head out of the latent vectors.
    pub open spec fn unpacked(&self, x: Term) -> Tn {
        MlaAttention::headed(
            t_linear(
                self.kv_b_proj@,
                self.kv_a_layernorm.apply(t_slice(self.latent(x), 2, 0, self.kv_lora_rank)),
            ),
            x,
            self.num_heads,
            (self.qk_nope_head_dim + self.v_head_dim) as i32,
        )
    }

    /// The keys of every head.
    pub open spec fn keys(&self, x: Term, offset: i32) -> Tn {
        t_concatenate(
            t_slice(self.unpacked(x), 3, 0, self.qk_nope_head_dim),
            self.key_positions(x, offset),
            -1i32,
        )
    }

    /// The values of every head.
    pub open spec fn values(&self, x: Term) -> Tn {
        let nope = self.qk_nope_head_dim;
        t_slice(self.unpacked(x), 3, nope, (nope + self.v_head_dim) as i32)
    }

    fn project_queries(&self, x: &Array) -> (r: Result<Array, Exception>)
        ensures
            tn(r) == self.projected_queries(x@),
    {
        match (&self.q_proj, &self.q_a_proj, &self.q_a_layernorm, &self.q_b_proj) {
            (Some(q), _, _, _) => q.forward(x),
            (None, Some(a), Some(n), Some(b)) => {
                let y = a.forward(x)?;
                let y = n.forward(&y)?;
                b.forward(&y)
            },
            _ => Err(Exception::Operands),
        }
    }

    fn split(y: &Array, x: &Array, n: i32, d: i32) -> (r: Result<Array, Exception>)
        requires
            x@.shape.len() >= 2,
        ensures
            tn(r) == MlaAttention::headed(Ok(y@), x@, n, d),
    {
        let shape: Vec<i32> = vec![x.shape()[0], x.shape()[1], n, d];
        let axes: Vec<i32> = vec![0, 2, 1, 3];
        proof {
            assert(shape@ =~= seq![x@.shape[0], x@.shape[1], n, d]);
            assert(axes@ =~= heads_first());
        }
        y.reshape(&shape)?.transpose_axes(axes)
    }

    fn build_queries(&self, x: &Array, offset: i32) -> (r: Result<Array, Exception>)
        requires
            x@.shape.len() >= 2,
            self.sizes_fit(),
        ensures
            tn(r) == self.queries(x@, offset),
    {
        let nope: i32 = self.qk_nope_head_dim;
        let q = self.project_queries(x)?;
        let q = MlaAttention::split(&q, x, self.num_heads, self.q_head_dim)?;
        let q_nope = q.slice(3, 0, nope)?;
        let q_pe = q.slice(3, nope, nope + self.qk_rope_head_dim)?;
        let q_pe = self.rope.forward(&q_pe, offset)?;
        concatenate_axis(&q_nope, &q_pe, -1)
    }

    fn build_keys_and_values(&self, x: &Array, offset: i32) -> (r: Result<
        (Array, Array),
        Exception,
    >)
        requires
            x@.shape.len() >= 2,
            self.sizes_fit(),
        ensures
            match r {
                Ok((k, v)) => self.keys(x@, offset) == Ok::<Term, Exception>(k@) && self.values(x@)
                    == Ok::<Term, Exception>(v@),
                Err(e) => e == Exception::Operands && (self.keys(x@, offset) is Err || self.values(
                    x@,
                ) is Err),
            },
    {
        let nope: i32 = self.qk_nope_head_dim;
        let turned: i32 = self.qk_rope_head_dim;
        let rank: i32 = self.kv_lora_rank;
        let spread: Vec<i32> = vec![x.shape()[0], self.num_heads, x.shape()[1], turned];
        proof {
            assert(spread@ =~= seq![x@.shape[0], self.num_heads, x@.shape[1], turned]);
        }
        let latent = self.kv_a_proj_with_mqa.forward(x)?;
        let compressed = latent.slice(2, 0, rank)?;
        let k_pe = latent.slice(2, rank, rank + turned)?;
        let k_pe = MlaAttention::split(&k_pe, x, 1, turned)?;
        let k_pe = self.rope.forward(&k_pe, offset)?.broadcast_to(&spread)?;
        let kv = self.kv_b_proj.forward(&self.kv_a_layernorm.forward(&compressed)?)?;
        let kv = MlaAttention::split(&kv, x, self.num_heads, nope + self.v_head_dim)?;
        let k_nope = kv.slice(3, 0, nope)?;
        let values = kv.slice(3, nope, nope + self.v_head_dim)?;
        let keys = concatenate_axis(&k_nope, &k_pe, -1)?;
        Ok((keys, values))
    }
}

/// The position that a run starts at.
pub open spec fn start_position<C: KeyValueCache>(cache: Option<C::State>) -> i32 {
    match cache {
        Some(s) => C::offset_of(s),
        None => 0,
    }
}

impl<C: KeyValueCache> Layer<C> for MlaAttention {
    open spec fn windowed(&self) -> bool {
        false
    }

    fn is_windowed(&self) -> bool {
        false
    }

    /// Pad offsets play no part here.
    open spec fn apply(
        &self,
        x: Term,
        mask: Option<Term>,
        cache: Option<C::State>,
        pads: Option<Term>,
    ) -> (Tn, Option<C::State>) {
        if x.shape.len() < 2 || !self.sizes_fit() {
            (Err(Exception::Operands), cache)
        } else {
            let offset = start_position::<C>(cache);
            match (self.queries(x, offset), self.keys(x, offset), self.values(x)) {
                (Ok(q), Ok(k), Ok(v)) => {
                    let (all_k, all_v, after) = all_positions::<C>(cache, Ok(q), Ok(k), Ok(v));
                    let attn = t_attention(
                        Ok(q),
                        all_k,
                        all_v,
                        self.scale,
                        array_mask(mask),
                        None,
                    );
                    (t_linear(self.o_proj@, join_heads(attn, x.shape[0], x.shape[1])), after)
                },
                _ => (Err(Exception::Operands), cache),
            }
        }
    }

    fn forward(&self, input: AttentionInput<'_, C>) -> Result<Array, Exception> {
        let AttentionInput { x, mask, cache, pad_offsets: _ } = input;
        let nope: i64 = self.qk_nope_head_dim as i64;
        let turned: i64 = self.qk_rope_head_dim as i64;
        let sums: [i64; 3] = [
            nope + turned,
            nope + self.v_head_dim as i64,
            self.kv_lora_rank as i64 + turned,
        ];
        if x.ndim() < 2 || sums[0] > 0x7fff_ffff || sums[0] < -0x8000_0000 || sums[1] > 0x7fff_ffff
            || sums[1] < -0x8000_0000 || sums[2] > 0x7fff_ffff || sums[2] < -0x8000_0000 {
            return Err(Exception::Operands);
        }
        let b: i32 = x.shape()[0];
        let l: i32 = x.shape()[1];
        let attn = match cache {
            Some(c) => {
                let offset: i32 = c.offset();
                let queries = self.build_queries(x, offset)?;
                let (keys, values) = self.build_keys_and_values(x, offset)?;
                let (keys, values) = c.update_and_fetch(keys, values)?;
                scaled_dot_product_attention_device(
                    &queries,
                    &keys,
                    &values,
                    self.scale.copy(),
                    explicit_mask(mask),
                    None,
                )?
            },
            None => {
                let queries = self.build_queries(x, 0)?;
                let (keys, values) = self.build_keys_and_values(x, 0)?;
                scaled_dot_product_attention_device(
                    &queries,
                    &keys,
                    &values,
                    self.scale.copy(),
                    explicit_mask(mask),
                    None,
                )?
            },
        };
        self.o_proj.forward(&from_heads(&attn, b, l)?)
    }
}

impl Quantizable for MlaAttention {
    open spec fn packs_to(
        self,
        group_size: i32,
        bits: i32,
        out: Result<MlaAttention, Exception>,
    ) -> bool {
        match out {
            Ok(a) => {
                &&& self.q_proj.packs_to(group_size, bits, Ok(a.q_proj))
                &&& self.q_a_proj.packs_to(group_size, bits, Ok(a.q_a_proj))
                &&& self.q_b_proj.packs_to(group_size, bits, Ok(a.q_b_proj))
                &&& self.kv_a_proj_with_mqa.packs_to(group_size, bits, Ok(a.kv_a_proj_with_mqa))
                &&& self.kv_b_proj.packs_to(group_size, bits, Ok(a.kv_b_proj))
                &&& self.o_proj.packs_to(group_size, bits, Ok(a.o_proj))
                &&& a == (MlaAttention {
                    q_proj: a.q_proj,
                    q_a_proj: a.q_a_proj,
                    q_b_proj: a.q_b_proj,
                    kv_a_proj_with_mqa: a.kv_a_proj_with_mqa,
                    kv_b_proj: a.kv_b_proj,
                    o_proj: a.o_proj,
                    ..self
                })
            },
            Err(e) => {
                ||| self.q_proj.packs_to(group_size, bits, Err(e))
                ||| self.q_a_proj.packs_to(group_size, bits, Err(e))
                ||| self.q_b_proj.packs_to(group_size, bits, Err(e))
                ||| self.kv_a_proj_with_mqa.packs_to(group_size, bits, Err(e))
                ||| self.kv_b_proj.packs_to(group_size, bits, Err(e))
                ||| self.o_proj.packs_to(group_size, bits, Err(e))
            },
        }
    }

    fn quantize(self, group_size: i32, bits: i32) -> Result<MlaAttention, Exception> {
        let q_proj = self.q_proj.quantize(group_size, bits)?;
        let q_a_proj = self.q_a_proj.quantize(group_size, bits)?;
        let q_b_proj = self.q_b_proj.quantize(group_size, bits)?;
        let kv_a_proj_with_mqa = self.kv_a_proj_with_mqa.quantize(group_size, bits)?;
        let kv_b_proj = self.kv_b_proj.quantize(group_size, bits)?;
        let o_proj = self.o_proj.quantize(group_size, bits)?;
        Ok(
            MlaAttention {
                q_proj,
                q_a_proj,
                q_b_proj,
                kv_a_proj_with_mqa,
                kv_b_proj,
                o_proj,
                num_heads: self.num_heads,
                qk_nope_head_dim: self.qk_nope_head_dim,
                qk_rope_head_dim: self.qk_rope_head_dim,
                q_head_dim: self.q_head_dim,
                v_head_dim: self.v_head_dim,
                kv_lora_rank: self.kv_lora_rank,
                scale: self.scale,
                q_a_layernorm: self.q_a_layernorm,
                kv_a_layernorm: self.kv_a_layernorm,
                rope: self.rope,
            },
        )
    }
}

impl Parameters for MlaAttention {
    type Frame = (
        i32,
        i32,
        i32,
        i32,
        i32,
        i32,
        Scalar,
        Option<LeafFrame>,
        Option<LeafFrame>,
        <Option<RmsNorm> as Parameters>::Frame,
        Option<LeafFrame>,
        LeafFrame,
        <RmsNorm as Parameters>::Frame,
        LeafFrame,
        LeafFrame,
        RopeVariant,
    );

    open spec fn frame(&self) -> Self::Frame {
        (
            self.num_heads,
            self.qk_nope_head_dim,
            self.qk_rope_head_dim,
            self.q_head_dim,
            self.v_head_dim,
            self.kv_lora_rank,
            self.scale,
            self.q_proj.frame(),
            self.q_a_proj.frame(),
            self.q_a_layernorm.frame(),
            self.q_b_proj.frame(),
            self.kv_a_proj_with_mqa.frame(),
            self.kv_a_layernorm.frame(),
            self.kv_b_proj.frame(),
            self.o_proj.frame(),
            self.rope,
        )
    }

    open spec fn param(&self, key: Seq<char>) -> Option<Term> {
        if begins(key, "q_proj."@) {
            self.q_proj.param(key.skip("q_proj."@.len() as int))
        } else if begins(key, "q_a_proj."@) {
            self.q_a_proj.param(key.skip("q_a_proj."@.len() as int))
        } else if begins(key, "q_a_layernorm."@) {
            self.q_a_layernorm.param(key.skip("q_a_layernorm."@.len() as int))
        } else if begins(key, "q_b_proj."@) {
            self.q_b_proj.param(key.skip("q_b_proj."@.len() as int))
        } else if begins(key, "kv_a_proj_with_mqa."@) {
            self.kv_a_proj_with_mqa.param(key.skip("kv_a_proj_with_mqa."@.len() as int))
        } else if begins(key, "kv_a_layernorm."@) {
            self.kv_a_layernorm.param(key.skip("kv_a_layernorm."@.len() as int))
        } else if begins(key, "kv_b_proj."@) {
            self.kv_b_proj.param(key.skip("kv_b_proj."@.len() as int))
        } else if begins(key, "o_proj."@) {
            self.o_proj.param(key.skip("o_proj."@.len() as int))
        } else {
            None
        }
    }

    fn has_param(&self, key: &str) -> bool {
        match strip_prefix(key, "q_proj.") {
            Some(rest) => {
                return self.q_proj.has_param(rest);
            },
            None => {},
        }
        match strip_prefix(key, "q_a_proj.") {
            Some(rest) => {
                return self.q_a_proj.has_param(rest);
            },
            None => {},
        }
        match strip_prefix(key, "q_a_layernorm.") {
            Some(rest) => {
                return self.q_a_layernorm.has_param(rest);
            },
            None => {},
        }
        match strip_prefix(key, "q_b_proj.") {
            Some(rest) => {
                return self.q_b_proj.has_param(rest);
            },
            None => {},
        }
        match strip_prefix(key, "kv_a_proj_with_mqa.") {
            Some(rest) => {
                return self.kv_a_proj_with_mqa.has_param(rest);
            },
            None => {},
        }
        match strip_prefix(key, "kv_a_layernorm.") {
            Some(rest) => {
                return self.kv_a_layernorm.has_param(rest);
            },
            None => {},
        }
        match strip_prefix(key, "kv_b_proj.") {
            Some(rest) => {
                return self.kv_b_proj.has_param(rest);
            },
            None => {},
        }
        match strip_prefix(key, "o_proj.") {
            Some(rest) => {
                return self.o_proj.has_param(rest);
            },
            None => {},
        }
        false
    }

    fn set_param(&mut self, key: &str, value: Array) -> bool {
        let ghost before = *self;
        match strip_prefix(key, "q_proj.") {
            Some(rest) => {
                let ghost v = value@;
                let done = self.q_proj.set_param(rest, value);
                proof {
                    lemma_part(before.q_proj, self.q_proj, key@, "q_proj."@, v, done);
                }
                return done;
            },
            None => {},
        }
        match strip_prefix(key, "q_a_proj.") {
            Some(rest) => {
                let ghost v = value@;
                let done = self.q_a_proj.set_param(rest, value);
                proof {
                    lemma_part(before.q_a_proj, self.q_a_proj, key@, "q_a_proj."@, v, done);
                }
                return done;
            },
            None => {},
        }
        match strip_prefix(key, "q_a_layernorm.") {
            Some(rest) => {
                let ghost v = value@;
                let done = self.q_a_layernorm.set_param(rest, value);
                proof {
                    lemma_part(
                        before.q_a_layernorm,
                        self.q_a_layernorm,
                        key@,
                        "q_a_layernorm."@,
                        v,
                        done,
                    );
                }
                return done;
            },
            None => {},
        }
        match strip_prefix(key, "q_b_proj.") {
            Some(rest) => {
                let ghost v = value@;
                let done = self.q_b_proj.set_param(rest, value);
                proof {
                    lemma_part(before.q_b_proj, self.q_b_proj, key@, "q_b_proj."@, v, done);
                }
                return done;
            },
            None => {},
        }
        match strip_prefix(key, "kv_a_proj_with_mqa.") {
            Some(rest) => {
                let ghost v = value@;
                let done = self.kv_a_proj_with_mqa.set_param(rest, value);
                proof {
                    lemma_part(
                        before.kv_a_proj_with_mqa,
                        self.kv_a_proj_with_mqa,
                        key@,
                        "kv_a_proj_with_mqa."@,
                        v,
                        done,
                    );
                }
                return done;
            },
            None => {},
        }
        match strip_prefix(key, "kv_a_layernorm.") {
            Some(rest) => {
                let ghost v = value@;
                let done = self.kv_a_layernorm.set_param(rest, value);
                proof {
                    lemma_part(
                        before.kv_a_layernorm,
                        self.kv_a_layernorm,
                        key@,
                        "kv_a_layernorm."@,
                        v,
                        done,
                    );
                }
                return done;
            },
            None => {},
        }
        match strip_prefix(key, "kv_b_proj.") {
            Some(rest) => {
                let ghost v = value@;
                let done = self.kv_b_proj.set_param(rest, value);
                proof {
                    lemma_part(before.kv_b_proj, self.kv_b_proj, key@, "kv_b_proj."@, v, done);
                }
                return done;
            },
            None => {},
        }
        match strip_prefix(key, "o_proj.") {
            Some(rest) => {
                let ghost v = value@;
                let done = self.o_proj.set_param(rest, value);
                proof {
                    lemma_part(before.o_proj, self.o_proj, key@, "o_proj."@, v, done);
                }
                return done;
            },
            None => {},
        }
        false
    }
}

/// A gated feed-forward layer: `down(silu(gate(x)) * up(x))`.
pub struct DeepseekV2MLP {
    pub gate_proj: AnyLinear,
    pub down_proj: AnyLinear,
    pub up_proj: AnyLinear,
}

impl DeepseekV2MLP {
    /// The layer applied to `x`.
    pub open spec fn apply(&self, x: Tn) -> Tn {
        t_linear(
            self.down_proj@,
            t_multiply(t_silu(t_linear(self.gate_proj@, x)), t_linear(self.up_proj@, x)),
        )
    }

    /// Whether this is a fresh layer.
    pub open spec fn is_fresh(&self, dim: i32, hidden_dim: i32) -> bool {
        &&& linear_built(Ok(self.gate_proj@), dim, hidden_dim, false)
        &&& linear_built(Ok(self.down_proj@), hidden_dim, dim, false)
        &&& linear_built(Ok(self.up_proj@), dim, hidden_dim, false)
    }

    /// Whether a layer cannot be built.
    pub open spec fn cannot_build(dim: i32, hidden_dim: i32, e: Exception) -> bool {
        ||| linear_built(Err(e), dim, hidden_dim, false)
        ||| linear_built(Err(e), hidden_dim, dim, false)
    }

    /// A fresh layer from `dim` features through `hidden_dim` and back.
    pub fn new(dim: i32, hidden_dim: i32) -> (r: Result<DeepseekV2MLP, Exception>)
        ensures
            match r {
                Ok(m) => m.is_fresh(dim, hidden_dim),
                Err(e) => DeepseekV2MLP::cannot_build(dim, hidden_dim, e),
            },
    {
        let gate_proj = AnyLinear::linear(dim, hidden_dim, false)?;
        let down_proj = AnyLinear::linear(hidden_dim, dim, false)?;
        let up_proj = AnyLinear::linear(dim, hidden_dim, false)?;
        Ok(DeepseekV2MLP { gate_proj, down_proj, up_proj })
    }

    /// Applies the layer.
    pub fn forward(&self, input: &Array) -> (r: Result<Array, Exception>)
        ensures
            tn(r) == self.apply(Ok(input@)),
    {
        let gate = self.gate_proj.forward(input)?.silu()?;
        let up = self.up_proj.forward(input)?;
        self.down_proj.forward(&gate.multiply(&up)?)
    }
}

impl Quantizable for DeepseekV2MLP {
    open spec fn packs_to(
        self,
        group_size: i32,
        bits: i32,
        out: Result<DeepseekV2MLP, Exception>,
    ) -> bool {
        match out {
            Ok(a) => {
                &&& self.gate_proj.packs_to(group_size, bits, Ok(a.gate_proj))
                &&& self.down_proj.packs_to(group_size, bits, Ok(a.down_proj))
                &&& self.up_proj.packs_to(group_size, bits, Ok(a.up_proj))
            },
            Err(e) => {
                ||| self.gate_proj.packs_to(group_size, bits, Err(e))
                ||| self.down_proj.packs_to(group_size, bits, Err(e))
                ||| self.up_proj.packs_to(group_size, bits, Err(e))
            },
        }
    }

    fn quantize(self, group_size: i32, bits: i32) -> Result<DeepseekV2MLP, Exception> {
        let gate_proj = self.gate_proj.quantize(group_size, bits)?;
        let down_proj = self.down_proj.quantize(group_size, bits)?;
        let up_proj = self.up_proj.quantize(group_size, bits)?;
        Ok(DeepseekV2MLP { gate_proj, down_proj, up_proj })
    }
}

impl Parameters for DeepseekV2MLP {
    type Frame = (LeafFrame, LeafFrame, LeafFrame);

    open spec fn frame(&self) -> Self::Frame {
        (self.gate_proj.frame(), self.down_proj.frame(), self.up_proj.frame())
    }

    open spec fn param(&self, key: Seq<char>) -> Option<Term> {
        if begins(key, "gate_proj."@) {
            self.gate_proj.param(key.skip("gate_proj."@.len() as int))
        } else if begins(key, "down_proj."@) {
            self.down_proj.param(key.skip("down_proj."@.len() as int))
        } else if begins(key, "up_proj."@) {
            self.up_proj.param(key.skip("up_proj."@.len() as int))
        } else {
            None
        }
    }

    fn has_param(&self, key: &str) -> bool {
        match strip_prefix(key, "gate_proj.") {
            Some(rest) => {
                return self.gate_proj.has_param(rest);
            },
            None => {},
        }
        match strip_prefix(key, "down_proj.") {
            Some(rest) => {
                return self.down_proj.has_param(rest);
            },
            None => {},
        }
        match strip_prefix(key, "up_proj.") {
            Some(rest) => {
                return self.up_proj.has_param(rest);
            },
            None => {},
        }
        false
    }

    fn set_param(&mut self, key: &str, value: Array) -> bool {
        let ghost before = *self;
        match strip_prefix(key, "gate_proj.") {
            Some(rest) => {
                let ghost v = value@;
                let done = self.gate_proj.set_param(rest, value);
                proof {
                    lemma_part(before.gate_proj, self.gate_proj, key@, "gate_proj."@, v, done);
                }
                return done;
            },
            None => {},
        }
        match strip_prefix(key, "down_proj.") {
            Some(rest) => {
                let ghost v = value@;
                let done = self.down_proj.set_param(rest, value);
                proof {
                    lemma_part(before.down_proj, self.down_proj, key@, "down_proj."@, v, done);
                }
                return done;
            },
            None => {},
        }
        match strip_prefix(key, "up_proj.") {
            Some(rest) => {
                let ghost v = value@;
                let done = self.up_proj.set_param(rest, value);
                proof {
                    lemma_part(before.up_proj, self.up_proj, key@, "up_proj."@, v, done);
                }
                return done;
            },
            None => {},
        }
        false
    }
}

/// A feed-forward layer of routed experts, beside experts that all tokens share.
pub struct DeepseekV2MoE {
    pub top_k: i32,
    pub num_experts: i32,
    pub routed_scaling_factor: Float,
    /// The router; it is never packed.
    pub gate: AnyLinear,
    pub switch_mlp: SwitchGlu,
    pub shared_experts: Option<DeepseekV2MLP>,
}

impl DeepseekV2MoE {
    /// The layer applied to `x`. Scores are scaled and not brought to a sum of one.
    pub open spec fn apply(&self, x: Tn) -> Tn {
        let gates = t_softmax(t_linear(self.gate@, x), -1i32, true);
        let picked = best_experts(gates, self.top_k, self.num_experts);
        let scores = t_multiply(
            t_take_along(gates, picked, -1i32),
            t_scalar(Scalar::Lit(self.routed_scaling_factor)),
        );
        let y = blended(self.switch_mlp.apply(x, picked), scores);
        match self.shared_experts {
            Some(s) => t_add(y, s.apply(x)),
            None => y,
        }
    }

    /// The width of the shared experts.
    pub open spec fn shared_width(args: &ModelArgs) -> i32 {
        (args.moe_intermediate_size * args.n_shared_experts) as i32
    }

    /// Whether this is a fresh layer.
    pub open spec fn is_fresh(&self, args: &ModelArgs) -> bool {
        let (group_size, bits) = expert_packing(args.quantization);
        &&& self.top_k == args.num_experts_per_tok
        &&& self.num_experts == args.n_routed_experts
        &&& self.routed_scaling_factor == args.routed_scaling_factor
        &&& linear_built(Ok(self.gate@), args.hidden_size, args.n_routed_experts, false)
        &&& self.switch_mlp.is_empty(group_size, bits)
        &&& self.shared_experts is Some == (args.n_shared_experts > 0)
        &&& self.shared_experts matches Some(m) ==> m.is_fresh(
            args.hidden_size,
            DeepseekV2MoE::shared_width(args),
        )
    }

    /// Whether a layer cannot be built.
    pub open spec fn cannot_build(args: &ModelArgs, e: Exception) -> bool {
        ||| linear_built(Err(e), args.hidden_size, args.n_routed_experts, false)
        ||| args.n_shared_experts > 0 && DeepseekV2MLP::cannot_build(
            args.hidden_size,
            DeepseekV2MoE::shared_width(args),
            e,
        )
    }

    /// A fresh layer.
    pub fn new(args: &ModelArgs) -> (r: Result<DeepseekV2MoE, Exception>)
        requires
            product_fits(args.moe_intermediate_size, args.n_shared_experts),
        ensures
            match r {
                Ok(m) => m.is_fresh(args),
                Err(e) => DeepseekV2MoE::cannot_build(args, e),
            },
    {
        let (group_size, bits): (i32, i32) = match args.quantization {
            Some(q) => (q.group_size, q.bits),
            None => (64, 4),
        };
        let gate = AnyLinear::linear(args.hidden_size, args.n_routed_experts, false)?;
        let shared_experts = if args.n_shared_experts > 0 {
            let width: i32 = args.moe_intermediate_size * args.n_shared_experts;
            Some(DeepseekV2MLP::new(args.hidden_size, width)?)
        } else {
            None
        };
        Ok(
            DeepseekV2MoE {
                top_k: args.num_experts_per_tok,
                num_experts: args.n_routed_experts,
                routed_scaling_factor: args.routed_scaling_factor,
                gate,
                switch_mlp: SwitchGlu::new(group_size, bits),
                shared_experts,
            },
        )
    }

    /// Applies the layer.
    pub fn forward(&self, x: &Array) -> (r: Result<Array, Exception>)
        ensures
            tn(r) == self.apply(Ok(x@)),
    {
        let gates = softmax_axis(&self.gate.forward(x)?, -1, true)?;
        let picked = pick_experts(&gates, self.top_k, self.num_experts)?;
        let factor = Array::from_scalar(Scalar::Lit(self.routed_scaling_factor));
        let scores = take_along_axis(&gates, &picked, -1)?.multiply(&factor)?;
        let y = self.switch_mlp.forward(x, &picked)?;
        let y = blend(&y, &scores)?;
        match &self.shared_experts {
            Some(s) => y.add(&s.forward(x)?),
            None => Ok(y),
        }
    }
}

impl Quantizable for DeepseekV2MoE {
    open spec fn packs_to(
        self,
        group_size: i32,
        bits: i32,
        out: Result<DeepseekV2MoE, Exception>,
    ) -> bool {
        match out {
            Ok(a) => {
                &&& self.shared_experts.packs_to(group_size, bits, Ok(a.shared_experts))
                &&& a == (DeepseekV2MoE { shared_experts: a.shared_experts, ..self })
            },
            Err(e) => {
                ||| self.shared_experts.packs_to(group_size, bits, Err(e))
            },
        }
    }

    fn quantize(self, group_size: i32, bits: i32) -> Result<DeepseekV2MoE, Exception> {
        let shared_experts = self.shared_experts.quantize(group_size, bits)?;
        Ok(
            DeepseekV2MoE {
                shared_experts,
                top_k: self.top_k,
                num_experts: self.num_experts,
                routed_scaling_factor: self.routed_scaling_factor,
                gate: self.gate,
                switch_mlp: self.switch_mlp,
            },
        )
    }
}

impl Parameters for DeepseekV2MoE {
    type Frame = (
        i32,
        i32,
        Float,
        LeafFrame,
        <SwitchGlu as Parameters>::Frame,
        <Option<DeepseekV2MLP> as Parameters>::Frame,
    );

    open spec fn frame(&self) -> Self::Frame {
        (
            self.top_k,
            self.num_experts,
            self.routed_scaling_factor,
            self.gate.frame(),
            self.switch_mlp.frame(),
            self.shared_experts.frame(),
        )
    }

    open spec fn param(&self, key: Seq<char>) -> Option<Term> {
        if begins(key, "gate."@) {
            self.gate.param(key.skip("gate."@.len() as int))
        } else if begins(key, "switch_mlp."@) {
            self.switch_mlp.param(key.skip("switch_mlp."@.len() as int))
        } else if begins(key, "shared_experts."@) {
            self.shared_experts.param(key.skip("shared_experts."@.len() as int))
        } else {
            None
        }
    }

    fn has_param(&self, key: &str) -> bool {
        match strip_prefix(key, "gate.") {
            Some(rest) => {
                return self.gate.has_param(rest);
            },
            None => {},
        }
        match strip_prefix(key, "switch_mlp.") {
            Some(rest) => {
                return self.switch_mlp.has_param(rest);
            },
            None => {},
        }
        match strip_prefix(key, "shared_experts.") {
            Some(rest) => {
                return self.shared_experts.has_param(rest);
            },
            None => {},
        }
        false
    }

    fn set_param(&mut self, key: &str, value: Array) -> bool {
        let ghost before = *self;
        match strip_prefix(key, "gate.") {
            Some(rest) => {
                let ghost v = value@;
                let done = self.gate.set_param(rest, value);
                proof {
                    lemma_part(before.gate, self.gate, key@, "gate."@, v, done);
                }
                return done;
            },
            None => {},
        }
        match strip_prefix(key, "switch_mlp.") {
            Some(rest) => {
                let ghost v = value@;
                let done = self.switch_mlp.set_param(rest, value);
                proof {
                    lemma_part(before.switch_mlp, self.switch_mlp, key@, "switch_mlp."@, v, done);
                }
                return done;
            },
            None => {},
        }
        match strip_prefix(key, "shared_experts.") {
            Some(rest) => {
                let ghost v = value@;
                let done = self.shared_experts.set_param(rest, value);
                proof {
                    lemma_part(
                        before.shared_experts,
                        self.shared_experts,
                        key@,
                        "shared_experts."@,
                        v,
                        done,
                    );
                }
                return done;
            },
            None => {},
        }
        false
    }
}

/// A layer: attention, then routed experts or a plain feed-forward part.
pub struct DecoderLayer {
    pub self_attn: MlaAttention,
    pub mlp_moe: Option<DeepseekV2MoE>,
    pub mlp_dense: Option<DeepseekV2MLP>,
    pub input_layernorm: RmsNorm,
    pub post_attention_layernorm: RmsNorm,
}

impl DecoderLayer {
    /// The feed-forward part applied to `x`.
    pub open spec fn fed(&self, x: Tn) -> Tn {
        match (x, self.mlp_moe, self.mlp_dense) {
            (Err(e), _, _) => Err(e),
            (Ok(_), Some(m), _) => m.apply(x),
            (Ok(_), None, Some(d)) => d.apply(x),
            (Ok(_), None, None) => Err(Exception::Operands),
        }
    }

    /// Whether this is a fresh layer `i`.
    pub open spec fn is_fresh(&self, args: &ModelArgs, i: int) -> bool {
        let eps = Scalar::Lit(args.rms_norm_eps);
        &&& self.self_attn.is_fresh(args)
        &&& if args.moe(i) {
            &&& self.mlp_dense is None
            &&& self.mlp_moe matches Some(m) && m.is_fresh(args)
        } else {
            &&& self.mlp_moe is None
            &&& self.mlp_dense matches Some(d) && d.is_fresh(
                args.hidden_size,
                args.intermediate_size,
            )
        }
        &&& self.input_layernorm.is_fresh(args.hidden_size, eps)
        &&& self.post_attention_layernorm.is_fresh(args.hidden_size, eps)
    }

    /// Whether layer `i` cannot be built.
    pub open spec fn cannot_build(args: &ModelArgs, i: int, e: Exception) -> bool {
        ||| if args.moe(i) {
            DeepseekV2MoE::cannot_build(args, e)
        } else {
            DeepseekV2MLP::cannot_build(args.hidden_size, args.intermediate_size, e)
        }
        ||| MlaAttention::cannot_build(args, e)
        ||| RmsNorm::cannot_build(args.hidden_size, e)
    }

    /// A fresh layer.
    pub fn new(args: &ModelArgs, layer_idx: i32) -> (r: Result<DecoderLayer, Exception>)
        requires
            layers_ready(args),
            0 <= layer_idx,
            args.n_routed_experts > 0 && layer_idx >= args.first_k_dense_layers
                ==> args.moe_layer_freq != 0,
        ensures
            match r {
                Ok(l) => l.is_fresh(args, layer_idx as int),
                Err(e) => DecoderLayer::cannot_build(args, layer_idx as int, e),
            },
    {
        let mlp_moe: Option<DeepseekV2MoE>;
        let mlp_dense: Option<DeepseekV2MLP>;
        if args.is_moe(layer_idx) {
            mlp_moe = Some(DeepseekV2MoE::new(args)?);
            mlp_dense = None;
        } else {
            mlp_moe = None;
            mlp_dense = Some(DeepseekV2MLP::new(args.hidden_size, args.intermediate_size)?);
        }
        let self_attn = MlaAttention::new(args)?;
        let eps = Scalar::Lit(args.rms_norm_eps);
        let input_layernorm = RmsNorm::new(args.hidden_size, eps.copy())?;
        let post_attention_layernorm = RmsNorm::new(args.hidden_size, eps)?;
        Ok(
            DecoderLayer {
                self_attn,
                mlp_moe,
                mlp_dense,
                input_layernorm,
                post_attention_layernorm,
            },
        )
    }

    fn feed(&self, x: &Array) -> (r: Result<Array, Exception>)
        ensures
            tn(r) == self.fed(Ok(x@)),
    {
        match (&self.mlp_moe, &self.mlp_dense) {
            (Some(m), _) => m.forward(x),
            (None, Some(d)) => d.forward(x),
            (None, None) => Err(Exception::Operands),
        }
    }
}

impl<C: KeyValueCache> Layer<C> for DecoderLayer {
    open spec fn windowed(&self) -> bool {
        false
    }

    fn is_windowed(&self) -> bool {
        false
    }

    open spec fn apply(
        &self,
        x: Term,
        mask: Option<Term>,
        cache: Option<C::State>,
        pads: Option<Term>,
    ) -> (Tn, Option<C::State>) {
        match self.input_layernorm.apply(Ok(x)) {
            Ok(n) => {
                let (r, after) = <MlaAttention as Layer<C>>::apply(
                    &self.self_attn,
                    n,
                    mask,
                    cache,
                    pads,
                );
                let h = t_add(Ok(x), r);
                (t_add(h, self.fed(self.post_attention_layernorm.apply(h))), after)
            },
            Err(e) => (Err(e), cache),
        }
    }

    fn forward(&self, input: AttentionInput<'_, C>) -> Result<Array, Exception> {
        let AttentionInput { x, mask, cache, pad_offsets } = input;
        let n = self.input_layernorm.forward(x)?;
        let r = self.self_attn.forward(AttentionInput { x: &n, mask, cache, pad_offsets })?;
        let h = x.add(&r)?;
        let r = self.feed(&self.post_attention_layernorm.forward(&h)?)?;
        h.add(&r)
    }
}

impl Quantizable for DecoderLayer {
    open spec fn packs_to(
        self,
        group_size: i32,
        bits: i32,
        out: Result<DecoderLayer, Exception>,
    ) -> bool {
        match out {
            Ok(a) => {
                &&& self.self_attn.packs_to(group_size, bits, Ok(a.self_attn))
                &&& self.mlp_moe.packs_to(group_size, bits, Ok(a.mlp_moe))
                &&& self.mlp_dense.packs_to(group_size, bits, Ok(a.mlp_dense))
                &&& a == (DecoderLayer {
                    self_attn: a.self_attn,
                    mlp_moe: a.mlp_moe,
                    mlp_dense: a.mlp_dense,
                    ..self
                })
            },
            Err(e) => {
                ||| self.self_attn.packs_to(group_size, bits, Err(e))
                ||| self.mlp_moe.packs_to(group_size, bits, Err(e))
                ||| self.mlp_dense.packs_to(group_size, bits, Err(e))
            },
        }
    }

    fn quantize(self, group_size: i32, bits: i32) -> Result<DecoderLayer, Exception> {
        let self_attn = self.self_attn.quantize(group_size, bits)?;
        let mlp_moe = self.mlp_moe.quantize(group_size, bits)?;
        let mlp_dense = self.mlp_dense.quantize(group_size, bits)?;
        Ok(
            DecoderLayer {
                self_attn,
                mlp_moe,
                mlp_dense,
                input_layernorm: self.input_layernorm,
                post_attention_layernorm: self.post_attention_layernorm,
            },
        )
    }
}

impl Parameters for DecoderLayer {
    type Frame = (
        <MlaAttention as Parameters>::Frame,
        <Option<DeepseekV2MoE> as Parameters>::Frame,
        <Option<DeepseekV2MLP> as Parameters>::Frame,
        <RmsNorm as Parameters>::Frame,
        <RmsNorm as Parameters>::Frame,
    );

    open spec fn frame(&self) -> Self::Frame {
        (
            self.self_attn.frame(),
            self.mlp_moe.frame(),
            self.mlp_dense.frame(),
            self.input_layernorm.frame(),
            self.post_attention_layernorm.frame(),
        )
    }

    open spec fn param(&self, key: Seq<char>) -> Option<Term> {
        if begins(key, "self_attn."@) {
            self.self_attn.param(key.skip("self_attn."@.len() as int))
        } else if begins(key, "mlp_moe."@) {
            self.mlp_moe.param(key.skip("mlp_moe."@.len() as int))
        } else if begins(key, "mlp_dense."@) {
            self.mlp_dense.param(key.skip("mlp_dense."@.len() as int))
        } else if begins(key, "input_layernorm."@) {
            self.input_layernorm.param(key.skip("input_layernorm."@.len() as int))
        } else if begins(key, "post_attention_layernorm."@) {
            self.post_attention_layernorm.param(key.skip("post_attention_layernorm."@.len() as int))
        } else {
            None
        }
    }

    fn has_param(&self, key: &str) -> bool {
        match strip_prefix(key, "self_attn.") {
            Some(rest) => {
                return self.self_attn.has_param(rest);
            },
            None => {},
        }
        match strip_prefix(key, "mlp_moe.") {
            Some(rest) => {
                return self.mlp_moe.has_param(rest);
            },
            None => {},
        }
        match strip_prefix(key, "mlp_dense.") {
            Some(rest) => {
                return self.mlp_dense.has_param(rest);
            },
            None => {},
        }
        match strip_prefix(key, "input_layernorm.") {
            Some(rest) => {
                return self.input_layernorm.has_param(rest);
            },
            None => {},
        }
        match strip_prefix(key, "post_attention_layernorm.") {
            Some(rest) => {
                return self.post_attention_layernorm.has_param(rest);
            },
            None => {},
        }
        false
    }

    fn set_param(&mut self, key: &str, value: Array) -> bool {
        let ghost before = *self;
        match strip_prefix(key, "self_attn.") {
            Some(rest) => {
                let ghost v = value@;
                let done = self.self_attn.set_param(rest, value);
                proof {
                    lemma_part(before.self_attn, self.self_attn, key@, "self_attn."@, v, done);
                }
                return done;
            },
            None => {},
        }
        match strip_prefix(key, "mlp_moe.") {
            Some(rest) => {
                let ghost v = value@;
                let done = self.mlp_moe.set_param(rest, value);
                proof {
                    lemma_part(before.mlp_moe, self.mlp_moe, key@, "mlp_moe."@, v, done);
                }
                return done;
            },
            None => {},
        }
        match strip_prefix(key, "mlp_dense.") {
            Some(rest) => {
                let ghost v = value@;
                let done = self.mlp_dense.set_param(rest, value);
                proof {
                    lemma_part(before.mlp_dense, self.mlp_dense, key@, "mlp_dense."@, v, done);
                }
                return done;
            },
            None => {},
        }
        match strip_prefix(key, "input_layernorm.") {
            Some(rest) => {
                let ghost v = value@;
                let done = self.input_layernorm.set_param(rest, value);
                proof {
                    lemma_part(
                        before.input_layernorm,
                        self.input_layernorm,
                        key@,
                        "input_layernorm."@,
                        v,
                        done,
                    );
                }
                return done;
            },
            None => {},
        }
        match strip_prefix(key, "post_attention_layernorm.") {
            Some(rest) => {
                let ghost v = value@;
                let done = self.post_attention_layernorm.set_param(rest, value);
                proof {
                    lemma_part(
                        before.post_attention_layernorm,
                        self.post_attention_layernorm,
                        key@,
                        "post_attention_layernorm."@,
                        v,
                        done,
                    );
                }
                return done;
            },
            None => {},
        }
        false
    }
}

/// The layers of a model, between its embedding table and its last normalization.
pub struct DeepseekV2Inner {
    pub num_hidden_layers: i32,
    pub embed_tokens: AnyEmbedding,
    pub layers: Vec<DecoderLayer>,
    pub norm: RmsNorm,
}

impl DeepseekV2Inner {
    /// Whether these are the fresh layers of a model.
    pub open spec fn is_fresh(&self, args: &ModelArgs) -> bool {
        &&& self.num_hidden_layers == args.num_hidden_layers
        &&& table_built(Ok(self.embed_tokens@), args.vocab_size, args.hidden_size)
        &&& self.layers@.len() == layer_count(args.num_hidden_layers)
        &&& forall|i: int|
            0 <= i < self.layers@.len() ==> (#[trigger] self.layers@[i]).is_fresh(args, i)
        &&& self.norm.is_fresh(args.hidden_size, Scalar::Lit(args.rms_norm_eps))
    }

    /// Whether the layers cannot be built.
    pub open spec fn cannot_build(args: &ModelArgs, e: Exception) -> bool {
        ||| table_built(Err(e), args.vocab_size, args.hidden_size)
        ||| exists|i: int|
            0 <= i < layer_count(args.num_hidden_layers) && #[trigger] DecoderLayer::cannot_build(
                args,
                i,
                e,
            )
        ||| RmsNorm::cannot_build(args.hidden_size, e)
    }

    /// The hidden states behind all layers, and the caches.
    pub open spec fn run<C: FreshCache>(
        &self,
        ids: Term,
        mask: Option<Term>,
        slots: Seq<Option<C::State>>,
        pads: Option<Term>,
    ) -> (Tn, Seq<Option<C::State>>) {
        let (h, after) = run_decoder::<DecoderLayer, C>(
            self.layers@,
            t_embed(self.embed_tokens@, ids),
            mask,
            slots,
            pads,
        );
        (self.norm.apply(h), after)
    }

    /// Fresh layers.
    pub fn new(args: &ModelArgs) -> (r: Result<DeepseekV2Inner, Exception>)
        requires
            layers_ready(args),
            experts_ready(args),
        ensures
            match r {
                Ok(m) => m.is_fresh(args),
                Err(e) => DeepseekV2Inner::cannot_build(args, e),
            },
    {
        let embed_tokens = AnyEmbedding::embedding(args.vocab_size, args.hidden_size)?;
        let mut layers: Vec<DecoderLayer> = Vec::new();
        let mut i: i32 = 0;
        while i < args.num_hidden_layers
            invariant
                0 <= i,
                i <= args.num_hidden_layers || i == 0,
                layers_ready(args),
                experts_ready(args),
                layers@.len() == i,
                forall|j: int| 0 <= j < i ==> (#[trigger] layers@[j]).is_fresh(args, j),
            decreases args.num_hidden_layers - i,
        {
            let layer = DecoderLayer::new(args, i);
            proof {
                match layer {
                    Ok(_) => {},
                    Err(e) => {
                        assert(DecoderLayer::cannot_build(args, i as int, e));
                    },
                }
            }
            layers.push(layer?);
            i += 1;
        }
        let norm = RmsNorm::new(args.hidden_size, Scalar::Lit(args.rms_norm_eps))?;
        Ok(
            DeepseekV2Inner {
                num_hidden_layers: args.num_hidden_layers,
                embed_tokens,
                layers,
                norm,
            },
        )
    }

    /// Runs token ids through all layers.
    pub fn forward<C: FreshCache>(&self, input: ModelInput<'_, C>) -> (r: Result<Array, Exception>)
        ensures
            (tn(r), slot_states((*final(input.cache))@)) == self.run::<C>(
                input.inputs@,
                opt_ref_term(input.mask),
                slot_states(old(input.cache)@),
                opt_ref_term(input.pad_offsets),
            ),
    {
        let ModelInput { inputs, mask, cache, pad_offsets } = input;
        let h = self.embed_tokens.forward(inputs)?;
        let h = forward_decoder(&self.layers, h, mask, cache, pad_offsets)?;
        self.norm.forward(&h)
    }
}

impl Quantizable for DeepseekV2Inner {
    open spec fn packs_to(
        self,
        group_size: i32,
        bits: i32,
        out: Result<DeepseekV2Inner, Exception>,
    ) -> bool {
        match out {
            Ok(a) => {
                &&& self.embed_tokens.packs_to(group_size, bits, Ok(a.embed_tokens))
                &&& self.layers.packs_to(group_size, bits, Ok(a.layers))
                &&& a == (DeepseekV2Inner {
                    embed_tokens: a.embed_tokens,
                    layers: a.layers,
                    ..self
                })
            },
            Err(e) => {
                ||| self.embed_tokens.packs_to(group_size, bits, Err(e))
                ||| self.layers.packs_to(group_size, bits, Err(e))
            },
        }
    }

    fn quantize(self, group_size: i32, bits: i32) -> Result<DeepseekV2Inner, Exception> {
        let embed_tokens = self.embed_tokens.quantize(group_size, bits)?;
        let layers = self.layers.quantize(group_size, bits)?;
        Ok(
            DeepseekV2Inner {
                embed_tokens,
                layers,
                num_hidden_layers: self.num_hidden_layers,
                norm: self.norm,
            },
        )
    }
}

impl Parameters for DeepseekV2Inner {
    type Frame = (
        i32,
        LeafFrame,
        <Vec<DecoderLayer> as Parameters>::Frame,
        <RmsNorm as Parameters>::Frame,
    );

    open spec fn frame(&self) -> Self::Frame {
        (
            self.num_hidden_layers,
            self.embed_tokens.frame(),
            self.layers.frame(),
            self.norm.frame(),
        )
    }

    open spec fn param(&self, key: Seq<char>) -> Option<Term> {
        if begins(key, "embed_tokens."@) {
            self.embed_tokens.param(key.skip("embed_tokens."@.len() as int))
        } else if begins(key, "layers."@) {
            self.layers.param(key.skip("layers."@.len() as int))
        } else if begins(key, "norm."@) {
            self.norm.param(key.skip("norm."@.len() as int))
        } else {
            None
        }
    }

    fn has_param(&self, key: &str) -> bool {
        match strip_prefix(key, "embed_tokens.") {
            Some(rest) => {
                return self.embed_tokens.has_param(rest);
            },
            None => {},
        }
        match strip_prefix(key, "layers.") {
            Some(rest) => {
                return self.layers.has_param(rest);
            },
            None => {},
        }
        match strip_prefix(key, "norm.") {
            Some(rest) => {
                return self.norm.has_param(rest);
            },
            None => {},
        }
        false
    }

    fn set_param(&mut self, key: &str, value: Array) -> bool {
        let ghost before = *self;
        match strip_prefix(key, "embed_tokens.") {
            Some(rest) => {
                let ghost v = value@;
                let done = self.embed_tokens.set_param(rest, value);
                proof {
                    lemma_part(
                        before.embed_tokens,
                        self.embed_tokens,
                        key@,
                        "embed_tokens."@,
                        v,
                        done,
                    );
                }
                return done;
            },
            None => {},
        }
        match strip_prefix(key, "layers.") {
            Some(rest) => {
                let ghost v = value@;
                let done = self.layers.set_param(rest, value);
                proof {
                    lemma_part(before.layers, self.layers, key@, "layers."@, v, done);
                }
                return done;
            },
            None => {},
        }
        match strip_prefix(key, "norm.") {
            Some(rest) => {
                let ghost v = value@;
                let done = self.norm.set_param(rest, value);
                proof {
                    lemma_part(before.norm, self.norm, key@, "norm."@, v, done);
                }
                return done;
            },
            None => {},
        }
        false
    }
}

/// A language model.
pub struct Model {
    pub args: ModelArgs,
    pub model: DeepseekV2Inner,
    pub lm_head: Option<AnyLinear>,
}

impl Model {
    /// Whether this is a fresh model.
    pub open spec fn is_fresh(&self) -> bool {
        &&& self.model.is_fresh(&self.args)
        &&& self.lm_head is None == self.args.tie_word_embeddings
        &&& self.lm_head matches Some(l) ==> linear_built(
            Ok(l@),
            self.args.hidden_size,
            self.args.vocab_size,
            false,
        )
    }

    /// Whether a model cannot be built.
    pub open spec fn cannot_build(args: &ModelArgs, e: Exception) -> bool {
        ||| DeepseekV2Inner::cannot_build(args, e)
        ||| !args.tie_word_embeddings && linear_built(
            Err(e),
            args.hidden_size,
            args.vocab_size,
            false,
        )
    }

    /// A fresh model.
    pub fn new(args: ModelArgs) -> (r: Result<Model, Exception>)
        requires
            layers_ready(&args),
        experts_ready(&args),
        ensures
            match r {
                Ok(m) => m.args == args && m.is_fresh(),
                Err(e) => Model::cannot_build(&args, e),
            },
    {
        let model = DeepseekV2Inner::new(&args)?;
        let lm_head = if !args.tie_word_embeddings {
            Some(AnyLinear::linear(args.hidden_size, args.vocab_size, false)?)
        } else {
            None
        };
        Ok(Model { args, model, lm_head })
    }

    /// The name of the model family.
    pub fn model_type(&self) -> (r: &str)
        ensures
            r@ == self.args.model_type@,
    {
        self.args.model_type.as_str()
    }
}

impl<C: FreshCache> LanguageModel<C> for Model {
    open spec fn run(
        &self,
        ids: Term,
        mask: Option<Term>,
        slots: Seq<Option<C::State>>,
        pads: Option<Term>,
    ) -> (Tn, Seq<Option<C::State>>) {
        let (h, after) = self.model.run::<C>(ids, mask, slots, pads);
        (logits_of(self.lm_head, self.model.embed_tokens, h), after)
    }

    fn forward(&self, input: ModelInput<'_, C>) -> Result<Array, Exception> {
        let out = self.model.forward(input)?;
        to_logits(&self.lm_head, &self.model.embed_tokens, &out)
    }
}

impl Quantizable for Model {
    open spec fn packs_to(self, group_size: i32, bits: i32, out: Result<Model, Exception>) -> bool {
        match out {
            Ok(a) => {
                &&& self.model.packs_to(group_size, bits, Ok(a.model))
                &&& self.lm_head.packs_to(group_size, bits, Ok(a.lm_head))
                &&& a == (Model { model: a.model, lm_head: a.lm_head, ..self })
            },
            Err(e) => {
                ||| self.model.packs_to(group_size, bits, Err(e))
                ||| self.lm_head.packs_to(group_size, bits, Err(e))
            },
        }
    }

    fn quantize(self, group_size: i32, bits: i32) -> Result<Model, Exception> {
        let model = self.model.quantize(group_size, bits)?;
        let lm_head = self.lm_head.quantize(group_size, bits)?;
        Ok(Model { model, lm_head, args: self.args })
    }
}

impl Parameters for Model {
    type Frame = (ModelArgs, <DeepseekV2Inner as Parameters>::Frame, Option<LeafFrame>);

    open spec fn frame(&self) -> Self::Frame {
        (self.args, self.model.frame(), self.lm_head.frame())
    }

    open spec fn param(&self, key: Seq<char>) -> Option<Term> {
        if begins(key, "model."@) {
            self.model.param(key.skip("model."@.len() as int))
        } else if begins(key, "lm_head."@) {
            self.lm_head.param(key.skip("lm_head."@.len() as int))
        } else {
            None
        }
    }

    fn has_param(&self, key: &str) -> bool {
        match strip_prefix(key, "model.") {
            Some(rest) => {
                return self.model.has_param(rest);
            },
            None => {},
        }
        match strip_prefix(key, "lm_head.") {
            Some(rest) => {
                return self.lm_head.has_param(rest);
            },
            None => {},
        }
        false
    }

    fn set_param(&mut self, key: &str, value: Array) -> bool {
        let ghost before = *self;
        match strip_prefix(key, "model.") {
            Some(rest) => {
                let ghost v = value@;
                let done = self.model.set_param(rest, value);
                proof {
                    lemma_part(before.model, self.model, key@, "model."@, v, done);
                }
                return done;
            },
            None => {},
        }
        match strip_prefix(key, "lm_head.") {
            Some(rest) => {
                let ghost v = value@;
                let done = self.lm_head.set_param(rest, value);
                proof {
                    lemma_part(before.lm_head, self.lm_head, key@, "lm_head."@, v, done);
                }
                return done;
            },
            None => {},
        }
        false
    }
}

/// Whether `r` is the model that checkpoints of this configuration are put into: a fresh model,
/// packed where the configuration says so.
pub open spec fn built(args: ModelArgs, r: Result<Model, Exception>) -> bool {
    match r {
        Ok(m) => exists|f: Model|
            f.args == args && #[trigger] f.is_fresh() && match args.quantization {
                Some(q) => f.packs_to(q.group_size, q.bits, Ok(m)),
                None => m == f,
            },
        Err(e) => Model::cannot_build(&args, e) || exists|f: Model|
            f.args == args && #[trigger] f.is_fresh() && match args.quantization {
                Some(q) => f.packs_to(q.group_size, q.bits, Err(e)),
                None => false,
            },
    }
}

/// Builds the model that checkpoints of this configuration are put into.
pub fn build_deepseek_v2_model(args: ModelArgs) -> (r: Result<Model, Exception>)
    requires
        layers_ready(&args),
        experts_ready(&args),
    ensures
        built(args, r),
{
    let quantization = args.quantization;
    let model = Model::new(args)?;
    proof {
        assert(model.is_fresh());
    }
    match quantization {
        Some(q) => model.quantize(q.group_size, q.bits),
        None => Ok(model),
    }
}

/// Builds the model of a configuration and puts the files of a checkpoint into it, counting for
/// each file the arrays that found a place.
pub fn load_deepseek_v2_model(args: ModelArgs, files: &Vec<Vec<(String, Array)>>) -> (r: Result<
    (Model, Vec<usize>),
    Exception,
>)
    requires
        layers_ready(&args),
        experts_ready(&args),
    ensures
        match r {
            Ok((m, counts)) => exists|f: Model| #[trigger]
                built(args, Ok(f)) && loaded_from(
                    Remap::RoutedInnerWeight,
                    f,
                    file_entries(files@),
                    m,
                    counts@,
                ),
            Err(e) => built(args, Err(e)),
        },
{
    let mut model = build_deepseek_v2_model(args)?;
    let ghost fresh = model;
    let counts = load_files(&mut model, files, Remap::RoutedInnerWeight);
    proof {
        assert(built(args, Ok(fresh)));
    }
    Ok((model, counts))
}

/// A generator of this model.
pub type Generate<'a, C> = crate::models::generate::Generate<'a, Model, C>;

} // verus!
