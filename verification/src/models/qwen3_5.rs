//! Qwen3.5: full attention with a gated output in every few layers, linear attention by the gated
//! delta rule in the others.
//!
//! The layers have caches of two sorts: keys and values behind full attention, and behind linear
//! attention the trailing inputs of the short convolution and the state of the recurrence.

use std::sync::Arc;

use crate::array::{opt_term, share_opt, terms, tn, Array, Dtype, Term, Tn};
use crate::cache::{
    borrowed_state, kv_arrays, kv_truncated, ConcatKeyValueCache, KeyValueCache, KvState,
};
use crate::error::Exception;
use crate::fast::{
    rms_norm_device, rms_norm_no_weight_device, t_rms_norm, MaskTerm, ScaledDotProductAttentionMask,
};
use crate::models::gated_delta::{gated_delta_update, updated};
use crate::models::hybrid::{lemma_wf_kept, FeedForward, HybridLayer, HybridLm, HybridModel};
use crate::models::qwen3::{
    inverse_root, inverse_root_of, layer_count, product_fits, Mlp, QuantizationConfig,
};
use crate::nn::{
    table_built, linear_built, noise_built, t_linear, AnyEmbedding, AnyLinear, Conv1d, Quantizable,
    RmsNorm,
};
use crate::ops::create::{ones_dtype, t_ones, t_scalar, t_zeros, zeros_dtype};
use crate::ops::elementwise::{t_cast, t_multiply, t_sigmoid, t_silu};
use crate::ops::layout::{t_reshape, t_transpose};
use crate::ops::select::{concatenate_axis, t_concatenate, t_slice, OPEN};
use crate::params::{lemma_part, LeafFrame, Parameters};
use crate::scalar::{Float, Scalar};
use crate::text::{begins, integer_of, parse_integer, same_text, strip_prefix};
use crate::utils::attention::{attend, attended, from_heads, join_heads, split_heads, to_heads};
use crate::utils::rope::{initialize_rope, rope_built, RopeVariant, ScalingConfig};
use crate::weights::{file_entries, load_text_files, loaded_from, text_files, Remap};
use vstd::prelude::*;

verus! {

/// The number of prompt tokens that are read at once, unless set otherwise.
pub const PREFILL_CHUNK_DEFAULT: i32 = 2048;

/// The least number of prompt tokens that are read at once.
pub const PREFILL_CHUNK_MIN: i32 = 256;

/// The number of prompt tokens read at once under a setting: a positive number, raised to
/// [`PREFILL_CHUNK_MIN`], and [`PREFILL_CHUNK_DEFAULT`] without such a number.
pub open spec fn chunk_of(setting: Option<Seq<char>>) -> i32 {
    let number = match setting {
        Some(s) => integer_of(s),
        None => None,
    };
    match number {
        Some(v) if v > 0 => if v > PREFILL_CHUNK_MIN {
            v
        } else {
            PREFILL_CHUNK_MIN
        },
        _ => PREFILL_CHUNK_DEFAULT,
    }
}

/// Reads the number of prompt tokens read at once from a setting.
pub fn prefill_chunk_size(setting: Option<&str>) -> (r: i32)
    ensures
        r == chunk_of(
            match setting {
                Some(s) => Some(s@),
                None => None,
            },
        ),
        r >= PREFILL_CHUNK_MIN,
{
    let number = match setting {
        Some(s) => parse_integer(s),
        None => None,
    };
    match number {
        Some(v) => if v > 0 {
            if v > PREFILL_CHUNK_MIN {
                v
            } else {
                PREFILL_CHUNK_MIN
            }
        } else {
            PREFILL_CHUNK_DEFAULT
        },
        None => PREFILL_CHUNK_DEFAULT,
    }
}

/// The settings of the rotary embedding, where they are kept apart.
#[derive(Clone, Copy, PartialEq, Eq, Debug, Structural)]
pub struct RopeParameters {
    pub rope_theta: Option<Float>,
    pub partial_rotary_factor: Option<Float>,
}

/// The configuration of a model.
pub struct ModelArgs {
    pub model_type: String,
    pub hidden_size: i32,
    pub num_hidden_layers: i32,
    pub intermediate_size: i32,
    pub num_attention_heads: i32,
    pub num_key_value_heads: i32,
    pub head_dim: i32,
    pub rms_norm_eps: Float,
    pub vocab_size: i32,
    pub max_position_embeddings: i32,
    pub rope_theta: Option<Float>,
    pub partial_rotary_factor: Option<Float>,
    pub rope_parameters: Option<RopeParameters>,
    pub full_attention_interval: i32,
    pub linear_num_value_heads: i32,
    pub linear_num_key_heads: i32,
    pub linear_key_head_dim: i32,
    pub linear_value_head_dim: i32,
    pub linear_conv_kernel_dim: i32,
    pub tie_word_embeddings: bool,
    pub rope_scaling: Option<ScalingConfig>,
    pub quantization: Option<QuantizationConfig>,
}

/// The bit pattern of the base of the rotary embedding where none is set, `10000000`.
pub const ROPE_THETA_BITS: u32 = 0x4b18_9680;

/// The bit pattern of the part of a head that is turned where none is set, `0.25`.
pub const ROTARY_FACTOR_BITS: u32 = 0x3e80_0000;

/// The bit pattern of `-0.5`.
pub const MINUS_HALF_BITS: u32 = 0xbf00_0000;

/// The bit pattern of the constant under the root of the weightless normalization, `1e-6`.
pub const NORM_EPS_BITS: u32 = 0x3586_37bd;

/// Whether layer `i` has linear attention: all do but every `interval`-th.
pub open spec fn linear_layer(i: int, interval: i32) -> bool {
    (i + 1) % (interval as int) != 0
}

/// The first value that is set: apart, at the top, or the default.
pub open spec fn first_set(apart: Option<Float>, top: Option<Float>, default_bits: u32) -> Float {
    match (apart, top) {
        (Some(f), _) => f,
        (None, Some(f)) => f,
        (None, None) => Float { bits: default_bits },
    }
}

impl ModelArgs {
    /// The base of the rotary embedding.
    pub open spec fn theta(&self) -> Float {
        first_set(
            match self.rope_parameters {
                Some(r) => r.rope_theta,
                None => None,
            },
            self.rope_theta,
            ROPE_THETA_BITS,
        )
    }

    /// The part of a head that is turned.
    pub open spec fn factor(&self) -> Float {
        first_set(
            match self.rope_parameters {
                Some(r) => r.partial_rotary_factor,
                None => None,
            },
            self.partial_rotary_factor,
            ROTARY_FACTOR_BITS,
        )
    }

    /// The number of features of a head that are turned: the head size times the factor, cut
    /// down to an integer.
    pub open spec fn rotary(&self) -> i32 {
        self.factor().product_truncated(self.head_dim) as i32
    }

    /// Whether layer `layer_idx` has linear attention.
    pub fn is_linear(&self, layer_idx: i32) -> (r: bool)
        requires
            self.full_attention_interval != 0,
            0 <= layer_idx < i32::MAX,
        ensures
            r == linear_layer(layer_idx as int, self.full_attention_interval),
    {
        (layer_idx + 1) % self.full_attention_interval != 0
    }

    /// The base of the rotary embedding.
    pub fn rope_theta(&self) -> (r: Float)
        ensures
            r == self.theta(),
    {
        match self.rope_parameters {
            Some(RopeParameters { rope_theta: Some(f), .. }) => f,
            _ => match self.rope_theta {
                Some(f) => f,
                None => Float { bits: ROPE_THETA_BITS },
            },
        }
    }

    /// The part of a head that is turned.
    pub fn partial_rotary_factor(&self) -> (r: Float)
        ensures
            r == self.factor(),
    {
        match self.rope_parameters {
            Some(RopeParameters { partial_rotary_factor: Some(f), .. }) => f,
            _ => match self.partial_rotary_factor {
                Some(f) => f,
                None => Float { bits: ROTARY_FACTOR_BITS },
            },
        }
    }

    /// The number of features of a head that are turned.
    pub fn rotary_dim(&self) -> (r: i32)
        ensures
            r == self.rotary(),
    {
        self.partial_rotary_factor().times_int(self.head_dim)
    }
}

/// Normalizes the last axis by its root mean square.
pub fn rms_norm_weightless(x: &Array, eps: Scalar) -> (r: Result<Array, Exception>)
    ensures
        tn(r) == t_rms_norm(Ok(x@), None, eps),
{
    rms_norm_no_weight_device(x, eps)
}

/// Root-mean-square normalization whose output may be gated.
pub struct RmsNormGated {
    pub eps: Scalar,
    pub weight: Array,
}

impl RmsNormGated {
    /// The normalization of `x`, times the activated gate where there is one.
    pub open spec fn apply(&self, x: Tn, gate: Option<Tn>) -> Tn {
        let normed = t_rms_norm(x, Some(self.weight@), self.eps);
        match gate {
            Some(g) => t_multiply(t_silu(g), normed),
            None => normed,
        }
    }

    /// A normalization of `dims` features with unit weight.
    pub fn new(dims: i32, eps: Scalar) -> (r: RmsNormGated)
        requires
            dims >= 0,
        ensures
            t_ones(seq![dims], Dtype::Float32) == Ok::<Term, Exception>(r.weight@),
            r.eps == eps,
    {
        let shape: Vec<i32> = vec![dims];
        proof {
            assert(shape@ =~= seq![dims]);
        }
        let weight = Array::nullary(crate::array::Kind::Ones, shape, Dtype::Float32);
        RmsNormGated { eps, weight }
    }

    /// Normalizes the last axis, and gates the result.
    pub fn forward(&self, x: &Array, gate: Option<&Array>) -> (r: Result<Array, Exception>)
        ensures
            tn(r) == self.apply(
                Ok(x@),
                match gate {
                    Some(g) => Some(Ok(g@)),
                    None => None,
                },
            ),
    {
        let normed = rms_norm_device(x, &self.weight, self.eps.copy())?;
        match gate {
            Some(g) => g.silu()?.multiply(&normed),
            None => Ok(normed),
        }
    }
}

impl Parameters for RmsNormGated {
    type Frame = Scalar;

    open spec fn frame(&self) -> Scalar {
        self.eps
    }

    open spec fn param(&self, key: Seq<char>) -> Option<Term> {
        if key == "weight"@ {
            Some(self.weight@)
        } else {
            None
        }
    }

    fn has_param(&self, key: &str) -> bool {
        if same_text(key, "weight") {
            return true;
        }
        false
    }

    fn set_param(&mut self, key: &str, value: Array) -> bool {
        let ghost before = *self;
        if same_text(key, "weight") {
            self.weight = value;
            return true;
        }
        false
    }
}

/// Full attention with a gated output and partly turned heads.
pub struct Attention {
    pub n_heads: i32,
    pub n_kv_heads: i32,
    pub head_dim: i32,
    pub scale: Scalar,
    pub q_proj: AnyLinear,
    pub k_proj: AnyLinear,
    pub v_proj: AnyLinear,
    pub o_proj: AnyLinear,
    pub q_norm: RmsNorm,
    pub k_norm: RmsNorm,
    pub rope: RopeVariant,
}

/// The order of axes that puts heads before positions.
pub open spec fn heads_first() -> Seq<i32> {
    seq![0i32, 2i32, 1i32, 3i32]
}

impl Attention {
    /// Whether the widths of the projections fit.
    pub open spec fn fits(args: &ModelArgs) -> bool {
        &&& product_fits(args.num_attention_heads, args.head_dim)
        &&& i32::MIN <= args.num_attention_heads * args.head_dim * 2 <= i32::MAX
        &&& product_fits(args.num_key_value_heads, args.head_dim)
        &&& product_fits(args.head_dim, 2)
    }

    /// Whether the split of queries and gates fits.
    pub open spec fn wf(&self) -> bool {
        product_fits(self.head_dim, 2)
    }

    /// Whether this is the attention of a fresh layer.
    pub open spec fn is_fresh(&self, args: &ModelArgs) -> bool {
        let d = args.hidden_size;
        let q = (args.num_attention_heads * args.head_dim) as i32;
        let q2 = (args.num_attention_heads * args.head_dim * 2) as i32;
        let kv = (args.num_key_value_heads * args.head_dim) as i32;
        &&& self.n_heads == args.num_attention_heads
        &&& self.n_kv_heads == args.num_key_value_heads
        &&& self.head_dim == args.head_dim
        &&& self.scale == inverse_root(args.head_dim)
        &&& linear_built(Ok(self.q_proj@), d, q2, false)
        &&& linear_built(Ok(self.k_proj@), d, kv, false)
        &&& linear_built(Ok(self.v_proj@), d, kv, false)
        &&& linear_built(Ok(self.o_proj@), q, d, false)
        &&& self.q_norm.is_fresh(args.head_dim, Scalar::Lit(args.rms_norm_eps))
        &&& self.k_norm.is_fresh(args.head_dim, Scalar::Lit(args.rms_norm_eps))
        &&& rope_built(
            Ok(self.rope),
            args.rotary(),
            Scalar::Lit(args.theta()),
            false,
            None,
        )
    }

    /// Whether the attention of a layer cannot be built.
    pub open spec fn cannot_build(args: &ModelArgs, e: Exception) -> bool {
        let d = args.hidden_size;
        let q = (args.num_attention_heads * args.head_dim) as i32;
        let q2 = (args.num_attention_heads * args.head_dim * 2) as i32;
        let kv = (args.num_key_value_heads * args.head_dim) as i32;
        ||| linear_built(Err(e), d, q2, false)
        ||| linear_built(Err(e), d, kv, false)
        ||| linear_built(Err(e), q, d, false)
        ||| RmsNorm::cannot_build(args.head_dim, e)
    }

    /// Fresh attention.
    pub fn new(args: &ModelArgs) -> (r: Result<Attention, Exception>)
        requires
            Attention::fits(args),
        ensures
            match r {
                Ok(a) => a.is_fresh(args) && a.wf(),
                Err(e) => Attention::cannot_build(args, e),
            },
    {
        let d: i32 = args.hidden_size;
        let nh: i32 = args.num_attention_heads;
        let nkv: i32 = args.num_key_value_heads;
        let hd: i32 = args.head_dim;
        let q_proj = AnyLinear::linear(d, nh * hd * 2, false)?;
        let k_proj = AnyLinear::linear(d, nkv * hd, false)?;
        let v_proj = AnyLinear::linear(d, nkv * hd, false)?;
        let o_proj = AnyLinear::linear(nh * hd, d, false)?;
        let q_norm = RmsNorm::new(hd, Scalar::Lit(args.rms_norm_eps))?;
        let k_norm = RmsNorm::new(hd, Scalar::Lit(args.rms_norm_eps))?;
        let none: Option<ScalingConfig> = None;
        let rope = initialize_rope(
            args.rotary_dim(),
            Scalar::Lit(args.rope_theta()),
            false,
            &none,
            args.max_position_embeddings,
        )?;
        Ok(
            Attention {
                n_heads: nh,
                n_kv_heads: nkv,
                head_dim: hd,
                scale: inverse_root_of(hd),
                q_proj,
                k_proj,
                v_proj,
                o_proj,
                q_norm,
                k_norm,
                rope,
            },
        )
    }

    /// Queries and gates side by side, `[B, L, heads, 2 * head_dim]`.
    pub open spec fn queries_and_gates(&self, x: Term) -> Tn {
        t_reshape(
            t_linear(self.q_proj@, Ok(x)),
            seq![x.shape[0], x.shape[1], self.n_heads, (self.head_dim * 2) as i32],
        )
    }

    /// The queries of every head.
    pub open spec fn queries(&self, x: Term) -> Tn {
        t_transpose(
            self.q_norm.apply(t_slice(self.queries_and_gates(x), -1i32, 0, self.head_dim)),
            heads_first(),
        )
    }

    /// The gates of every position.
    pub open spec fn gates(&self, x: Term) -> Tn {
        t_reshape(
            t_slice(self.queries_and_gates(x), -1i32, self.head_dim, OPEN),
            seq![x.shape[0], x.shape[1], -1i32],
        )
    }

    /// The keys of every head.
    pub open spec fn keys(&self, x: Term) -> Tn {
        t_transpose(
            self.k_norm.apply(
                t_reshape(
                    t_linear(self.k_proj@, Ok(x)),
                    seq![x.shape[0], x.shape[1], self.n_kv_heads, -1i32],
                ),
            ),
            heads_first(),
        )
    }

    /// The values of every head.
    pub open spec fn values(&self, x: Term) -> Tn {
        split_heads(t_linear(self.v_proj@, Ok(x)), x.shape[0], x.shape[1], self.n_kv_heads)
    }

    /// Attention on all positions, gated and projected, and the cache.
    #[verifier::opaque]
    pub open spec fn apply(&self, x: Term, causal: bool, cache: Option<KvState>) -> (
        Tn,
        Option<KvState>,
    ) {
        if x.shape.len() < 2 {
            (Err(Exception::Operands), cache)
        } else {
            match (self.queries(x), self.gates(x), self.keys(x), self.values(x)) {
                (Ok(q), Ok(g), Ok(k), Ok(v)) => {
                    let mask = if causal {
                        MaskTerm::Causal
                    } else {
                        MaskTerm::Unmasked
                    };
                    let (attn, after) = attended::<ConcatKeyValueCache>(
                        self.rope,
                        Ok(q),
                        Ok(k),
                        Ok(v),
                        self.scale,
                        mask,
                        None,
                        cache,
                        None,
                    );
                    (
                        t_linear(
                            self.o_proj@,
                            t_multiply(
                                join_heads(attn, x.shape[0], x.shape[1]),
                                t_sigmoid(Ok(g)),
                            ),
                        ),
                        after,
                    )
                },
                _ => (Err(Exception::Operands), cache),
            }
        }
    }

    /// Attends on all positions. `causal` hides the keys behind each query.
    pub fn forward(
        &self,
        x: &Array,
        causal: bool,
        cache: Option<&mut ConcatKeyValueCache>,
    ) -> (r: Result<Array, Exception>)
        requires
            self.wf(),
        ensures
            tn(r) == self.apply(x@, causal, borrowed_state(cache)).0,
            match cache {
                Some(c) => Some((*final(c)).state()),
                None => None,
            } == self.apply(x@, causal, borrowed_state(cache)).1,
    {
        proof {
            reveal(Attention::apply);
        }
        if x.ndim() < 2 {
            return Err(Exception::Operands);
        }
        let b: i32 = x.shape()[0];
        let l: i32 = x.shape()[1];
        let shape: Vec<i32> = vec![b, l, self.n_heads, self.head_dim * 2];
        let flat: Vec<i32> = vec![b, l, -1];
        let grouped: Vec<i32> = vec![b, l, self.n_kv_heads, -1];
        let axes: Vec<i32> = vec![0, 2, 1, 3];
        let axes2: Vec<i32> = vec![0, 2, 1, 3];
        proof {
            assert(shape@ =~= seq![b, l, self.n_heads, (self.head_dim * 2) as i32]);
            assert(flat@ =~= seq![b, l, -1i32]);
            assert(grouped@ =~= seq![b, l, self.n_kv_heads, -1i32]);
            assert(axes@ =~= heads_first());
            assert(axes2@ =~= heads_first());
        }
        let qg = self.q_proj.forward(x)?.reshape(&shape)?;
        let queries = qg.slice(-1, 0, self.head_dim)?;
        let gate = qg.slice(-1, self.head_dim, OPEN)?.reshape(&flat)?;
        let queries = self.q_norm.forward(&queries)?.transpose_axes(axes)?;
        let keys = self.k_proj.forward(x)?.reshape(&grouped)?;
        let keys = self.k_norm.forward(&keys)?.transpose_axes(axes2)?;
        let values = to_heads(&self.v_proj.forward(x)?, b, l, self.n_kv_heads)?;
        let mask = if causal {
            Some(ScaledDotProductAttentionMask::Causal)
        } else {
            None
        };
        let attn = attend(
            &self.rope,
            queries,
            keys,
            values,
            self.scale.copy(),
            mask,
            None,
            cache,
            None,
        )?;
        let out = from_heads(&attn, b, l)?;
        let gated = out.multiply(&gate.sigmoid()?)?;
        self.o_proj.forward(&gated)
    }
}

impl Quantizable for Attention {
    open spec fn packs_to(
        self,
        group_size: i32,
        bits: i32,
        out: Result<Attention, Exception>,
    ) -> bool {
        match out {
            Ok(a) => {
                &&& self.q_proj.packs_to(group_size, bits, Ok(a.q_proj))
                &&& self.k_proj.packs_to(group_size, bits, Ok(a.k_proj))
                &&& self.v_proj.packs_to(group_size, bits, Ok(a.v_proj))
                &&& self.o_proj.packs_to(group_size, bits, Ok(a.o_proj))
                &&& a == (Attention {
                    q_proj: a.q_proj,
                    k_proj: a.k_proj,
                    v_proj: a.v_proj,
                    o_proj: a.o_proj,
                    ..self
                })
            },
            Err(e) => {
                ||| self.q_proj.packs_to(group_size, bits, Err(e))
                ||| self.k_proj.packs_to(group_size, bits, Err(e))
                ||| self.v_proj.packs_to(group_size, bits, Err(e))
                ||| self.o_proj.packs_to(group_size, bits, Err(e))
            },
        }
    }

    fn quantize(self, group_size: i32, bits: i32) -> Result<Attention, Exception> {
        let q_proj = self.q_proj.quantize(group_size, bits)?;
        let k_proj = self.k_proj.quantize(group_size, bits)?;
        let v_proj = self.v_proj.quantize(group_size, bits)?;
        let o_proj = self.o_proj.quantize(group_size, bits)?;
        Ok(
            Attention {
                q_proj,
                k_proj,
                v_proj,
                o_proj,
                n_heads: self.n_heads,
                n_kv_heads: self.n_kv_heads,
                head_dim: self.head_dim,
                scale: self.scale,
                q_norm: self.q_norm,
                k_norm: self.k_norm,
                rope: self.rope,
            },
        )
    }
}

impl Parameters for Attention {
    type Frame = (
        i32,
        i32,
        i32,
        Scalar,
        LeafFrame,
        LeafFrame,
        LeafFrame,
        LeafFrame,
        <RmsNorm as Parameters>::Frame,
        <RmsNorm as Parameters>::Frame,
        RopeVariant,
    );

    open spec fn frame(&self) -> Self::Frame {
        (
            self.n_heads,
            self.n_kv_heads,
            self.head_dim,
            self.scale,
            self.q_proj.frame(),
            self.k_proj.frame(),
            self.v_proj.frame(),
            self.o_proj.frame(),
            self.q_norm.frame(),
            self.k_norm.frame(),
            self.rope,
        )
    }

    open spec fn param(&self, key: Seq<char>) -> Option<Term> {
        if begins(key, "q_proj."@) {
            self.q_proj.param(key.skip("q_proj."@.len() as int))
        } else if begins(key, "k_proj."@) {
            self.k_proj.param(key.skip("k_proj."@.len() as int))
        } else if begins(key, "v_proj."@) {
            self.v_proj.param(key.skip("v_proj."@.len() as int))
        } else if begins(key, "o_proj."@) {
            self.o_proj.param(key.skip("o_proj."@.len() as int))
        } else if begins(key, "q_norm."@) {
            self.q_norm.param(key.skip("q_norm."@.len() as int))
        } else if begins(key, "k_norm."@) {
            self.k_norm.param(key.skip("k_norm."@.len() as int))
        } else {
            None
        }
    }

    fn has_param(&self, key: &str) -> bool {
        match strip_prefix(key, "q_proj.") {
            Some(rest) => {
                return self.q_proj.has_param(rest);
            },
            None => {},
        }
        match strip_prefix(key, "k_proj.") {
            Some(rest) => {
                return self.k_proj.has_param(rest);
            },
            None => {},
        }
        match strip_prefix(key, "v_proj.") {
            Some(rest) => {
                return self.v_proj.has_param(rest);
            },
            None => {},
        }
        match strip_prefix(key, "o_proj.") {
            Some(rest) => {
                return self.o_proj.has_param(rest);
            },
            None => {},
        }
        match strip_prefix(key, "q_norm.") {
            Some(rest) => {
                return self.q_norm.has_param(rest);
            },
            None => {},
        }
        match strip_prefix(key, "k_norm.") {
            Some(rest) => {
                return self.k_norm.has_param(rest);
            },
            None => {},
        }
        false
    }

    fn set_param(&mut self, key: &str, value: Array) -> bool {
        let ghost before = *self;
        match strip_prefix(key, "q_proj.") {
            Some(rest) => {
                let ghost v = value@;
                let done = self.q_proj.set_param(rest, value);
                proof {
                    lemma_part(before.q_proj, self.q_proj, key@, "q_proj."@, v, done);
                }
                return done;
            },
            None => {},
        }
        match strip_prefix(key, "k_proj.") {
            Some(rest) => {
                let ghost v = value@;
                let done = self.k_proj.set_param(rest, value);
                proof {
                    lemma_part(before.k_proj, self.k_proj, key@, "k_proj."@, v, done);
                }
                return done;
            },
            None => {},
        }
        match strip_prefix(key, "v_proj.") {
            Some(rest) => {
                let ghost v = value@;
                let done = self.v_proj.set_param(rest, value);
                proof {
                    lemma_part(before.v_proj, self.v_proj, key@, "v_proj."@, v, done);
                }
                return done;
            },
            None => {},
        }
        match strip_prefix(key, "o_proj.") {
            Some(rest) => {
                let ghost v = value@;
                let done = self.o_proj.set_param(rest, value);
                proof {
                    lemma_part(before.o_proj, self.o_proj, key@, "o_proj."@, v, done);
                }
                return done;
            },
            None => {},
        }
        match strip_prefix(key, "q_norm.") {
            Some(rest) => {
                let ghost v = value@;
                let done = self.q_norm.set_param(rest, value);
                proof {
                    lemma_part(before.q_norm, self.q_norm, key@, "q_norm."@, v, done);
                }
                return done;
            },
            None => {},
        }
        match strip_prefix(key, "k_norm.") {
            Some(rest) => {
                let ghost v = value@;
                let done = self.k_norm.set_param(rest, value);
                proof {
                    lemma_part(before.k_norm, self.k_norm, key@, "k_norm."@, v, done);
                }
                return done;
            },
            None => {},
        }
        false
    }
}

/// Linear attention: a short convolution, then the gated delta rule.
pub struct GatedDeltaNet {
    pub num_v_heads: i32,
    pub num_k_heads: i32,
    pub head_k_dim: i32,
    pub head_v_dim: i32,
    pub key_dim: i32,
    pub value_dim: i32,
    pub conv_dim: i32,
    pub conv_kernel_size: i32,
    pub in_proj_qkv: AnyLinear,
    pub in_proj_z: AnyLinear,
    pub in_proj_b: AnyLinear,
    pub in_proj_a: AnyLinear,
    pub conv1d: Conv1d,
    pub a_log: Array,
    pub dt_bias: Array,
    pub norm: RmsNormGated,
    pub out_proj: AnyLinear,
    /// Whether the delta rule runs by plain operations rather than by the kernel.
    pub by_ops: bool,
}

/// `n ^ -0.5`.
pub open spec fn power_minus_half(n: i32) -> Scalar {
    Scalar::Power(
        Arc::new(Scalar::Int(n)),
        Arc::new(Scalar::Lit(Float { bits: MINUS_HALF_BITS })),
    )
}

/// Computes `n ^ -0.5`.
pub fn power_minus_half_of(n: i32) -> (r: Scalar)
    ensures
        r == power_minus_half(n),
{
    Scalar::Power(Arc::new(Scalar::Int(n)), Arc::new(Scalar::lit(MINUS_HALF_BITS)))
}

/// `x` normalized on its last axis and multiplied by a scalar of the same element type.
pub open spec fn normalized_times(x: Tn, scale: Scalar) -> Tn {
    match t_rms_norm(x, None, Scalar::Lit(Float { bits: NORM_EPS_BITS })) {
        Ok(n) => t_multiply(Ok(n), t_cast(t_scalar(scale), n.dtype)),
        Err(e) => Err(e),
    }
}

fn normalize_times(x: &Array, scale: Scalar) -> (r: Result<Array, Exception>)
    ensures
        tn(r) == normalized_times(Ok(x@), scale),
{
    let n = rms_norm_weightless(x, Scalar::lit(NORM_EPS_BITS))?;
    let s = Array::from_scalar(scale).as_dtype(n.dtype())?;
    n.multiply(&s)
}

impl GatedDeltaNet {
    /// Whether the widths of the projections fit.
    pub open spec fn fits(args: &ModelArgs) -> bool {
        &&& product_fits(args.linear_key_head_dim, args.linear_num_key_heads)
        &&& product_fits(args.linear_value_head_dim, args.linear_num_value_heads)
        &&& i32::MIN <= args.linear_key_head_dim * args.linear_num_key_heads * 2 <= i32::MAX
        &&& i32::MIN <= args.linear_key_head_dim * args.linear_num_key_heads * 2
            + args.linear_value_head_dim * args.linear_num_value_heads <= i32::MAX
        &&& args.linear_conv_kernel_dim >= 1
        &&& args.linear_value_head_dim >= 0
    }

    /// Whether there is a convolution, and its output can be split.
    pub open spec fn wf(&self) -> bool {
        &&& self.conv_kernel_size >= 1
        &&& product_fits(self.key_dim, 2)
    }

    /// Whether this is a fresh layer.
    pub open spec fn is_fresh(&self, args: &ModelArgs) -> bool {
        let hidden = args.hidden_size;
        let key = (args.linear_key_head_dim * args.linear_num_key_heads) as i32;
        let value = (args.linear_value_head_dim * args.linear_num_value_heads) as i32;
        let conv = (key * 2 + value) as i32;
        let kernel = args.linear_conv_kernel_dim;
        let heads = args.linear_num_value_heads;
        &&& self.num_v_heads == heads
        &&& self.num_k_heads == args.linear_num_key_heads
        &&& self.head_k_dim == args.linear_key_head_dim
        &&& self.head_v_dim == args.linear_value_head_dim
        &&& self.key_dim == key
        &&& self.value_dim == value
        &&& self.conv_dim == conv
        &&& self.conv_kernel_size == kernel
        &&& linear_built(Ok(self.in_proj_qkv@), hidden, conv, false)
        &&& linear_built(Ok(self.in_proj_z@), hidden, value, false)
        &&& linear_built(Ok(self.in_proj_b@), hidden, heads, false)
        &&& linear_built(Ok(self.in_proj_a@), hidden, heads, false)
        &&& noise_built(Ok(self.conv1d.weight@), kernel, seq![conv, kernel, 1i32])
        &&& self.conv1d.groups == conv
        &&& t_ones(seq![heads], Dtype::Float32) == Ok::<Term, Exception>(self.a_log@)
        &&& t_ones(seq![heads], Dtype::Float32) == Ok::<Term, Exception>(self.dt_bias@)
        &&& t_ones(seq![args.linear_value_head_dim], Dtype::Float32) == Ok::<Term, Exception>(
            self.norm.weight@,
        )
        &&& self.norm.eps == Scalar::Lit(args.rms_norm_eps)
        &&& linear_built(Ok(self.out_proj@), value, hidden, false)
        &&& !self.by_ops
    }

    /// Whether a layer cannot be built.
    pub open spec fn cannot_build(args: &ModelArgs, e: Exception) -> bool {
        let hidden = args.hidden_size;
        let key = (args.linear_key_head_dim * args.linear_num_key_heads) as i32;
        let value = (args.linear_value_head_dim * args.linear_num_value_heads) as i32;
        let conv = (key * 2 + value) as i32;
        let kernel = args.linear_conv_kernel_dim;
        let heads = args.linear_num_value_heads;
        ||| noise_built(Err(e), kernel, seq![conv, kernel, 1i32])
        ||| linear_built(Err(e), hidden, conv, false)
        ||| linear_built(Err(e), hidden, value, false)
        ||| linear_built(Err(e), hidden, heads, false)
        ||| t_ones(seq![heads], Dtype::Float32) == Err::<Term, Exception>(e)
        ||| linear_built(Err(e), value, hidden, false)
    }

    /// A fresh layer.
    pub fn new(args: &ModelArgs) -> (r: Result<GatedDeltaNet, Exception>)
        requires
            GatedDeltaNet::fits(args),
        ensures
            match r {
                Ok(n) => n.is_fresh(args) && n.wf(),
                Err(e) => GatedDeltaNet::cannot_build(args, e),
            },
    {
        let hidden: i32 = args.hidden_size;
        let num_v_heads: i32 = args.linear_num_value_heads;
        let num_k_heads: i32 = args.linear_num_key_heads;
        let head_k_dim: i32 = args.linear_key_head_dim;
        let head_v_dim: i32 = args.linear_value_head_dim;
        let key_dim: i32 = head_k_dim * num_k_heads;
        let value_dim: i32 = head_v_dim * num_v_heads;
        let conv_dim: i32 = key_dim * 2 + value_dim;
        let k: i32 = args.linear_conv_kernel_dim;
        let conv1d = Conv1d::depthwise(conv_dim, k)?;
        let in_proj_qkv = AnyLinear::linear(hidden, conv_dim, false)?;
        let in_proj_z = AnyLinear::linear(hidden, value_dim, false)?;
        let in_proj_b = AnyLinear::linear(hidden, num_v_heads, false)?;
        let in_proj_a = AnyLinear::linear(hidden, num_v_heads, false)?;
        let shape: Vec<i32> = vec![num_v_heads];
        proof {
            assert(shape@ =~= seq![num_v_heads]);
        }
        let a_log = ones_dtype(&shape, Dtype::Float32)?;
        let dt_bias = ones_dtype(&shape, Dtype::Float32)?;
        let norm = RmsNormGated::new(head_v_dim, Scalar::Lit(args.rms_norm_eps));
        let out_proj = AnyLinear::linear(value_dim, hidden, false)?;
        Ok(
            GatedDeltaNet {
                num_v_heads,
                num_k_heads,
                head_k_dim,
                head_v_dim,
                key_dim,
                value_dim,
                conv_dim,
                conv_kernel_size: k,
                in_proj_qkv,
                in_proj_z,
                in_proj_b,
                in_proj_a,
                conv1d,
                a_log,
                dt_bias,
                norm,
                out_proj,
                by_ops: false,
            },
        )
    }

    /// The gating values of every head.
    pub open spec fn gate(&self, x: Term) -> Tn {
        t_reshape(
            t_linear(self.in_proj_z@, Ok(x)),
            seq![x.shape[0], x.shape[1], self.num_v_heads, self.head_v_dim],
        )
    }

    /// The inputs that the convolution has seen last: those kept, or zeros at the start.
    pub open spec fn earlier(&self, x: Term, conv: Option<Term>) -> Tn {
        let n = (self.conv_kernel_size - 1) as i32;
        match conv {
            Some(c) => Ok(c),
            None => t_cast(t_zeros(seq![x.shape[0], n, self.conv_dim], Dtype::Float32), x.dtype),
        }
    }

    /// Everything that the convolution reads: the inputs seen last, then the new ones.
    pub open spec fn conv_input(&self, x: Term, conv: Option<Term>) -> Tn {
        t_concatenate(self.earlier(x, conv), t_linear(self.in_proj_qkv@, Ok(x)), 1)
    }

    /// The inputs that the convolution is to see again: the last `conv_kernel_size - 1`.
    pub open spec fn conv_kept(&self, input: Term) -> Tn {
        if input.shape.len() >= 2 && input.shape[1] >= 0 {
            let total = input.shape[1];
            t_slice(Ok(input), 1, (total - (self.conv_kernel_size - 1)) as i32, total)
        } else {
            Err(Exception::Operands)
        }
    }

    /// Queries, keys and values of every head behind the convolution.
    pub open spec fn part(
        &self,
        x: Term,
        input: Term,
        start: i32,
        stop: i32,
        heads: i32,
        dim: i32,
    ) -> Tn {
        t_reshape(
            t_slice(t_silu(self.conv1d.apply(Ok(input))), -1i32, start, stop),
            seq![x.shape[0], x.shape[1], heads, dim],
        )
    }

    /// The queries, normalized and scaled.
    pub open spec fn queries(&self, x: Term, input: Term) -> Tn {
        let s = power_minus_half(self.head_k_dim);
        normalized_times(
            self.part(x, input, 0, self.key_dim, self.num_k_heads, self.head_k_dim),
            Scalar::Product(Arc::new(s), Arc::new(s)),
        )
    }

    /// The keys, normalized and scaled.
    pub open spec fn keys(&self, x: Term, input: Term) -> Tn {
        normalized_times(
            self.part(
                x,
                input,
                self.key_dim,
                (2 * self.key_dim) as i32,
                self.num_k_heads,
                self.head_k_dim,
            ),
            power_minus_half(self.head_k_dim),
        )
    }

    /// The values.
    pub open spec fn values(&self, x: Term, input: Term) -> Tn {
        self.part(
            x,
            input,
            (2 * self.key_dim) as i32,
            OPEN,
            self.num_v_heads,
            self.head_v_dim,
        )
    }

    /// The output and the state of the recurrence.
    pub open spec fn recurred(&self, x: Term, input: Term, state: Option<Term>) -> Result<
        (Term, Term),
        Exception,
    > {
        match (self.queries(x, input), self.keys(x, input), self.values(x, input)) {
            (Ok(q), Ok(k), Ok(v)) => updated(
                q,
                k,
                v,
                t_linear(self.in_proj_a@, Ok(x)),
                t_linear(self.in_proj_b@, Ok(x)),
                self.a_log@,
                self.dt_bias@,
                state,
                self.by_ops,
            ),
            _ => Err(Exception::Operands),
        }
    }

    /// Whether the four projections of the input can be built.
    pub open spec fn projected(&self, x: Term) -> bool {
        &&& t_linear(self.in_proj_qkv@, Ok(x)) is Ok
        &&& self.gate(x) is Ok
        &&& t_linear(self.in_proj_b@, Ok(x)) is Ok
        &&& t_linear(self.in_proj_a@, Ok(x)) is Ok
    }

    /// The layer applied to `x`, with the inputs kept for the convolution and the state of the
    /// recurrence. A failure before the convolution leaves both as they were.
    #[verifier::opaque]
    pub open spec fn apply(&self, x: Term, conv: Option<Term>, state: Option<Term>) -> (
        Tn,
        Option<Term>,
        Option<Term>,
    ) {
        if x.shape.len() < 2 || !self.projected(x) {
            (Err(Exception::Operands), conv, state)
        } else {
            match self.conv_input(x, conv) {
                Err(e) => (Err(e), None, state),
                Ok(input) => match self.conv_kept(input) {
                    Err(e) => (Err(e), None, state),
                    Ok(kept) => if self.queries(x, input) is Err || self.keys(x, input) is Err
                        || self.values(x, input) is Err {
                        (Err(Exception::Operands), Some(kept), state)
                    } else {
                        match self.recurred(x, input, state) {
                            Err(e) => (Err(e), Some(kept), None),
                            Ok((out, next)) => (
                                t_linear(
                                    self.out_proj@,
                                    t_reshape(
                                        self.norm.apply(Ok(out), Some(self.gate(x))),
                                        seq![x.shape[0], x.shape[1], -1i32],
                                    ),
                                ),
                                Some(kept),
                                Some(next),
                            ),
                        }
                    },
                },
            }
        }
    }

    /// Runs the layer on `inputs`, `[B, S, hidden]`.
    pub fn forward(
        &self,
        inputs: &Array,
        conv_state: &mut Option<Array>,
        rec_state: &mut Option<Array>,
    ) -> (r: Result<Array, Exception>)
        requires
            self.wf(),
        ensures
            (tn(r), opt_term(*final(conv_state)), opt_term(*final(rec_state))) == self.apply(
                inputs@,
                opt_term(*old(conv_state)),
                opt_term(*old(rec_state)),
            ),
    {
        proof {
            reveal(GatedDeltaNet::apply);
        }
        if inputs.ndim() < 2 {
            return Err(Exception::Operands);
        }
        let (qkv, z, b, a) = self.project(inputs)?;
        let prev = match conv_state.take() {
            Some(c) => c,
            None => self.no_inputs(inputs)?,
        };
        let conv_input = concatenate_axis(&prev, &qkv, 1)?;
        if conv_input.ndim() < 2 || conv_input.shape()[1] < 0 {
            return Err(Exception::Operands);
        }
        let total: i32 = conv_input.shape()[1];
        let kept = conv_input.slice(1, total - (self.conv_kernel_size - 1), total)?;
        *conv_state = Some(kept);
        let (q, k, v) = self.convolve(inputs, &conv_input)?;
        let (out, next) = gated_delta_update(
            &q,
            &k,
            &v,
            &a,
            &b,
            &self.a_log,
            &self.dt_bias,
            rec_state.take(),
            self.by_ops,
        )?;
        *rec_state = Some(next);
        let flat: Vec<i32> = vec![inputs.shape()[0], inputs.shape()[1], -1];
        proof {
            assert(flat@ =~= seq![inputs@.shape[0], inputs@.shape[1], -1i32]);
        }
        let normed = self.norm.forward(&out, Some(&z))?;
        self.out_proj.forward(&normed.reshape(&flat)?)
    }

    /// The projections of the input: what is convolved, the gating values, and the two controls of
    /// the recurrence.
    fn project(&self, x: &Array) -> (r: Result<(Array, Array, Array, Array), Exception>)
        requires
            x@.shape.len() >= 2,
        ensures
            match r {
                Ok((qkv, z, b, a)) => {
                    &&& self.projected(x@)
                    &&& t_linear(self.in_proj_qkv@, Ok(x@)) == Ok::<Term, Exception>(qkv@)
                    &&& self.gate(x@) == Ok::<Term, Exception>(z@)
                    &&& t_linear(self.in_proj_b@, Ok(x@)) == Ok::<Term, Exception>(b@)
                    &&& t_linear(self.in_proj_a@, Ok(x@)) == Ok::<Term, Exception>(a@)
                },
                Err(e) => e == Exception::Operands && !self.projected(x@),
            },
    {
        let z_shape: Vec<i32> = vec![
            x.shape()[0],
            x.shape()[1],
            self.num_v_heads,
            self.head_v_dim,
        ];
        proof {
            assert(z_shape@ =~= seq![
                x@.shape[0],
                x@.shape[1],
                self.num_v_heads,
                self.head_v_dim,
            ]);
        }
        let qkv = self.in_proj_qkv.forward(x)?;
        let z = self.in_proj_z.forward(x)?.reshape(&z_shape)?;
        let b = self.in_proj_b.forward(x)?;
        let a = self.in_proj_a.forward(x)?;
        Ok((qkv, z, b, a))
    }

    /// Zeros in place of the inputs before the first.
    fn no_inputs(&self, x: &Array) -> (r: Result<Array, Exception>)
        requires
            self.wf(),
            x@.shape.len() >= 2,
        ensures
            tn(r) == self.earlier(x@, None),
    {
        let n_keep: i32 = self.conv_kernel_size - 1;
        let shape: Vec<i32> = vec![x.shape()[0], n_keep, self.conv_dim];
        proof {
            assert(shape@ =~= seq![x@.shape[0], n_keep, self.conv_dim]);
        }
        zeros_dtype(&shape, Dtype::Float32)?.as_dtype(x.dtype())
    }

    /// The queries, keys and values behind the convolution.
    fn convolve(&self, x: &Array, input: &Array) -> (r: Result<(Array, Array, Array), Exception>)
        requires
            self.wf(),
            x@.shape.len() >= 2,
        ensures
            match r {
                Ok((q, k, v)) => {
                    &&& self.queries(x@, input@) == Ok::<Term, Exception>(q@)
                    &&& self.keys(x@, input@) == Ok::<Term, Exception>(k@)
                    &&& self.values(x@, input@) == Ok::<Term, Exception>(v@)
                },
                Err(e) => e == Exception::Operands && (self.queries(x@, input@) is Err || self.keys(
                    x@,
                    input@,
                ) is Err || self.values(x@, input@) is Err),
            },
    {
        let (b, s): (i32, i32) = (x.shape()[0], x.shape()[1]);
        let k_shape: Vec<i32> = vec![b, s, self.num_k_heads, self.head_k_dim];
        let v_shape: Vec<i32> = vec![b, s, self.num_v_heads, self.head_v_dim];
        proof {
            assert(k_shape@ =~= seq![b, s, self.num_k_heads, self.head_k_dim]);
            assert(v_shape@ =~= seq![b, s, self.num_v_heads, self.head_v_dim]);
        }
        let conv_out = self.conv1d.forward(input)?.silu()?;
        let q = conv_out.slice(-1, 0, self.key_dim)?.reshape(&k_shape)?;
        let k = conv_out.slice(-1, self.key_dim, 2 * self.key_dim)?.reshape(&k_shape)?;
        let v = conv_out.slice(-1, 2 * self.key_dim, OPEN)?.reshape(&v_shape)?;
        let inv = power_minus_half_of(self.head_k_dim);
        let q = normalize_times(&q, inv.copy().times(inv.copy()))?;
        let k = normalize_times(&k, inv)?;
        Ok((q, k, v))
    }
}

impl Quantizable for GatedDeltaNet {
    open spec fn packs_to(
        self,
        group_size: i32,
        bits: i32,
        out: Result<GatedDeltaNet, Exception>,
    ) -> bool {
        match out {
            Ok(a) => {
                &&& self.in_proj_qkv.packs_to(group_size, bits, Ok(a.in_proj_qkv))
                &&& self.in_proj_z.packs_to(group_size, bits, Ok(a.in_proj_z))
                &&& self.in_proj_b.packs_to(group_size, bits, Ok(a.in_proj_b))
                &&& self.in_proj_a.packs_to(group_size, bits, Ok(a.in_proj_a))
                &&& self.out_proj.packs_to(group_size, bits, Ok(a.out_proj))
                &&& a == (GatedDeltaNet {
                    in_proj_qkv: a.in_proj_qkv,
                    in_proj_z: a.in_proj_z,
                    in_proj_b: a.in_proj_b,
                    in_proj_a: a.in_proj_a,
                    out_proj: a.out_proj,
                    ..self
                })
            },
            Err(e) => {
                ||| self.in_proj_qkv.packs_to(group_size, bits, Err(e))
                ||| self.in_proj_z.packs_to(group_size, bits, Err(e))
                ||| self.in_proj_b.packs_to(group_size, bits, Err(e))
                ||| self.in_proj_a.packs_to(group_size, bits, Err(e))
                ||| self.out_proj.packs_to(group_size, bits, Err(e))
            },
        }
    }

    fn quantize(self, group_size: i32, bits: i32) -> Result<GatedDeltaNet, Exception> {
        let in_proj_qkv = self.in_proj_qkv.quantize(group_size, bits)?;
        let in_proj_z = self.in_proj_z.quantize(group_size, bits)?;
        let in_proj_b = self.in_proj_b.quantize(group_size, bits)?;
        let in_proj_a = self.in_proj_a.quantize(group_size, bits)?;
        let out_proj = self.out_proj.quantize(group_size, bits)?;
        Ok(
            GatedDeltaNet {
                in_proj_qkv,
                in_proj_z,
                in_proj_b,
                in_proj_a,
                out_proj,
                num_v_heads: self.num_v_heads,
                num_k_heads: self.num_k_heads,
                head_k_dim: self.head_k_dim,
                head_v_dim: self.head_v_dim,
                key_dim: self.key_dim,
                value_dim: self.value_dim,
                conv_dim: self.conv_dim,
                conv_kernel_size: self.conv_kernel_size,
                conv1d: self.conv1d,
                a_log: self.a_log,
                dt_bias: self.dt_bias,
                norm: self.norm,
                by_ops: self.by_ops,
            },
        )
    }
}

impl Parameters for GatedDeltaNet {
    type Frame = (
        i32,
        i32,
        i32,
        i32,
        i32,
        i32,
        i32,
        i32,
        LeafFrame,
        LeafFrame,
        LeafFrame,
        LeafFrame,
        <Conv1d as Parameters>::Frame,
        <RmsNormGated as Parameters>::Frame,
        LeafFrame,
        bool,
    );

    open spec fn frame(&self) -> Self::Frame {
        (
            self.num_v_heads,
            self.num_k_heads,
            self.head_k_dim,
            self.head_v_dim,
            self.key_dim,
            self.value_dim,
            self.conv_dim,
            self.conv_kernel_size,
            self.in_proj_qkv.frame(),
            self.in_proj_z.frame(),
            self.in_proj_b.frame(),
            self.in_proj_a.frame(),
            self.conv1d.frame(),
            self.norm.frame(),
            self.out_proj.frame(),
            self.by_ops,
        )
    }

    open spec fn param(&self, key: Seq<char>) -> Option<Term> {
        if begins(key, "in_proj_qkv."@) {
            self.in_proj_qkv.param(key.skip("in_proj_qkv."@.len() as int))
        } else if begins(key, "in_proj_z."@) {
            self.in_proj_z.param(key.skip("in_proj_z."@.len() as int))
        } else if begins(key, "in_proj_b."@) {
            self.in_proj_b.param(key.skip("in_proj_b."@.len() as int))
        } else if begins(key, "in_proj_a."@) {
            self.in_proj_a.param(key.skip("in_proj_a."@.len() as int))
        } else if begins(key, "conv1d."@) {
            self.conv1d.param(key.skip("conv1d."@.len() as int))
        } else if key == "A_log"@ {
            Some(self.a_log@)
        } else if key == "dt_bias"@ {
            Some(self.dt_bias@)
        } else if begins(key, "norm."@) {
            self.norm.param(key.skip("norm."@.len() as int))
        } else if begins(key, "out_proj."@) {
            self.out_proj.param(key.skip("out_proj."@.len() as int))
        } else {
            None
        }
    }

    fn has_param(&self, key: &str) -> bool {
        match strip_prefix(key, "in_proj_qkv.") {
            Some(rest) => {
                return self.in_proj_qkv.has_param(rest);
            },
            None => {},
        }
        match strip_prefix(key, "in_proj_z.") {
            Some(rest) => {
                return self.in_proj_z.has_param(rest);
            },
            None => {},
        }
        match strip_prefix(key, "in_proj_b.") {
            Some(rest) => {
                return self.in_proj_b.has_param(rest);
            },
            None => {},
        }
        match strip_prefix(key, "in_proj_a.") {
            Some(rest) => {
                return self.in_proj_a.has_param(rest);
            },
            None => {},
        }
        match strip_prefix(key, "conv1d.") {
            Some(rest) => {
                return self.conv1d.has_param(rest);
            },
            None => {},
        }
        if same_text(key, "A_log") {
            return true;
        }
        if same_text(key, "dt_bias") {
            return true;
        }
        match strip_prefix(key, "norm.") {
            Some(rest) => {
                return self.norm.has_param(rest);
            },
            None => {},
        }
        match strip_prefix(key, "out_proj.") {
            Some(rest) => {
                return self.out_proj.has_param(rest);
            },
            None => {},
        }
        false
    }

    fn set_param(&mut self, key: &str, value: Array) -> bool {
        let ghost before = *self;
        match strip_prefix(key, "in_proj_qkv.") {
            Some(rest) => {
                let ghost v = value@;
                let done = self.in_proj_qkv.set_param(rest, value);
                proof {
                    lemma_part(
                        before.in_proj_qkv,
                        self.in_proj_qkv,
                        key@,
                        "in_proj_qkv."@,
                        v,
                        done,
                    );
                }
                return done;
            },
            None => {},
        }
        match strip_prefix(key, "in_proj_z.") {
            Some(rest) => {
                let ghost v = value@;
                let done = self.in_proj_z.set_param(rest, value);
                proof {
                    lemma_part(before.in_proj_z, self.in_proj_z, key@, "in_proj_z."@, v, done);
                }
                return done;
            },
            None => {},
        }
        match strip_prefix(key, "in_proj_b.") {
            Some(rest) => {
                let ghost v = value@;
                let done = self.in_proj_b.set_param(rest, value);
                proof {
                    lemma_part(before.in_proj_b, self.in_proj_b, key@, "in_proj_b."@, v, done);
                }
                return done;
            },
            None => {},
        }
        match strip_prefix(key, "in_proj_a.") {
            Some(rest) => {
                let ghost v = value@;
                let done = self.in_proj_a.set_param(rest, value);
                proof {
                    lemma_part(before.in_proj_a, self.in_proj_a, key@, "in_proj_a."@, v, done);
                }
                return done;
            },
            None => {},
        }
        match strip_prefix(key, "conv1d.") {
            Some(rest) => {
                let ghost v = value@;
                let done = self.conv1d.set_param(rest, value);
                proof {
                    lemma_part(before.conv1d, self.conv1d, key@, "conv1d."@, v, done);
                }
                return done;
            },
            None => {},
        }
        if same_text(key, "A_log") {
            self.a_log = value;
            return true;
        }
        if same_text(key, "dt_bias") {
            self.dt_bias = value;
            return true;
        }
        match strip_prefix(key, "norm.") {
            Some(rest) => {
                let ghost v = value@;
                let done = self.norm.set_param(rest, value);
                proof {
                    lemma_part(before.norm, self.norm, key@, "norm."@, v, done);
                }
                return done;
            },
            None => {},
        }
        match strip_prefix(key, "out_proj.") {
            Some(rest) => {
                let ghost v = value@;
                let done = self.out_proj.set_param(rest, value);
                proof {
                    lemma_part(before.out_proj, self.out_proj, key@, "out_proj."@, v, done);
                }
                return done;
            },
            None => {},
        }
        false
    }
}

/// The cache of one layer.
pub enum LayerCache {
    /// Keys and values behind full attention.
    Full(ConcatKeyValueCache),
    /// The trailing inputs of the convolution and the state of the recurrence.
    Linear { conv: Option<Array>, state: Option<Array> },
}

/// The value of a layer's cache.
pub enum LayerState {
    Full(KvState),
    Linear { conv: Option<Term>, state: Option<Term> },
}

impl View for LayerCache {
    type V = LayerState;

    open spec fn view(&self) -> LayerState {
        match self {
            LayerCache::Full(kv) => LayerState::Full(kv.state()),
            LayerCache::Linear { conv, state } => LayerState::Linear {
                conv: opt_term(*conv),
                state: opt_term(*state),
            },
        }
    }
}

/// The values of a list of caches.
pub open spec fn layer_states(v: Seq<LayerCache>) -> Seq<LayerState> {
    Seq::new(v.len(), |i: int| v[i]@)
}

/// An array, where there is one, as a list.
pub open spec fn opt_list(a: Option<Term>) -> Seq<Term> {
    match a {
        Some(t) => seq![t],
        None => seq![],
    }
}

/// The live arrays of a layer's cache.
pub open spec fn live_arrays(c: LayerState) -> Seq<Term> {
    match c {
        LayerState::Full(kv) => kv_arrays(kv),
        LayerState::Linear { conv, state } => opt_list(conv) + opt_list(state),
    }
}

/// A layer's cache cut down to its first `len` positions; a recurrence cannot be cut down.
pub open spec fn layer_truncated(c: LayerState, len: i32) -> LayerState {
    match c {
        LayerState::Full(kv) => LayerState::Full(kv_truncated(kv, len)),
        LayerState::Linear { .. } => c,
    }
}

/// The value of a snapshot.
pub enum SnapState {
    Full,
    Linear { conv: Option<Term>, state: Option<Term> },
}

/// What a snapshot of a layer's cache holds.
pub open spec fn snapped(c: LayerState) -> SnapState {
    match c {
        LayerState::Full(_) => SnapState::Full,
        LayerState::Linear { conv, state } => SnapState::Linear { conv, state },
    }
}

/// A layer's cache after a snapshot was put back: the recurrence as it was, all else unchanged.
pub open spec fn restored(c: LayerState, snap: SnapState) -> LayerState {
    match (c, snap) {
        (LayerState::Linear { .. }, SnapState::Linear { conv, state }) => LayerState::Linear {
            conv,
            state,
        },
        _ => c,
    }
}

impl LayerCache {
    /// Adds the live arrays of the cache to a list.
    pub fn collect_eval(&self, out: &mut Vec<Array>)
        ensures
            terms(final(out)@) == terms(old(out)@) + live_arrays(self@),
    {
        let ghost start = terms(out@);
        match self {
            LayerCache::Full(kv) => {
                let mut more = kv.state_arrays();
                let ghost added = more@;
                out.append(&mut more);
                proof {
                    assert(terms(out@) =~= start + terms(added));
                }
            },
            LayerCache::Linear { conv, state } => {
                match conv {
                    Some(c) => out.push(c.share()),
                    None => {},
                }
                match state {
                    Some(s) => out.push(s.share()),
                    None => {},
                }
                proof {
                    assert(terms(out@) =~= start + live_arrays(self@));
                }
            },
        }
    }

    /// Cuts keys and values down to their first `len` positions. A recurrence stays as it is; it
    /// is put back from a snapshot instead.
    pub fn truncate(&mut self, len: i32)
        ensures
            final(self)@ == layer_truncated(old(self)@, len),
    {
        match self {
            LayerCache::Full(kv) => {
                kv.truncate(len);
            },
            LayerCache::Linear { .. } => {},
        }
    }

    /// Keeps the state of a recurrence. Keys and values need no snapshot.
    pub fn snapshot(&self) -> (r: LinearSnap)
        ensures
            r@ == snapped(self@),
    {
        match self {
            LayerCache::Full(_) => LinearSnap::Full,
            LayerCache::Linear { conv, state } => LinearSnap::Linear {
                conv: share_opt(conv),
                state: share_opt(state),
            },
        }
    }

    /// Puts the state of a recurrence back. The snapshot can be put back again later.
    pub fn restore(&mut self, snap: &LinearSnap)
        ensures
            final(self)@ == restored(old(self)@, snap@),
    {
        match (self, snap) {
            (
                LayerCache::Linear { conv, state },
                LinearSnap::Linear { conv: kept_conv, state: kept_state },
            ) => {
                *conv = share_opt(kept_conv);
                *state = share_opt(kept_state);
            },
            _ => {},
        }
    }
}

/// What is kept of a layer's cache for the next run: the recurrence of a linear layer, nothing of
/// a full one.
pub enum LinearSnap {
    Full,
    Linear { conv: Option<Array>, state: Option<Array> },
}

impl View for LinearSnap {
    type V = SnapState;

    open spec fn view(&self) -> SnapState {
        match self {
            LinearSnap::Full => SnapState::Full,
            LinearSnap::Linear { conv, state } => SnapState::Linear {
                conv: opt_term(*conv),
                state: opt_term(*state),
            },
        }
    }
}

impl FeedForward for Mlp {
    open spec fn feed(&self, x: Term) -> Tn {
        self.apply(Ok(x))
    }

    fn feed_forward(&self, x: &Array) -> Result<Array, Exception> {
        self.forward(x)
    }
}

/// A layer of the model.
pub type DecoderLayer = HybridLayer<Mlp>;

/// The layers of the model.
pub type Qwen3_5Model = HybridModel<Mlp>;

/// The model.
pub type Model = HybridLm<ModelArgs, Mlp>;

/// A generator of the model.
pub type Generate<'a> = crate::models::hybrid::Generate<'a, ModelArgs, Mlp>;

/// Whether the layers of a model can be laid out.
pub open spec fn layers_ready(args: &ModelArgs) -> bool {
    &&& Attention::fits(args)
    &&& GatedDeltaNet::fits(args)
    &&& args.full_attention_interval != 0
}

/// Whether a layer has the fresh attention of layer `i`.
pub open spec fn fresh_mixer(
    is_linear: bool,
    full: Option<Attention>,
    linear: Option<GatedDeltaNet>,
    args: &ModelArgs,
    i: int,
) -> bool {
    &&& is_linear == linear_layer(i, args.full_attention_interval)
    &&& is_linear ==> full is None && linear is Some && linear->Some_0.is_fresh(args)
        && linear->Some_0.wf()
    &&& !is_linear ==> linear is None && full is Some && full->Some_0.is_fresh(args)
        && full->Some_0.wf()
}

/// Whether the attention of layer `i` cannot be built.
pub open spec fn no_mixer(args: &ModelArgs, i: int, e: Exception) -> bool {
    if linear_layer(i, args.full_attention_interval) {
        GatedDeltaNet::cannot_build(args, e)
    } else {
        Attention::cannot_build(args, e)
    }
}

/// Builds the attention of layer `layer_idx`.
pub fn new_mixer(args: &ModelArgs, layer_idx: i32) -> (r: Result<
    (bool, Option<Attention>, Option<GatedDeltaNet>),
    Exception,
>)
    requires
        layers_ready(args),
        0 <= layer_idx < i32::MAX,
    ensures
        match r {
            Ok((is_linear, full, linear)) => fresh_mixer(
                is_linear,
                full,
                linear,
                args,
                layer_idx as int,
            ),
            Err(e) => no_mixer(args, layer_idx as int, e),
        },
{
    if args.is_linear(layer_idx) {
        Ok((true, None, Some(GatedDeltaNet::new(args)?)))
    } else {
        Ok((false, Some(Attention::new(args)?), None))
    }
}

impl HybridLayer<Mlp> {
    /// Whether this is a fresh layer `i`.
    pub open spec fn is_fresh(&self, args: &ModelArgs, i: int) -> bool {
        let eps = Scalar::Lit(args.rms_norm_eps);
        &&& fresh_mixer(self.is_linear, self.self_attn, self.linear_attn, args, i)
        &&& self.input_layernorm.is_fresh(args.hidden_size, eps)
        &&& self.post_attention_layernorm.is_fresh(args.hidden_size, eps)
        &&& self.mlp.is_fresh(args.hidden_size, args.intermediate_size)
    }

    /// Whether layer `i` cannot be built.
    pub open spec fn cannot_build(args: &ModelArgs, i: int, e: Exception) -> bool {
        ||| no_mixer(args, i, e)
        ||| RmsNorm::cannot_build(args.hidden_size, e)
        ||| Mlp::cannot_build(args.hidden_size, args.intermediate_size, e)
    }

    /// A fresh layer.
    pub fn new(args: &ModelArgs, layer_idx: i32) -> (r: Result<DecoderLayer, Exception>)
        requires
            layers_ready(args),
            0 <= layer_idx < i32::MAX,
        ensures
            match r {
                Ok(l) => l.is_fresh(args, layer_idx as int) && l.wf(),
                Err(e) => DecoderLayer::cannot_build(args, layer_idx as int, e),
            },
    {
        let (is_linear, self_attn, linear_attn) = new_mixer(args, layer_idx)?;
        let eps = Scalar::Lit(args.rms_norm_eps);
        let input_layernorm = RmsNorm::new(args.hidden_size, eps.copy())?;
        let post_attention_layernorm = RmsNorm::new(args.hidden_size, eps)?;
        let mlp = Mlp::new(args.hidden_size, args.intermediate_size)?;
        Ok(
            HybridLayer {
                is_linear,
                self_attn,
                linear_attn,
                input_layernorm,
                post_attention_layernorm,
                mlp,
            },
        )
    }
}

impl HybridModel<Mlp> {
    /// Whether these are the fresh layers of a model.
    pub open spec fn is_fresh(&self, args: &ModelArgs) -> bool {
        &&& table_built(Ok(self.embed_tokens@), args.vocab_size, args.hidden_size)
        &&& self.layers@.len() == layer_count(args.num_hidden_layers)
        &&& forall|i: int|
            0 <= i < self.layers@.len() ==> (#[trigger] self.layers@[i]).is_fresh(args, i)
        &&& self.norm.is_fresh(args.hidden_size, Scalar::Lit(args.rms_norm_eps))
    }

    /// Whether the layers cannot be built.
    pub open spec fn cannot_build(args: &ModelArgs, e: Exception) -> bool {
        ||| table_built(Err(e), args.vocab_size, args.hidden_size)
        ||| exists|i: int|
            0 <= i < layer_count(args.num_hidden_layers) && #[trigger] DecoderLayer::cannot_build(
                args,
                i,
                e,
            )
        ||| RmsNorm::cannot_build(args.hidden_size, e)
    }

    /// Fresh layers.
    pub fn new(args: &ModelArgs) -> (r: Result<Qwen3_5Model, Exception>)
        requires
            layers_ready(args),
        ensures
            match r {
                Ok(m) => m.is_fresh(args) && m.wf(),
                Err(e) => Qwen3_5Model::cannot_build(args, e),
            },
    {
        let embed_tokens = AnyEmbedding::embedding(args.vocab_size, args.hidden_size)?;
        let mut layers: Vec<DecoderLayer> = Vec::new();
        let mut i: i32 = 0;
        while i < args.num_hidden_layers
            invariant
                0 <= i,
                i <= args.num_hidden_layers || i == 0,
                layers_ready(args),
                layers@.len() == i,
                forall|j: int|
                    0 <= j < i ==> (#[trigger] layers@[j]).is_fresh(args, j) && layers@[j].wf(),
            decreases args.num_hidden_layers - i,
        {
            let layer = DecoderLayer::new(args, i);
            proof {
                match layer {
                    Ok(_) => {},
                    Err(e) => {
                        assert(DecoderLayer::cannot_build(args, i as int, e));
                    },
                }
            }
            layers.push(layer?);
            i += 1;
        }
        let norm = RmsNorm::new(args.hidden_size, Scalar::Lit(args.rms_norm_eps))?;
        Ok(HybridModel { embed_tokens, layers, norm })
    }
}

impl HybridLm<ModelArgs, Mlp> {
    /// Whether this is a fresh model.
    pub open spec fn is_fresh(&self) -> bool {
        &&& self.model.is_fresh(&self.args)
        &&& self.lm_head is None == self.args.tie_word_embeddings
        &&& self.lm_head matches Some(l) ==> linear_built(
            Ok(l@),
            self.args.hidden_size,
            self.args.vocab_size,
            false,
        )
    }

    /// Whether a model cannot be built.
    pub open spec fn cannot_build(args: &ModelArgs, e: Exception) -> bool {
        ||| Qwen3_5Model::cannot_build(args, e)
        ||| !args.tie_word_embeddings && linear_built(
            Err(e),
            args.hidden_size,
            args.vocab_size,
            false,
        )
    }

    /// A fresh model.
    pub fn new(args: ModelArgs) -> (r: Result<Model, Exception>)
        requires
            layers_ready(&args),
        ensures
            match r {
                Ok(m) => m.args == args && m.is_fresh() && m.model.wf(),
                Err(e) => Model::cannot_build(&args, e),
            },
    {
        let model = Qwen3_5Model::new(&args)?;
        let lm_head = if !args.tie_word_embeddings {
            Some(AnyLinear::linear(args.hidden_size, args.vocab_size, false)?)
        } else {
            None
        };
        Ok(HybridLm { args, model, lm_head })
    }
}

/// The packing of the weights of a wrapped text model: its own, or else that of the wrapper.
pub fn wrapped_quantization(
    own: Option<QuantizationConfig>,
    wrapper: Option<QuantizationConfig>,
) -> (r: Option<QuantizationConfig>)
    ensures
        r == (if own is Some {
            own
        } else {
            wrapper
        }),
{
    match own {
        Some(q) => Some(q),
        None => wrapper,
    }
}

/// Whether `r` is the model that checkpoints of this configuration are put into.
pub open spec fn built(args: ModelArgs, r: Result<Model, Exception>) -> bool {
    match r {
        Ok(m) => exists|f: Model|
            f.args == args && #[trigger] f.is_fresh() && match args.quantization {
                Some(q) => f.packs_to(q.group_size, q.bits, Ok(m)),
                None => m == f,
            },
        Err(e) => Model::cannot_build(&args, e) || exists|f: Model|
            f.args == args && #[trigger] f.is_fresh() && match args.quantization {
                Some(q) => f.packs_to(q.group_size, q.bits, Err(e)),
                None => false,
            },
    }
}

/// Builds the model that checkpoints of this configuration are put into.
pub fn build_qwen3_5_model(args: ModelArgs) -> (r: Result<Model, Exception>)
    requires
        layers_ready(&args),
    ensures
        built(args, r),
        r matches Ok(m) ==> m.model.wf(),
{
    let quantization = args.quantization;
    let model = Model::new(args)?;
    proof {
        assert(model.is_fresh());
    }
    match quantization {
        Some(q) => {
            let ghost fresh = model;
            let r = model.quantize(q.group_size, q.bits);
            proof {
                if r is Ok {
                    lemma_packed_wf(fresh, r->Ok_0, q.group_size, q.bits);
                }
            }
            r
        },
        None => Ok(model),
    }
}

/// Packing leaves every layer with the attention that it says it has.
pub proof fn lemma_packed_wf<A, F: FeedForward + Quantizable>(
    before: HybridLm<A, F>,
    after: HybridLm<A, F>,
    group_size: i32,
    bits: i32,
)
    requires
        before.model.wf(),
        before.packs_to(group_size, bits, Ok(after)),
    ensures
        after.model.wf(),
{
    assert forall|i: int| 0 <= i < after.model.layers@.len() implies (
    #[trigger] after.model.layers@[i]).wf() by {
        let l = before.model.layers@[i];
        assert(l.wf());
        assert(l.packs_to(group_size, bits, Ok(after.model.layers@[i])));
    }
}

/// Builds the model of a configuration and puts the text weights of the files of a checkpoint into
/// it, counting for each file the arrays that found a place. The weights of norms are taken as they
/// are: checkpoints hold them with the one already added.
pub fn load_qwen3_5_model(args: ModelArgs, files: &Vec<Vec<(String, Array)>>) -> (r: Result<
    (Model, Vec<usize>),
    Exception,
>)
    requires
        layers_ready(&args),
    ensures
        match (r, text_files(file_entries(files@))) {
            (Ok((m, counts)), Ok(e)) => m.model.wf() && exists|f: Model| #[trigger]
                built(args, Ok(f)) && loaded_from(Remap::InnerWeight, f, e, m, counts@),
            (Err(x), Ok(_)) => built(args, Err(x)),
            (Err(x), Err(y)) => built(args, Err(x)) || x == y,
            (Ok(_), Err(_)) => false,
        },
{
    let mut model = build_qwen3_5_model(args)?;
    let ghost fresh = model;
    let counts = load_text_files(&mut model, files)?;
    proof {
        assert(built(args, Ok(fresh)));
        lemma_wf_kept(fresh.model, model.model);
    }
    Ok((model, counts))
}

} // verus!
