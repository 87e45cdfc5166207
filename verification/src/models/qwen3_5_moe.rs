//! Qwen3.5 with routed experts: the layers of Qwen3.5 with a feed-forward part in which every token
//! is sent to its best few experts and to one expert that all tokens share.

use crate::array::{tn, Array, Term, Tn};
use crate::error::Exception;
use crate::models::hybrid::{lemma_wf_kept, FeedForward, HybridLayer, HybridLm, HybridModel};
use crate::models::qwen3::{layer_count, product_fits, Mlp, QuantizationConfig};
use crate::models::qwen3_5::{
    fresh_mixer, lemma_packed_wf, linear_layer, new_mixer, no_mixer, ModelArgs as Qwen35Args,
    RopeParameters,
};
use crate::models::qwen3_moe::{
    best_experts, blend, blended, expert_scores, pick_experts, score_experts, SwitchGlu,
};
use crate::nn::{table_built, linear_built, AnyEmbedding, AnyLinear, Quantizable, RmsNorm};
use crate::ops::create::t_scalar;
use crate::ops::elementwise::{t_add, t_multiply, t_sigmoid};
use crate::ops::product::{quantized_matmul, t_quantized_matmul};
use crate::ops::reduce::{softmax_axis, t_softmax};
use crate::params::{lemma_part, Parameters};
use crate::scalar::{lit, Float, Scalar, ZERO_BITS};
use crate::text::{begins, same_text, strip_prefix};
use crate::utils::rope::{copy_scaling, same_scaling, ScalingConfig};
use crate::weights::{file_entries, load_text_files, loaded_from, text_files, Remap};
use vstd::prelude::*;

verus! {

/// The number of bits of packed experts.
pub const EXPERT_BITS: i32 = 4;

/// The number of bits of packed routing matrices.
pub const GATE_BITS: i32 = 8;

/// The group size of packed weights where none is set.
pub const GROUP_SIZE: i32 = 64;

/// The value of a switch that is on unless it is set otherwise.
pub fn default_true() -> (r: bool)
    ensures
        r,
{
    true
}

/// The configuration of a model.
pub struct ModelArgs {
    pub model_type: String,
    pub hidden_size: i32,
    pub num_hidden_layers: i32,
    /// Absent where no layer has a plain feed-forward part.
    pub intermediate_size: Option<i32>,
    pub num_attention_heads: i32,
    pub num_key_value_heads: i32,
    pub head_dim: i32,
    pub rms_norm_eps: Float,
    pub vocab_size: i32,
    pub max_position_embeddings: i32,
    pub rope_theta: Option<Float>,
    pub partial_rotary_factor: Option<Float>,
    pub rope_parameters: Option<RopeParameters>,
    pub full_attention_interval: i32,
    pub linear_num_value_heads: i32,
    pub linear_num_key_heads: i32,
    pub linear_key_head_dim: i32,
    pub linear_value_head_dim: i32,
    pub linear_conv_kernel_dim: i32,
    pub tie_word_embeddings: bool,
    pub num_experts: i32,
    pub num_experts_per_tok: i32,
    pub moe_intermediate_size: i32,
    pub shared_expert_intermediate_size: i32,
    pub norm_topk_prob: bool,
    pub rope_scaling: Option<ScalingConfig>,
    pub quantization: Option<QuantizationConfig>,
}

/// Whether the configurations of the layers agree.
pub open spec fn shares_base(args: &ModelArgs, base: Qwen35Args) -> bool {
    &&& base.model_type@ == args.model_type@
    &&& base.intermediate_size == match args.intermediate_size {
        Some(n) => n,
        None => 0,
    }
    &&& base.hidden_size == args.hidden_size
    &&& base.num_hidden_layers == args.num_hidden_layers
    &&& base.num_attention_heads == args.num_attention_heads
    &&& base.num_key_value_heads == args.num_key_value_heads
    &&& base.head_dim == args.head_dim
    &&& base.rms_norm_eps == args.rms_norm_eps
    &&& base.vocab_size == args.vocab_size
    &&& base.max_position_embeddings == args.max_position_embeddings
    &&& base.rope_theta == args.rope_theta
    &&& base.partial_rotary_factor == args.partial_rotary_factor
    &&& base.rope_parameters == args.rope_parameters
    &&& base.full_attention_interval == args.full_attention_interval
    &&& base.linear_num_value_heads == args.linear_num_value_heads
    &&& base.linear_num_key_heads == args.linear_num_key_heads
    &&& base.linear_key_head_dim == args.linear_key_head_dim
    &&& base.linear_value_head_dim == args.linear_value_head_dim
    &&& base.linear_conv_kernel_dim == args.linear_conv_kernel_dim
    &&& base.tie_word_embeddings == args.tie_word_embeddings
    &&& base.quantization == args.quantization
    &&& same_scaling(base.rope_scaling, args.rope_scaling)
}

impl ModelArgs {
    /// Whether layer `layer_idx` has linear attention.
    pub fn is_linear(&self, layer_idx: i32) -> (r: bool)
        requires
            self.full_attention_interval != 0,
            0 <= layer_idx < i32::MAX,
        ensures
            r == linear_layer(layer_idx as int, self.full_attention_interval),
    {
        (layer_idx + 1) % self.full_attention_interval != 0
    }

    /// The part of the configuration that both sorts of attention need.
    pub fn base(&self) -> (r: Qwen35Args)
        ensures
            shares_base(self, r),
    {
        Qwen35Args {
            model_type: self.model_type.clone(),
            intermediate_size: match self.intermediate_size {
                Some(n) => n,
                None => 0,
            },
            hidden_size: self.hidden_size,
            num_hidden_layers: self.num_hidden_layers,
            num_attention_heads: self.num_attention_heads,
            num_key_value_heads: self.num_key_value_heads,
            head_dim: self.head_dim,
            rms_norm_eps: self.rms_norm_eps,
            vocab_size: self.vocab_size,
            max_position_embeddings: self.max_position_embeddings,
            rope_theta: self.rope_theta,
            partial_rotary_factor: self.partial_rotary_factor,
            rope_parameters: self.rope_parameters,
            full_attention_interval: self.full_attention_interval,
            linear_num_value_heads: self.linear_num_value_heads,
            linear_num_key_heads: self.linear_num_key_heads,
            linear_key_head_dim: self.linear_key_head_dim,
            linear_value_head_dim: self.linear_value_head_dim,
            linear_conv_kernel_dim: self.linear_conv_kernel_dim,
            tie_word_embeddings: self.tie_word_embeddings,
            quantization: self.quantization,
            rope_scaling: copy_scaling(&self.rope_scaling),
        }
    }
}

/// A packed matrix whose width is its own.
pub struct QuantLinear {
    pub group_size: i32,
    pub bits: i32,
    pub weight: Array,
    pub scales: Array,
    pub biases: Array,
}

impl QuantLinear {
    /// The product of `x` with the transposed matrix.
    pub open spec fn apply(&self, x: Tn) -> Tn {
        t_quantized_matmul(
            x,
            self.weight@,
            self.scales@,
            self.biases@,
            self.group_size,
            self.bits,
        )
    }

    /// Whether this is a matrix that is still to be loaded.
    pub open spec fn is_empty(&self, group_size: i32, bits: i32) -> bool {
        let zero = t_scalar(lit(ZERO_BITS));
        &&& self.group_size == group_size
        &&& self.bits == bits
        &&& zero == Ok::<Term, Exception>(self.weight@)
        &&& zero == Ok::<Term, Exception>(self.scales@)
        &&& zero == Ok::<Term, Exception>(self.biases@)
    }

    /// A matrix that is still to be loaded.
    pub fn new(group_size: i32, bits: i32) -> (r: QuantLinear)
        ensures
            r.is_empty(group_size, bits),
    {
        QuantLinear {
            group_size,
            bits,
            weight: Array::from_scalar(Scalar::lit(ZERO_BITS)),
            scales: Array::from_scalar(Scalar::lit(ZERO_BITS)),
            biases: Array::from_scalar(Scalar::lit(ZERO_BITS)),
        }
    }

    /// Multiplies by the transposed matrix.
    pub fn forward(&self, x: &Array) -> (r: Result<Array, Exception>)
        ensures
            tn(r) == self.apply(Ok(x@)),
    {
        quantized_matmul(
            x,
            &self.weight,
            &self.scales,
            &self.biases,
            self.group_size,
            self.bits,
        )
    }
}

impl Parameters for QuantLinear {
    type Frame = (i32, i32);

    open spec fn frame(&self) -> Self::Frame {
        (self.group_size, self.bits)
    }

    open spec fn param(&self, key: Seq<char>) -> Option<Term> {
        if key == "weight"@ {
            Some(self.weight@)
        } else if key == "scales"@ {
            Some(self.scales@)
        } else if key == "biases"@ {
            Some(self.biases@)
        } else {
            None
        }
    }

    fn has_param(&self, key: &str) -> bool {
        if same_text(key, "weight") {
            return true;
        }
        if same_text(key, "scales") {
            return true;
        }
        if same_text(key, "biases") {
            return true;
        }
        false
    }

    fn set_param(&mut self, key: &str, value: Array) -> bool {
        let ghost before = *self;
        if same_text(key, "weight") {
            self.weight = value;
            return true;
        }
        if same_text(key, "scales") {
            self.scales = value;
            return true;
        }
        if same_text(key, "biases") {
            self.biases = value;
            return true;
        }
        false
    }
}

/// A feed-forward layer of routed experts and one shared expert.
pub struct SparseMoeBlock {
    pub top_k: i32,
    pub num_experts: i32,
    pub norm_topk_prob: bool,
    pub gate: QuantLinear,
    pub switch_mlp: SwitchGlu,
    pub shared_expert: Mlp,
    pub shared_expert_gate: QuantLinear,
}

/// The group size of packed weights.
pub open spec fn group_size_of(q: Option<QuantizationConfig>) -> i32 {
    match q {
        Some(q) => q.group_size,
        None => GROUP_SIZE,
    }
}

impl SparseMoeBlock {
    /// The picked experts applied to `x`, by their scores.
    pub open spec fn routed(&self, x: Tn) -> Tn {
        let gates = t_softmax(self.gate.apply(x), -1i32, true);
        let picked = best_experts(gates, self.top_k, self.num_experts);
        blended(
            self.switch_mlp.apply(x, picked),
            expert_scores(gates, picked, self.norm_topk_prob),
        )
    }

    /// The layer applied to `x`: the picked experts by their scores, plus the shared expert by a
    /// gate of its own.
    pub open spec fn apply(&self, x: Tn) -> Tn {
        t_add(
            self.routed(x),
            t_multiply(
                t_sigmoid(self.shared_expert_gate.apply(x)),
                self.shared_expert.apply(x),
            ),
        )
    }

    /// Whether this is a fresh layer. The shared expert is packed from the start, and so keeps its
    /// width when the rest of the model is packed.
    pub open spec fn is_fresh(&self, args: &ModelArgs) -> bool {
        let gs = group_size_of(args.quantization);
        &&& self.top_k == args.num_experts_per_tok
        &&& self.num_experts == args.num_experts
        &&& self.norm_topk_prob == args.norm_topk_prob
        &&& self.gate.is_empty(gs, GATE_BITS)
        &&& self.switch_mlp.is_empty(gs, EXPERT_BITS)
        &&& exists|m: Mlp|
            #[trigger] m.is_fresh(args.hidden_size, args.shared_expert_intermediate_size)
                && m.packs_to(gs, EXPERT_BITS, Ok(self.shared_expert))
        &&& self.shared_expert_gate.is_empty(gs, GATE_BITS)
    }

    /// Whether a layer cannot be built.
    pub open spec fn cannot_build(args: &ModelArgs, e: Exception) -> bool {
        let gs = group_size_of(args.quantization);
        ||| Mlp::cannot_build(args.hidden_size, args.shared_expert_intermediate_size, e)
        ||| exists|m: Mlp|
            #[trigger] m.is_fresh(args.hidden_size, args.shared_expert_intermediate_size)
                && m.packs_to(gs, EXPERT_BITS, Err(e))
    }

    /// A fresh layer.
    pub fn new(args: &ModelArgs) -> (r: Result<SparseMoeBlock, Exception>)
        ensures
            match r {
                Ok(m) => m.is_fresh(args),
                Err(e) => SparseMoeBlock::cannot_build(args, e),
            },
    {
        let gs: i32 = match args.quantization {
            Some(q) => q.group_size,
            None => GROUP_SIZE,
        };
        let shared = Mlp::new(args.hidden_size, args.shared_expert_intermediate_size)?;
        proof {
            assert(shared.is_fresh(args.hidden_size, args.shared_expert_intermediate_size));
        }
        let shared_expert = shared.quantize(gs, EXPERT_BITS)?;
        Ok(
            SparseMoeBlock {
                top_k: args.num_experts_per_tok,
                num_experts: args.num_experts,
                norm_topk_prob: args.norm_topk_prob,
                gate: QuantLinear::new(gs, GATE_BITS),
                switch_mlp: SwitchGlu::new(gs, EXPERT_BITS),
                shared_expert,
                shared_expert_gate: QuantLinear::new(gs, GATE_BITS),
            },
        )
    }

    /// Applies the layer.
    pub fn forward(&self, x: &Array) -> (r: Result<Array, Exception>)
        ensures
            tn(r) == self.apply(Ok(x@)),
    {
        let gates = softmax_axis(&self.gate.forward(x)?, -1, true)?;
        let picked = pick_experts(&gates, self.top_k, self.num_experts)?;
        let scores = score_experts(&gates, &picked, self.norm_topk_prob)?;
        let y = self.switch_mlp.forward(x, &picked)?;
        let y = blend(&y, &scores)?;
        let shared = self.shared_expert.forward(x)?;
        let shared = self.shared_expert_gate.forward(x)?.sigmoid()?.multiply(&shared)?;
        y.add(&shared)
    }
}

impl Quantizable for SparseMoeBlock {
    open spec fn packs_to(
        self,
        group_size: i32,
        bits: i32,
        out: Result<SparseMoeBlock, Exception>,
    ) -> bool {
        match out {
            Ok(a) => {
                &&& self.shared_expert.packs_to(group_size, bits, Ok(a.shared_expert))
                &&& a == (SparseMoeBlock { shared_expert: a.shared_expert, ..self })
            },
            Err(e) => {
                ||| self.shared_expert.packs_to(group_size, bits, Err(e))
            },
        }
    }

    fn quantize(self, group_size: i32, bits: i32) -> Result<SparseMoeBlock, Exception> {
        let shared_expert = self.shared_expert.quantize(group_size, bits)?;
        Ok(
            SparseMoeBlock {
                shared_expert,
                top_k: self.top_k,
                num_experts: self.num_experts,
                norm_topk_prob: self.norm_topk_prob,
                gate: self.gate,
                switch_mlp: self.switch_mlp,
                shared_expert_gate: self.shared_expert_gate,
            },
        )
    }
}

impl Parameters for SparseMoeBlock {
    type Frame = (
        i32,
        i32,
        bool,
        <QuantLinear as Parameters>::Frame,
        <SwitchGlu as Parameters>::Frame,
        <Mlp as Parameters>::Frame,
        <QuantLinear as Parameters>::Frame,
    );

    open spec fn frame(&self) -> Self::Frame {
        (
            self.top_k,
            self.num_experts,
            self.norm_topk_prob,
            self.gate.frame(),
            self.switch_mlp.frame(),
            self.shared_expert.frame(),
            self.shared_expert_gate.frame(),
        )
    }

    open spec fn param(&self, key: Seq<char>) -> Option<Term> {
        if begins(key, "gate."@) {
            self.gate.param(key.skip("gate."@.len() as int))
        } else if begins(key, "switch_mlp."@) {
            self.switch_mlp.param(key.skip("switch_mlp."@.len() as int))
        } else if begins(key, "shared_expert."@) {
            self.shared_expert.param(key.skip("shared_expert."@.len() as int))
        } else if begins(key, "shared_expert_gate."@) {
            self.shared_expert_gate.param(key.skip("shared_expert_gate."@.len() as int))
        } else {
            None
        }
    }

    fn has_param(&self, key: &str) -> bool {
        match strip_prefix(key, "gate.") {
            Some(rest) => {
                return self.gate.has_param(rest);
            },
            None => {},
        }
        match strip_prefix(key, "switch_mlp.") {
            Some(rest) => {
                return self.switch_mlp.has_param(rest);
            },
            None => {},
        }
        match strip_prefix(key, "shared_expert.") {
            Some(rest) => {
                return self.shared_expert.has_param(rest);
            },
            None => {},
        }
        match strip_prefix(key, "shared_expert_gate.") {
            Some(rest) => {
                return self.shared_expert_gate.has_param(rest);
            },
            None => {},
        }
        false
    }

    fn set_param(&mut self, key: &str, value: Array) -> bool {
        let ghost before = *self;
        match strip_prefix(key, "gate.") {
            Some(rest) => {
                let ghost v = value@;
                let done = self.gate.set_param(rest, value);
                proof {
                    lemma_part(before.gate, self.gate, key@, "gate."@, v, done);
                }
                return done;
            },
            None => {},
        }
        match strip_prefix(key, "switch_mlp.") {
            Some(rest) => {
                let ghost v = value@;
                let done = self.switch_mlp.set_param(rest, value);
                proof {
                    lemma_part(before.switch_mlp, self.switch_mlp, key@, "switch_mlp."@, v, done);
                }
                return done;
            },
            None => {},
        }
        match strip_prefix(key, "shared_expert.") {
            Some(rest) => {
                let ghost v = value@;
                let done = self.shared_expert.set_param(rest, value);
                proof {
                    lemma_part(
                        before.shared_expert,
                        self.shared_expert,
                        key@,
                        "shared_expert."@,
                        v,
                        done,
                    );
                }
                return done;
            },
            None => {},
        }
        match strip_prefix(key, "shared_expert_gate.") {
            Some(rest) => {
                let ghost v = value@;
                let done = self.shared_expert_gate.set_param(rest, value);
                proof {
                    lemma_part(
                        before.shared_expert_gate,
                        self.shared_expert_gate,
                        key@,
                        "shared_expert_gate."@,
                        v,
                        done,
                    );
                }
                return done;
            },
            None => {},
        }
        false
    }
}

impl FeedForward for SparseMoeBlock {
    open spec fn feed(&self, x: Term) -> Tn {
        self.apply(Ok(x))
    }

    fn feed_forward(&self, x: &Array) -> Result<Array, Exception> {
        self.forward(x)
    }
}

/// A layer of the model.
pub type DecoderLayer = HybridLayer<SparseMoeBlock>;

/// The layers of the model.
pub type Qwen3_5MoeModel = HybridModel<SparseMoeBlock>;

/// The model.
pub type Model = HybridLm<ModelArgs, SparseMoeBlock>;

/// A generator of the model.
pub type Generate<'a> = crate::models::hybrid::Generate<'a, ModelArgs, SparseMoeBlock>;

/// Whether the layers of a model can be laid out.
pub open spec fn layers_ready(args: &ModelArgs) -> bool {
    &&& product_fits(args.num_attention_heads, args.head_dim)
    &&& i32::MIN <= args.num_attention_heads * args.head_dim * 2 <= i32::MAX
    &&& product_fits(args.num_key_value_heads, args.head_dim)
    &&& product_fits(args.head_dim, 2)
    &&& product_fits(args.linear_key_head_dim, args.linear_num_key_heads)
    &&& product_fits(args.linear_value_head_dim, args.linear_num_value_heads)
    &&& i32::MIN <= args.linear_key_head_dim * args.linear_num_key_heads * 2 <= i32::MAX
    &&& i32::MIN <= args.linear_key_head_dim * args.linear_num_key_heads * 2
        + args.linear_value_head_dim * args.linear_num_value_heads <= i32::MAX
    &&& args.linear_conv_kernel_dim >= 1
    &&& args.linear_value_head_dim >= 0
    &&& args.full_attention_interval != 0
}

impl HybridLayer<SparseMoeBlock> {
    /// Whether this is a fresh layer `i`.
    pub open spec fn is_fresh(&self, args: &ModelArgs, i: int) -> bool {
        let eps = Scalar::Lit(args.rms_norm_eps);
        &&& exists|base: Qwen35Args| #[trigger]
            shares_base(args, base) && fresh_mixer(
                self.is_linear,
                self.self_attn,
                self.linear_attn,
                &base,
                i,
            )
        &&& self.input_layernorm.is_fresh(args.hidden_size, eps)
        &&& self.post_attention_layernorm.is_fresh(args.hidden_size, eps)
        &&& self.mlp.is_fresh(args)
    }

    /// Whether layer `i` cannot be built.
    pub open spec fn cannot_build(args: &ModelArgs, i: int, e: Exception) -> bool {
        ||| exists|base: Qwen35Args| #[trigger] shares_base(args, base) && no_mixer(&base, i, e)
        ||| RmsNorm::cannot_build(args.hidden_size, e)
        ||| SparseMoeBlock::cannot_build(args, e)
    }

    /// A fresh layer.
    pub fn new(args: &ModelArgs, layer_idx: i32) -> (r: Result<DecoderLayer, Exception>)
        requires
            layers_ready(args),
            0 <= layer_idx < i32::MAX,
        ensures
            match r {
                Ok(l) => l.is_fresh(args, layer_idx as int) && l.wf(),
                Err(e) => DecoderLayer::cannot_build(args, layer_idx as int, e),
            },
    {
        let base = args.base();
        proof {
            assert(shares_base(args, base));
        }
        let (is_linear, self_attn, linear_attn) = new_mixer(&base, layer_idx)?;
        let eps = Scalar::Lit(args.rms_norm_eps);
        let input_layernorm = RmsNorm::new(args.hidden_size, eps.copy())?;
        let post_attention_layernorm = RmsNorm::new(args.hidden_size, eps)?;
        let mlp = SparseMoeBlock::new(args)?;
        Ok(
            HybridLayer {
                is_linear,
                self_attn,
                linear_attn,
                input_layernorm,
                post_attention_layernorm,
                mlp,
            },
        )
    }
}

impl HybridModel<SparseMoeBlock> {
    /// Whether these are the fresh layers of a model.
    pub open spec fn is_fresh(&self, args: &ModelArgs) -> bool {
        &&& table_built(Ok(self.embed_tokens@), args.vocab_size, args.hidden_size)
        &&& self.layers@.len() == layer_count(args.num_hidden_layers)
        &&& forall|i: int|
            0 <= i < self.layers@.len() ==> (#[trigger] self.layers@[i]).is_fresh(args, i)
        &&& self.norm.is_fresh(args.hidden_size, Scalar::Lit(args.rms_norm_eps))
    }

    /// Whether the layers cannot be built.
    pub open spec fn cannot_build(args: &ModelArgs, e: Exception) -> bool {
        ||| table_built(Err(e), args.vocab_size, args.hidden_size)
        ||| exists|i: int|
            0 <= i < layer_count(args.num_hidden_layers) && #[trigger] DecoderLayer::cannot_build(
                args,
                i,
                e,
            )
        ||| RmsNorm::cannot_build(args.hidden_size, e)
    }

    /// Fresh layers.
    pub fn new(args: &ModelArgs) -> (r: Result<Qwen3_5MoeModel, Exception>)
        requires
            layers_ready(args),
        ensures
            match r {
                Ok(m) => m.is_fresh(args) && m.wf(),
                Err(e) => Qwen3_5MoeModel::cannot_build(args, e),
            },
    {
        let embed_tokens = AnyEmbedding::embedding(args.vocab_size, args.hidden_size)?;
        let mut layers: Vec<DecoderLayer> = Vec::new();
        let mut i: i32 = 0;
        while i < args.num_hidden_layers
            invariant
                0 <= i,
                i <= args.num_hidden_layers || i == 0,
                layers_ready(args),
                layers@.len() == i,
                forall|j: int|
                    0 <= j < i ==> (#[trigger] layers@[j]).is_fresh(args, j) && layers@[j].wf(),
            decreases args.num_hidden_layers - i,
        {
            let layer = DecoderLayer::new(args, i);
            proof {
                match layer {
                    Ok(_) => {},
                    Err(e) => {
                        assert(DecoderLayer::cannot_build(args, i as int, e));
                    },
                }
            }
            layers.push(layer?);
            i += 1;
        }
        let norm = RmsNorm::new(args.hidden_size, Scalar::Lit(args.rms_norm_eps))?;
        Ok(HybridModel { embed_tokens, layers, norm })
    }
}

impl HybridLm<ModelArgs, SparseMoeBlock> {
    /// Whether this is a fresh model.
    pub open spec fn is_fresh(&self) -> bool {
        &&& self.model.is_fresh(&self.args)
        &&& self.lm_head is None == self.args.tie_word_embeddings
        &&& self.lm_head matches Some(l) ==> linear_built(
            Ok(l@),
            self.args.hidden_size,
            self.args.vocab_size,
            false,
        )
    }

    /// Whether a model cannot be built.
    pub open spec fn cannot_build(args: &ModelArgs, e: Exception) -> bool {
        ||| Qwen3_5MoeModel::cannot_build(args, e)
        ||| !args.tie_word_embeddings && linear_built(
            Err(e),
            args.hidden_size,
            args.vocab_size,
            false,
        )
    }

    /// A fresh model.
    pub fn new(args: ModelArgs) -> (r: Result<Model, Exception>)
        requires
            layers_ready(&args),
        ensures
            match r {
                Ok(m) => m.args == args && m.is_fresh() && m.model.wf(),
                Err(e) => Model::cannot_build(&args, e),
            },
    {
        let model = Qwen3_5MoeModel::new(&args)?;
        let lm_head = if !args.tie_word_embeddings {
            Some(AnyLinear::linear(args.hidden_size, args.vocab_size, false)?)
        } else {
            None
        };
        Ok(HybridLm { args, model, lm_head })
    }
}

/// Whether `r` is the model that checkpoints of this configuration are put into.
pub open spec fn built(args: ModelArgs, r: Result<Model, Exception>) -> bool {
    match r {
        Ok(m) => exists|f: Model|
            f.args == args && #[trigger] f.is_fresh() && match args.quantization {
                Some(q) => f.packs_to(q.group_size, q.bits, Ok(m)),
                None => m == f,
            },
        Err(e) => Model::cannot_build(&args, e) || exists|f: Model|
            f.args == args && #[trigger] f.is_fresh() && match args.quantization {
                Some(q) => f.packs_to(q.group_size, q.bits, Err(e)),
                None => false,
            },
    }
}

/// Builds the model that checkpoints of this configuration are put into.
pub fn build_qwen3_5_moe_model(args: ModelArgs) -> (r: Result<Model, Exception>)
    requires
        layers_ready(&args),
    ensures
        built(args, r),
        r matches Ok(m) ==> m.model.wf(),
{
    let quantization = args.quantization;
    let model = Model::new(args)?;
    proof {
        assert(model.is_fresh());
    }
    match quantization {
        Some(q) => {
            let ghost fresh = model;
            let r = model.quantize(q.group_size, q.bits);
            proof {
                if r is Ok {
                    lemma_packed_wf(fresh, r->Ok_0, q.group_size, q.bits);
                }
            }
            r
        },
        None => Ok(model),
    }
}

/// Builds the model of a configuration and puts the text weights of the files of a checkpoint into
/// it, counting for each file the arrays that found a place. The weights of norms are taken as they
/// are: checkpoints hold them with the one already added.
pub fn load_qwen3_5_moe_model(args: ModelArgs, files: &Vec<Vec<(String, Array)>>) -> (r: Result<
    (Model, Vec<usize>),
    Exception,
>)
    requires
        layers_ready(&args),
    ensures
        match (r, text_files(file_entries(files@))) {
            (Ok((m, counts)), Ok(e)) => m.model.wf() && exists|f: Model| #[trigger]
                built(args, Ok(f)) && loaded_from(Remap::InnerWeight, f, e, m, counts@),
            (Err(x), Ok(_)) => built(args, Err(x)),
            (Err(x), Err(y)) => built(args, Err(x)) || x == y,
            (Ok(_), Err(_)) => false,
        },
{
    let mut model = build_qwen3_5_moe_model(args)?;
    let ghost fresh = model;
    let counts = load_text_files(&mut model, files)?;
    proof {
        assert(built(args, Ok(fresh)));
        lemma_wf_kept(fresh.model, model.model);
    }
    Ok((model, counts))
}

} // verus!
